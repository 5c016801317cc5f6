//! The edits of a name that is changed everywhere at once.

use vstd::prelude::*;

use crate::batches::{in_order, is_next, is_before, name_before};
use crate::convert::Range;
use crate::syntax::Span;
use crate::text::same;

verus! {

/// A place where a name stands: the path by which it was found, the file behind
/// that path, whether that may be edited, and the other paths that lead to it.
#[derive(Debug)]
pub struct RenamePlace {
    pub path: String,
    pub source: String,
    pub is_editable: bool,
    pub aliases: Vec<String>,
    pub span: Span,
}

/// Why a name cannot be changed.
#[derive(Debug)]
pub enum RenameError {
    External { path: String },
    Shared { source: String, alias: String },
    NoUri { path: String },
    NoRange { path: String },
    NeedsVersions,
}

impl RenameError {
    /// The message for an error.
    pub fn message(&self) -> (r: String)
        ensures
            r@ == match *self {
                RenameError::External { path } =>
                    "Cannot rename a declaration or reference in external repository "@ + path@,
                RenameError::Shared { source, alias } => "Cannot rename shared source "@ + source@
                    + ": the interpretation at "@ + (alias@ + " is outside this rename"@),
                RenameError::NoUri { path } => "Cannot construct an editor URI for "@ + path@,
                RenameError::NoRange { path } => "Cannot convert a rename range in "@ + path@,
                RenameError::NeedsVersions =>
                    "Renaming open documents requires client support for versioned document changes"@,
            },
    {
        match self {
            RenameError::External { path } => crate::text::join(
                "Cannot rename a declaration or reference in external repository ",
                path.as_str(),
            ),
            RenameError::Shared { source, alias } => {
                let start = crate::text::join3(
                    "Cannot rename shared source ",
                    source.as_str(),
                    ": the interpretation at ",
                );
                let end = crate::text::join(alias.as_str(), " is outside this rename");
                crate::text::join(start.as_str(), end.as_str())
            },
            RenameError::NoUri { path } => crate::text::join(
                "Cannot construct an editor URI for ",
                path.as_str(),
            ),
            RenameError::NoRange { path } => crate::text::join(
                "Cannot convert a rename range in ",
                path.as_str(),
            ),
            RenameError::NeedsVersions =>
                "Renaming open documents requires client support for versioned document changes".to_owned(),
        }
    }
}

/// Whether a range under a path is one of the places.
pub open spec fn is_matched(places: Seq<RenamePlace>, path: Seq<char>, span: Span) -> bool {
    exists|k: int|
        0 <= k < places.len() && (#[trigger] places[k]).path@ == path && places[k].span == span
}

/// Whether a path that leads to the file of a place is left out of the change.
pub open spec fn is_left_out(places: Seq<RenamePlace>, place: RenamePlace, i: int) -> bool {
    0 <= i < place.aliases@.len() && !is_matched(places, place.aliases@[i]@, place.span)
}

/// Whether a place can be changed: it may be edited, and every path that leads to
/// its file is changed with it.
pub open spec fn can_rename(places: Seq<RenamePlace>, place: RenamePlace) -> bool {
    place.is_editable && forall|i: int| !#[trigger] is_left_out(places, place, i)
}

/// Whether an error says why a place cannot be changed.
pub open spec fn is_refusal(places: Seq<RenamePlace>, place: RenamePlace, error: RenameError) -> bool {
    if !place.is_editable {
        error matches RenameError::External { path } && path@ == place.path@
    } else {
        error matches RenameError::Shared { source, alias } && source@ == place.source@ && exists|
            i: int,
        | #[trigger]
            is_left_out(places, place, i) && alias@ == place.aliases@[i]@ && forall|j: int|
                j < i ==> !#[trigger] is_left_out(places, place, j)
    }
}

/// Whether a range under a path is one of the places.
fn matched(places: &Vec<RenamePlace>, path: &str, span: Span) -> (r: bool)
    ensures
        r == is_matched(places@, path@, span),
{
    let mut k: usize = 0;
    while k < places.len()
        invariant
            k <= places@.len(),
            forall|j: int|
                0 <= j < k ==> !((#[trigger] places@[j]).path@ == path@ && places@[j].span == span),
        decreases places@.len() - k,
    {
        if same(places[k].path.as_str(), path) && places[k].span == span {
            return true;
        }
        k = k + 1;
    }
    false
}

/// The first of the paths to the file of a place that is left out.
fn first_left_out(places: &Vec<RenamePlace>, place: &RenamePlace) -> (r: Option<usize>)
    ensures
        match r {
            Some(i) => is_left_out(places@, *place, i as int) && forall|j: int|
                j < i ==> !#[trigger] is_left_out(places@, *place, j),
            None => forall|i: int| !#[trigger] is_left_out(places@, *place, i),
        },
{
    let mut i: usize = 0;
    while i < place.aliases.len()
        invariant
            i <= place.aliases@.len(),
            forall|j: int| j < i ==> !#[trigger] is_left_out(places@, *place, j),
        decreases place.aliases@.len() - i,
    {
        if !matched(places, place.aliases[i].as_str(), place.span) {
            return Some(i);
        }
        i = i + 1;
    }
    None
}

/// Whether a name can be changed: every one of its places can. The error is that
/// of the first that cannot.
pub fn check_rename(places: &Vec<RenamePlace>) -> (r: Result<(), RenameError>)
    ensures
        match r {
            Ok(()) => forall|k: int|
                0 <= k < places@.len() ==> can_rename(places@, #[trigger] places@[k]),
            Err(error) => exists|k: int|
                0 <= k < places@.len() && is_refusal(places@, #[trigger] places@[k], error)
                    && !can_rename(places@, places@[k]) && forall|j: int|
                    0 <= j < k ==> can_rename(places@, #[trigger] places@[j]),
        },
{
    let mut k: usize = 0;
    while k < places.len()
        invariant
            k <= places@.len(),
            forall|j: int| 0 <= j < k ==> can_rename(places@, #[trigger] places@[j]),
        decreases places@.len() - k,
    {
        let place = &places[k];
        if !place.is_editable {
            let error = RenameError::External { path: place.path.clone() };
            proof {
                assert(is_refusal(places@, places@[k as int], error));
            }
            return Err(error);
        }
        if let Some(i) = first_left_out(places, place) {
            let error = RenameError::Shared {
                source: place.source.clone(),
                alias: place.aliases[i].clone(),
            };
            proof {
                assert(is_left_out(places@, *place, i as int));
                assert(is_refusal(places@, places@[k as int], error));
            }
            return Err(error);
        }
        k = k + 1;
    }
    Ok(())
}

/// A place where a name is changed: the path by which it was found, the file
/// behind it, the document that an editor knows it as, with the version of that if
/// it is open, and the range there.
#[derive(Debug)]
pub struct EditPlace {
    pub path: String,
    pub physical: String,
    pub uri_path: String,
    pub uri: Option<String>,
    pub version: Option<i32>,
    pub span: Span,
    pub range: Option<Range>,
}

/// The edits of a document.
#[derive(Debug)]
pub struct DocumentEdit {
    pub uri: String,
    pub version: Option<i32>,
    pub ranges: Vec<Range>,
}

/// Whether a place is the first with its range of its file. Others would change
/// the same text again.
pub open spec fn is_first(places: Seq<EditPlace>, k: int) -> bool {
    forall|j: int|
        0 <= j < k ==> !((#[trigger] places[j]).physical@ == places[k].physical@ && places[j].span
            == places[k].span)
}

/// Whether a place has what an edit needs.
pub open spec fn has_edit(places: Seq<EditPlace>, k: int) -> bool {
    is_first(places, k) ==> places[k].uri is Some && places[k].range is Some
}

/// The ranges to change in a document, in the first places.
pub open spec fn ranges_in(places: Seq<EditPlace>, uri: Seq<char>, n: int) -> Seq<Range>
    decreases n,
{
    if n <= 0 {
        seq![]
    } else {
        let rest = ranges_in(places, uri, n - 1);
        if is_first(places, n - 1) && places[n - 1].uri is Some && places[n - 1].uri->0@ == uri {
            rest.push(places[n - 1].range->0)
        } else {
            rest
        }
    }
}

/// The version of a document: that of its first place.
pub open spec fn version_in(places: Seq<EditPlace>, uri: Seq<char>, n: int) -> Option<i32>
    decreases n,
{
    if n <= 0 {
        None
    } else if ranges_in(places, uri, n - 1).len() > 0 {
        version_in(places, uri, n - 1)
    } else {
        places[n - 1].version
    }
}

/// The names of documents.
pub open spec fn uris(documents: Seq<DocumentEdit>) -> Seq<Seq<char>> {
    Seq::new(documents.len(), |i: int| documents[i].uri@)
}

/// Whether documents are those with edits in the first places: in order, and each
/// with its ranges.
pub open spec fn are_documents(places: Seq<EditPlace>, n: int, documents: Seq<DocumentEdit>) -> bool {
    &&& in_order(uris(documents))
    &&& forall|i: int| 0 <= i < documents.len() ==> is_document_edit(places, n, #[trigger] documents[i])
    &&& forall|uri: Seq<char>|
        #[trigger] ranges_in(places, uri, n).len() > 0 ==> uris(documents).contains(uri)
}

/// Whether a document has its ranges in the first places, and its version.
pub open spec fn is_document_edit(places: Seq<EditPlace>, n: int, document: DocumentEdit) -> bool {
    &&& document.ranges@ == ranges_in(places, document.uri@, n)
    &&& document.ranges@.len() > 0
    &&& document.version == version_in(places, document.uri@, n)
}

/// Whether a place is the first with its range of its file.
fn is_first_place(places: &Vec<EditPlace>, k: usize) -> (r: bool)
    requires
        k < places@.len(),
    ensures
        r == is_first(places@, k as int),
{
    let mut j: usize = 0;
    while j < k
        invariant
            j <= k < places@.len(),
            forall|i: int|
                0 <= i < j ==> !((#[trigger] places@[i]).physical@ == places@[k as int].physical@
                    && places@[i].span == places@[k as int].span),
        decreases k - j,
    {
        if same(places[j].physical.as_str(), places[k].physical.as_str()) && places[j].span
            == places[k].span {
            proof {
                assert(places@[j as int].physical@ == places@[k as int].physical@);
            }
            return false;
        }
        j = j + 1;
    }
    true
}

/// The place of a document in a list in order: where it is, or where it belongs.
fn find_document(documents: &Vec<DocumentEdit>, uri: &str) -> (r: (usize, bool))
    requires
        in_order(uris(documents@)),
    ensures
        r.0 <= documents@.len(),
        r.1 ==> r.0 < documents@.len() && documents@[r.0 as int].uri@ == uri@,
        !r.1 ==> !uris(documents@).contains(uri@),
        !r.1 && r.0 > 0 ==> name_before(documents@[r.0 - 1].uri@, uri@),
        !r.1 && r.0 < documents@.len() ==> name_before(uri@, documents@[r.0 as int].uri@),
{
    let ghost all = uris(documents@);
    let mut i: usize = 0;
    while i < documents.len() && is_before(documents[i].uri.as_str(), uri)
        invariant
            i <= documents@.len(),
            all == uris(documents@),
            in_order(all),
            forall|j: int| 0 <= j < i ==> name_before(#[trigger] all[j], uri@),
        decreases documents@.len() - i,
    {
        proof {
            assert(all[i as int] == documents@[i as int].uri@);
        }
        i = i + 1;
    }
    proof {
        if i > 0 {
            assert(name_before(all[i - 1], uri@));
        }
    }
    if i < documents.len() && same(documents[i].uri.as_str(), uri) {
        return (i, true);
    }
    proof {
        if i < documents@.len() {
            let other = documents@[i as int].uri@;
            assert(all[i as int] == other);
            different_names(other, uri@);
        }
        assert forall|j: int| 0 <= j < all.len() implies #[trigger] all[j] != uri@ by {
            if j < i {
                assert(name_before(all[j], uri@));
                not_before_itself(uri@);
            } else if j > i {
                first_comes_first(all, i as int, j);
                comes_through(uri@, all[i as int], all[j]);
                not_before_itself(uri@);
            }
        }
        if all.contains(uri@) {
            let j = choose|j: int| 0 <= j < all.len() && all[j] == uri@;
            assert(all[j] != uri@);
        }
    }
    (i, false)
}

/// Of two names one comes first.
pub proof fn different_names(a: Seq<char>, b: Seq<char>)
    requires
        a != b,
        !name_before(a, b),
    ensures
        name_before(b, a),
{
    if vstd::utf8::encode_utf8(a) == vstd::utf8::encode_utf8(b) {
        vstd::utf8::encode_utf8_decode_utf8(a);
        vstd::utf8::encode_utf8_decode_utf8(b);
    }
    crate::batches::one_comes_first(
        vstd::utf8::encode_utf8(a),
        vstd::utf8::encode_utf8(b),
    );
}

/// No name comes before itself.
proof fn not_before_itself(a: Seq<char>)
    ensures
        !name_before(a, a),
{
    bytes_not_before(vstd::utf8::encode_utf8(a));
}

proof fn bytes_not_before(a: Seq<u8>)
    ensures
        !crate::batches::comes_before(a, a),
    decreases a.len(),
{
    if a.len() > 0 {
        bytes_not_before(a.drop_first());
    }
}

/// What comes before a name comes before those behind it.
proof fn comes_through(a: Seq<char>, b: Seq<char>, c: Seq<char>)
    requires
        name_before(a, b),
        name_before(b, c),
    ensures
        name_before(a, c),
{
    bytes_come_through(
        vstd::utf8::encode_utf8(a),
        vstd::utf8::encode_utf8(b),
        vstd::utf8::encode_utf8(c),
    );
}

proof fn bytes_come_through(a: Seq<u8>, b: Seq<u8>, c: Seq<u8>)
    requires
        crate::batches::comes_before(a, b),
        crate::batches::comes_before(b, c),
    ensures
        crate::batches::comes_before(a, c),
    decreases a.len(),
{
    if a.len() > 0 && b.len() > 0 && c.len() > 0 && a[0] == b[0] && b[0] == c[0] {
        bytes_come_through(a.drop_first(), b.drop_first(), c.drop_first());
    }
}

/// In a list in order what stands first comes first.
proof fn first_comes_first(names: Seq<Seq<char>>, i: int, j: int)
    requires
        in_order(names),
        0 <= i < j < names.len(),
    ensures
        name_before(names[i], names[j]),
    decreases j - i,
{
    assert(is_next(names, j - 1));
    if i < j - 1 {
        first_comes_first(names, i, j - 1);
        comes_through(names[i], names[j - 1], names[j]);
    }
}

/// Whether an error says what the first place lacks that has no edit.
pub open spec fn is_lack(places: Seq<EditPlace>, error: RenameError) -> bool {
    exists|k: int|
        0 <= k < places.len() && !#[trigger] has_edit(places, k) && (forall|j: int|
            0 <= j < k ==> #[trigger] has_edit(places, j)) && match error {
            RenameError::NoUri { path } => places[k].uri is None && path@ == places[k].uri_path@,
            RenameError::NoRange { path } => places[k].uri is Some && places[k].range is None
                && path@ == places[k].path@,
            _ => false,
        }
}

/// The documents with edits in places, or the error of the first place that lacks
/// what an edit needs.
pub fn document_edits(places: &Vec<EditPlace>) -> (r: Result<Vec<DocumentEdit>, RenameError>)
    ensures
        match r {
            Ok(documents) => {
                &&& forall|k: int| 0 <= k < places@.len() ==> #[trigger] has_edit(places@, k)
                &&& are_documents(places@, places@.len() as int, documents@)
            },
            Err(error) => is_lack(places@, error),
        },
{
    let mut documents: Vec<DocumentEdit> = Vec::new();
    let mut k: usize = 0;
    while k < places.len()
        invariant
            k <= places@.len(),
            forall|j: int| 0 <= j < k ==> #[trigger] has_edit(places@, j),
            are_documents(places@, k as int, documents@),
        decreases places@.len() - k,
    {
        let place = &places[k];
        if is_first_place(places, k) {
            let uri = match &place.uri {
                Some(uri) => uri,
                None => {
                    proof {
                        assert(!has_edit(places@, k as int));
                    }
                    return Err(RenameError::NoUri { path: place.uri_path.clone() });
                },
            };
            let range = match place.range {
                Some(range) => range,
                None => {
                    proof {
                        assert(!has_edit(places@, k as int));
                    }
                    return Err(RenameError::NoRange { path: place.path.clone() });
                },
            };
            let ghost before = documents@;
            let (at, found) = find_document(&documents, uri.as_str());
            if found {
                let mut document = documents.remove(at);
                document.ranges.push(range);
                documents.insert(at, document);
                proof {
                    edit_appended(places@, k as int, before, documents@, at as int);
                }
            } else {
                let mut ranges: Vec<Range> = Vec::new();
                ranges.push(range);
                documents.insert(
                    at,
                    DocumentEdit { uri: uri.clone(), version: place.version, ranges },
                );
                proof {
                    assert(ranges@ =~= seq![range]);
                    edit_inserted(places@, k as int, before, documents@, at as int);
                }
            }
        } else {
            proof {
                same_ranges(places@, k as int);
            }
        }
        k = k + 1;
    }
    Ok(documents)
}

/// A place that is not the first with its range adds nothing.
proof fn same_ranges(places: Seq<EditPlace>, k: int)
    requires
        0 <= k < places.len(),
        !is_first(places, k),
    ensures
        has_edit(places, k),
        forall|documents: Seq<DocumentEdit>|
            are_documents(places, k, documents) ==> #[trigger] are_documents(
                places,
                k + 1,
                documents,
            ),
{
    assert forall|documents: Seq<DocumentEdit>|
        are_documents(places, k, documents) implies #[trigger] are_documents(
        places,
        k + 1,
        documents,
    ) by {
        assert forall|uri: Seq<char>| #[trigger]
            ranges_in(places, uri, k + 1) == ranges_in(places, uri, k) by {}
        assert forall|i: int| 0 <= i < documents.len() implies is_document_edit(
            places,
            k + 1,
            #[trigger] documents[i],
        ) by {
            assert(is_document_edit(places, k, documents[i]));
        }
        assert forall|uri: Seq<char>|
            #[trigger] ranges_in(places, uri, k + 1).len() > 0 implies uris(documents).contains(
            uri,
        ) by {
            assert(ranges_in(places, uri, k).len() > 0);
        }
    }
}

/// Another document has the ranges that it had.
proof fn other_ranges(places: Seq<EditPlace>, k: int, uri: Seq<char>)
    requires
        0 <= k < places.len(),
        places[k].uri is Some,
        places[k].uri->0@ != uri,
    ensures
        ranges_in(places, uri, k + 1) == ranges_in(places, uri, k),
        ranges_in(places, uri, k).len() > 0 ==> version_in(places, uri, k + 1) == version_in(
            places,
            uri,
            k,
        ),
{
}

/// An edit is added to its document alone.
proof fn edit_appended(
    places: Seq<EditPlace>,
    k: int,
    before: Seq<DocumentEdit>,
    after: Seq<DocumentEdit>,
    at: int,
)
    requires
        0 <= k < places.len(),
        is_first(places, k),
        places[k].uri is Some,
        places[k].range is Some,
        are_documents(places, k, before),
        0 <= at < before.len(),
        after =~= before.update(at, after[at]),
        before[at].uri@ == places[k].uri->0@,
        after[at].uri@ == before[at].uri@,
        after[at].version == before[at].version,
        after[at].ranges@ == before[at].ranges@.push(places[k].range->0),
    ensures
        are_documents(places, k + 1, after),
{
    let uri = places[k].uri->0@;
    let a = uris(before);
    assert(uris(after) =~= a);
    assert forall|i: int| 0 <= i < after.len() implies is_document_edit(
        places,
        k + 1,
        #[trigger] after[i],
    ) by {
        assert(is_document_edit(places, k, before[i]));
        if i != at {
            assert(after[i] == before[i]);
            assert(a[i] == before[i].uri@ && a[at] == uri);
            if i < at {
                first_comes_first(a, i, at);
            } else {
                first_comes_first(a, at, i);
            }
            not_before_itself(uri);
            other_ranges(places, k, before[i].uri@);
        }
    }
    assert forall|other: Seq<char>|
        #[trigger] ranges_in(places, other, k + 1).len() > 0 implies a.contains(other) by {
        if other == uri {
            assert(a[at] == uri);
        } else {
            other_ranges(places, k, other);
            assert(ranges_in(places, other, k).len() > 0);
        }
    }
}

/// Names in order stay so when one is put where it belongs.
proof fn inserted_in_order(names: Seq<Seq<char>>, at: int, name: Seq<char>)
    requires
        in_order(names),
        0 <= at <= names.len(),
        at > 0 ==> name_before(names[at - 1], name),
        at < names.len() ==> name_before(name, names[at]),
    ensures
        in_order(names.insert(at, name)),
{
    let b = names.insert(at, name);
    assert forall|i: int| 0 <= i < b.len() - 1 implies #[trigger] is_next(b, i) by {
        if i + 1 < at {
            assert(is_next(names, i));
        } else if i > at {
            assert(is_next(names, i - 1));
        }
    }
}

/// An edit is added with its document.
proof fn edit_inserted(
    places: Seq<EditPlace>,
    k: int,
    before: Seq<DocumentEdit>,
    after: Seq<DocumentEdit>,
    at: int,
)
    requires
        0 <= k < places.len(),
        is_first(places, k),
        places[k].uri is Some,
        places[k].range is Some,
        are_documents(places, k, before),
        0 <= at <= before.len(),
        after.len() == before.len() + 1,
        after =~= before.insert(at, after[at]),
        after[at].uri@ == places[k].uri->0@,
        !uris(before).contains(after[at].uri@),
        after[at].version == places[k].version,
        after[at].ranges@ == seq![places[k].range->0],
        at > 0 ==> name_before(before[at - 1].uri@, after[at].uri@),
        at < before.len() ==> name_before(after[at].uri@, before[at].uri@),
    ensures
        are_documents(places, k + 1, after),
{
    let uri = places[k].uri->0@;
    let a = uris(before);
    let b = uris(after);
    assert(b =~= a.insert(at, uri));
    inserted_in_order(a, at, uri);
    document_begun(places, k, before, after[at]);
    assert forall|i: int| 0 <= i < after.len() implies is_document_edit(
        places,
        k + 1,
        #[trigger] after[i],
    ) by {
        if i < at {
            assert(after[i] == before[i]);
            document_kept(places, k, before, i);
        } else if i > at {
            assert(after[i] == before[i - 1]);
            document_kept(places, k, before, i - 1);
        }
    }
    assert forall|other: Seq<char>|
        #[trigger] ranges_in(places, other, k + 1).len() > 0 implies b.contains(other) by {
        if other == uri {
            assert(b[at] == uri);
        } else {
            other_ranges(places, k, other);
            assert(ranges_in(places, other, k).len() > 0);
            inserted_holds(a, at, uri, other);
        }
    }
}

/// A name that was in a list is in it when another is put there.
proof fn inserted_holds(names: Seq<Seq<char>>, at: int, name: Seq<char>, other: Seq<char>)
    requires
        0 <= at <= names.len(),
        names.contains(other),
    ensures
        names.insert(at, name).contains(other),
{
    let j = choose|j: int| 0 <= j < names.len() && names[j] == other;
    let i = if j < at {
        j
    } else {
        j + 1
    };
    assert(names.insert(at, name)[i] == other);
}

/// A document that has no edit yet begins with its first.
proof fn document_begun(
    places: Seq<EditPlace>,
    k: int,
    before: Seq<DocumentEdit>,
    document: DocumentEdit,
)
    requires
        0 <= k < places.len(),
        is_first(places, k),
        places[k].uri is Some,
        places[k].range is Some,
        are_documents(places, k, before),
        document.uri@ == places[k].uri->0@,
        !uris(before).contains(document.uri@),
        document.version == places[k].version,
        document.ranges@ == seq![places[k].range->0],
    ensures
        is_document_edit(places, k + 1, document),
{
    let uri = document.uri@;
    if ranges_in(places, uri, k).len() > 0 {
        assert(uris(before).contains(uri));
    }
    assert(document.ranges@ =~= ranges_in(places, uri, k + 1));
}

/// Another document stays as it is.
proof fn document_kept(places: Seq<EditPlace>, k: int, before: Seq<DocumentEdit>, j: int)
    requires
        0 <= k < places.len(),
        places[k].uri is Some,
        are_documents(places, k, before),
        !uris(before).contains(places[k].uri->0@),
        0 <= j < before.len(),
    ensures
        is_document_edit(places, k + 1, before[j]),
{
    let a = uris(before);
    assert(is_document_edit(places, k, before[j]));
    assert(a[j] == before[j].uri@);
    assert(a.contains(a[j]));
    other_ranges(places, k, before[j].uri@);
}

/// A change of a text: what stands in a range is replaced.
#[derive(Debug)]
pub struct TextEdit {
    pub range: Range,
    pub new_text: String,
}

/// The changes of a document, with its version if it is open.
#[derive(Debug)]
pub struct TextDocumentEdit {
    pub uri: String,
    pub version: Option<i32>,
    pub edits: Vec<TextEdit>,
}

/// The changes of documents, in the form that a client takes: with versions or
/// without.
#[derive(Debug)]
pub enum WorkspaceEdit {
    DocumentChanges(Vec<TextDocumentEdit>),
    Changes(Vec<TextDocumentEdit>),
}

/// Whether a document is changed to hold a name in each of its ranges.
pub open spec fn holds_name(document: DocumentEdit, name: Seq<char>, r: TextDocumentEdit) -> bool {
    &&& r.uri@ == document.uri@
    &&& r.version == document.version
    &&& r.edits@.len() == document.ranges@.len()
    &&& forall|k: int|
        0 <= k < r.edits@.len() ==> (#[trigger] r.edits@[k]).range == document.ranges@[k]
            && r.edits@[k].new_text@ == name
}

/// Whether documents are changed to hold a name, one by one.
pub open spec fn hold_name(
    documents: Seq<DocumentEdit>,
    name: Seq<char>,
    r: Seq<TextDocumentEdit>,
) -> bool {
    &&& r.len() == documents.len()
    &&& forall|i: int| 0 <= i < r.len() ==> holds_name(documents[i], name, #[trigger] r[i])
}

/// Whether changes are those of a name in some places: in each document every range
/// once, with the new name.
pub open spec fn are_changes(
    places: Seq<EditPlace>,
    name: Seq<char>,
    r: Seq<TextDocumentEdit>,
) -> bool {
    exists|documents: Seq<DocumentEdit>|
        are_documents(places, places.len() as int, documents) && #[trigger] hold_name(
            documents,
            name,
            r,
        )
}

/// The changes by which documents hold a name in each of their ranges.
fn with_name(documents: &Vec<DocumentEdit>, name: &str) -> (r: Vec<TextDocumentEdit>)
    ensures
        hold_name(documents@, name@, r@),
{
    let mut r: Vec<TextDocumentEdit> = Vec::new();
    let mut i: usize = 0;
    while i < documents.len()
        invariant
            i <= documents@.len(),
            r@.len() == i,
            forall|j: int| 0 <= j < i ==> holds_name(documents@[j], name@, #[trigger] r@[j]),
        decreases documents@.len() - i,
    {
        let document = &documents[i];
        let mut edits: Vec<TextEdit> = Vec::new();
        let mut k: usize = 0;
        while k < document.ranges.len()
            invariant
                k <= document.ranges@.len(),
                edits@.len() == k,
                forall|j: int|
                    0 <= j < k ==> (#[trigger] edits@[j]).range == document.ranges@[j]
                        && edits@[j].new_text@ == name@,
            decreases document.ranges@.len() - k,
        {
            edits.push(TextEdit { range: document.ranges[k], new_text: name.to_owned() });
            k = k + 1;
        }
        r.push(
            TextDocumentEdit { uri: document.uri.clone(), version: document.version, edits },
        );
        i = i + 1;
    }
    r
}

/// The changes that give a name to what stands in some places. A client that cannot
/// take versions with edits cannot change documents that are open.
pub fn rename(places: &Vec<EditPlace>, new_name: &str, document_changes: bool) -> (r: Result<
    WorkspaceEdit,
    RenameError,
>)
    ensures
        match r {
            Ok(WorkspaceEdit::DocumentChanges(documents)) => {
                &&& document_changes
                &&& forall|k: int| 0 <= k < places@.len() ==> #[trigger] has_edit(places@, k)
                &&& are_changes(places@, new_name@, documents@)
            },
            Ok(WorkspaceEdit::Changes(documents)) => {
                &&& !document_changes
                &&& forall|k: int| 0 <= k < places@.len() ==> #[trigger] has_edit(places@, k)
                &&& are_changes(places@, new_name@, documents@)
                &&& forall|i: int|
                    0 <= i < documents@.len() ==> (#[trigger] documents@[i]).version is None
            },
            Err(RenameError::NeedsVersions) => {
                &&& forall|k: int| 0 <= k < places@.len() ==> #[trigger] has_edit(places@, k)
                &&& !document_changes
                &&& exists|uri: Seq<char>|
                    #[trigger] ranges_in(places@, uri, places@.len() as int).len() > 0
                        && version_in(places@, uri, places@.len() as int) is Some
            },
            Err(error) => is_lack(places@, error),
        },
{
    let documents = match document_edits(places) {
        Ok(documents) => documents,
        Err(error) => {
            return Err(error);
        },
    };
    let edits = with_name(&documents, new_name);
    proof {
        assert(hold_name(documents@, new_name@, edits@));
    }
    if document_changes {
        return Ok(WorkspaceEdit::DocumentChanges(edits));
    }
    let mut i: usize = 0;
    while i < documents.len()
        invariant
            i <= documents@.len(),
            are_documents(places@, places@.len() as int, documents@),
            hold_name(documents@, new_name@, edits@),
            forall|k: int| 0 <= k < places@.len() ==> #[trigger] has_edit(places@, k),
            !document_changes,
            forall|j: int| 0 <= j < i ==> (#[trigger] edits@[j]).version is None,
        decreases documents@.len() - i,
    {
        proof {
            assert(holds_name(documents@[i as int], new_name@, edits@[i as int]));
        }
        if documents[i].version.is_some() {
            proof {
                let document = documents@[i as int];
                assert(is_document_edit(places@, places@.len() as int, document));
                assert(ranges_in(places@, document.uri@, places@.len() as int).len() > 0);
            }
            return Err(RenameError::NeedsVersions);
        }
        i = i + 1;
    }
    Ok(WorkspaceEdit::Changes(edits))
}

} // verus!
