//! What holds of checks, of the files that are looked through for a name, and of the
//! edits that change one.

use vstd::prelude::*;

use crate::check::{
    are_counts, count_of, files_after, is_listed, shown_files, summary_of, total_of, unresolved_in,
    waits, with_items, without_dot, CheckedFile, Counts, LoadResolution,
};
use crate::batches::name_before;
use crate::paths::path_parts;
use crate::convert::Range;
use crate::protocol::Severity;
use crate::references::{
    chosen, gathered, is_source, looked_into, parts_before, path_before, visit_of, Candidate,
    SourceFile, Visit, WalkEntry,
};
use crate::rename::{
    are_changes, are_documents, can_rename, has_edit, hold_name, is_first, is_left_out, ranges_in,
    uris, DocumentEdit, EditPlace, RenamePlace, TextDocumentEdit,
};
use crate::syntax::Span;
use crate::source_kind::{is_visited, kind_of};
use crate::text::has_part;

verus! {

/// A check fails exactly if there is an error, or a load that leads nowhere. It says
/// nothing exactly if it passes without a warning.
pub proof fn a_check_fails_for_errors(counts: Counts, unresolved: bool)
    ensures
        summary_of(counts, unresolved).0 <==> counts.errors > 0 || unresolved,
        summary_of(counts, unresolved).1 is None <==> counts.errors == 0 && !unresolved
            && counts.warnings == 0,
{
}

proof fn some_of_a_kind(severities: Seq<Severity>, kind: Severity, n: int)
    requires
        0 <= n <= severities.len(),
    ensures
        count_of(severities, kind, n) > 0 <==> severities.take(n).contains(kind),
    decreases n,
{
    if n > 0 {
        some_of_a_kind(severities, kind, n - 1);
        let now = severities.take(n);
        let before = severities.take(n - 1);
        assert(now[n - 1] == severities[n - 1]);
        if before.contains(kind) {
            let k = choose|k: int| 0 <= k < before.len() && before[k] == kind;
            assert(now[k] == kind);
        }
        if now.contains(kind) && severities[n - 1] != kind {
            let k = choose|k: int| 0 <= k < now.len() && now[k] == kind;
            assert(before[k] == kind);
        }
    }
}

/// Whether a file counts, and has a diagnostic of a kind.
pub open spec fn has_kind(
    files: Seq<CheckedFile>,
    left_out: Seq<CheckedFile>,
    kind: Severity,
    k: int,
) -> bool {
    files[k].severities@.contains(kind) && !is_listed(left_out, files[k].file)
}

proof fn some_file_has_kind(
    files: Seq<CheckedFile>,
    left_out: Seq<CheckedFile>,
    kind: Severity,
    n: int,
)
    requires
        0 <= n <= files.len(),
    ensures
        total_of(files, left_out, kind, n) > 0 <==> exists|k: int|
            0 <= k < n && #[trigger] has_kind(files, left_out, kind, k),
    decreases n,
{
    if n > 0 {
        some_file_has_kind(files, left_out, kind, n - 1);
        let list = files[n - 1].severities@;
        some_of_a_kind(list, kind, list.len() as int);
        assert(list.take(list.len() as int) =~= list);
        if has_kind(files, left_out, kind, n - 1) {
            assert(total_of(files, left_out, kind, n) > 0);
        }
    }
}

/// There are errors exactly if there were some before or a file that counts has an
/// error, a fatal one or another. There are warnings exactly if there were some before
/// or a file that counts has one.
pub proof fn errors_are_counted(
    start: Counts,
    files: Seq<CheckedFile>,
    left_out: Seq<CheckedFile>,
    r: Counts,
)
    requires
        are_counts(start, files, left_out, files.len() as int, r),
    ensures
        r.errors > 0 <==> start.errors > 0 || (exists|k: int|
            0 <= k < files.len() && #[trigger] has_kind(files, left_out, Severity::Error, k)) || (
        exists|k: int|
            0 <= k < files.len() && #[trigger] has_kind(files, left_out, Severity::Fatal, k)),
        r.warnings > 0 <==> start.warnings > 0 || exists|k: int|
            0 <= k < files.len() && #[trigger] has_kind(files, left_out, Severity::Warning, k),
        r.infos > 0 <==> start.infos > 0 || exists|k: int|
            0 <= k < files.len() && #[trigger] has_kind(files, left_out, Severity::Info, k),
{
    let n = files.len() as int;
    some_file_has_kind(files, left_out, Severity::Error, n);
    some_file_has_kind(files, left_out, Severity::Fatal, n);
    some_file_has_kind(files, left_out, Severity::Warning, n);
    some_file_has_kind(files, left_out, Severity::Info, n);
}

/// A file is shown exactly if it was checked and not validated.
pub proof fn files_are_shown_unless_validated(
    files: Seq<CheckedFile>,
    validated: Seq<CheckedFile>,
    n: int,
    file: usize,
)
    requires
        0 <= n <= files.len(),
    ensures
        shown_files(files, validated, n).contains(file) <==> !is_listed(validated, file) && exists|
            k: int,
        |
            0 <= k < n && (#[trigger] files[k]).file == file,
    decreases n,
{
    if n > 0 {
        files_are_shown_unless_validated(files, validated, n - 1, file);
        let now = shown_files(files, validated, n);
        let before = shown_files(files, validated, n - 1);
        if !is_listed(validated, files[n - 1].file) {
            assert(now[now.len() - 1] == files[n - 1].file);
            if before.contains(file) {
                let k = choose|k: int| 0 <= k < before.len() && before[k] == file;
                assert(now[k] == file);
            }
            if now.contains(file) && file != files[n - 1].file {
                let k = choose|k: int| 0 <= k < now.len() && now[k] == file;
                assert(before[k] == file);
            }
        }
    }
}

/// Behind a visit exactly the files are found that were found before, and those that
/// the loads lead to; none is found twice.
pub proof fn a_visit_finds_what_is_loaded(
    files: Seq<usize>,
    loads: Seq<LoadResolution>,
    n: int,
    file: usize,
)
    requires
        0 <= n <= loads.len(),
        files.no_duplicates(),
    ensures
        files_after(files, loads, n).contains(file) <==> files.contains(file) || exists|k: int|
            0 <= k < n && #[trigger] loads[k] == LoadResolution::Resolved(file),
        files_after(files, loads, n).no_duplicates(),
    decreases n,
{
    if n > 0 {
        a_visit_finds_what_is_loaded(files, loads, n - 1, file);
        let now = files_after(files, loads, n);
        let before = files_after(files, loads, n - 1);
        if let LoadResolution::Resolved(found) = loads[n - 1] {
            if !before.contains(found) {
                assert(now[now.len() - 1] == found);
                if before.contains(file) {
                    let k = choose|k: int| 0 <= k < before.len() && before[k] == file;
                    assert(now[k] == file);
                }
                if now.contains(file) && file != found {
                    let k = choose|k: int| 0 <= k < now.len() && now[k] == file;
                    assert(before[k] == file);
                }
            } else if file == found {
                assert(loads[n - 1] == LoadResolution::Resolved(file));
            }
        }
    }
}

/// The loads of a file that lead nowhere are those that are not resolved.
pub proof fn what_is_not_resolved_is_noted(loads: Seq<LoadResolution>, n: int, k: int)
    requires
        0 <= n <= loads.len() <= usize::MAX,
        0 <= k < loads.len(),
    ensures
        unresolved_in(loads, n).contains(k as usize) <==> k < n && !(loads[k] is Resolved),
    decreases n,
{
    if n > 0 {
        what_is_not_resolved_is_noted(loads, n - 1, k);
        let now = unresolved_in(loads, n);
        let before = unresolved_in(loads, n - 1);
        if !(loads[n - 1] is Resolved) {
            assert(now[now.len() - 1] == (n - 1) as usize);
            if before.contains(k as usize) {
                let j = choose|j: int| 0 <= j < before.len() && before[j] == k as usize;
                assert(now[j] == k as usize);
            }
            if now.contains(k as usize) && k != n - 1 {
                let j = choose|j: int| 0 <= j < now.len() && now[j] == k as usize;
                assert(before[j] == k as usize);
            }
        }
    }
}

/// An entry whose name starts with a dot is passed, but for the directory itself; so
/// is one that is ignored by name.
pub proof fn hidden_entries_are_passed(name: Seq<char>, ignored: Seq<String>)
    ensures
        is_visited(name, ignored) <==> (name.len() == 0 || name[0] != '.' || name.len() == 1)
            && !exists|i: int| 0 <= i < ignored.len() && (#[trigger] ignored[i])@ == name,
{
    reveal_strlit(".");
    if name.len() > 0 {
        assert(name.subrange(0, 1) =~= seq![name[0]]);
        assert("."@ =~= seq!['.']);
        assert(seq![name[0]][0] == name[0]);
        if name[0] == '.' && name.len() == 1 {
            assert(name =~= "."@);
        }
        if name.subrange(0, 1) == "."@ {
            assert(name.subrange(0, 1)[0] == '.');
        }
    }
}

/// A walk takes exactly the sources that are files and not hidden or ignored. It leaves
/// out directories that are hidden or ignored, and other repositories below its start.
pub proof fn a_walk_takes_sources(
    entry: WalkEntry,
    ignored: Seq<String>,
    workspace: Seq<char>,
)
    requires
        !(entry.is_dir && entry.is_file),
    ensures
        visit_of(entry, ignored, workspace) == Visit::Take <==> entry.is_file && is_visited(
            entry.name@,
            ignored,
        ) && is_source(workspace, entry.path@),
        visit_of(entry, ignored, workspace) == Visit::Leave <==> entry.is_dir && (!is_visited(
            entry.name@,
            ignored,
        ) || (entry.depth > 0 && entry.is_repository_root)),
{
}

/// A file is looked into exactly if it is one of Bazel's, or has an extension of
/// Starlark.
pub proof fn sources_are_bazel_or_starlark(workspace: Seq<char>, path: Seq<char>)
    ensures
        is_source(workspace, path) <==> (kind_of(workspace, path) matches Some((_, Some(_)))) || (
        kind_of(workspace, path) matches Some((_, None)) && (crate::paths::extension_of(path)
            == Some("star"@) || crate::paths::extension_of(path) == Some("sky"@))),
        looked_into(workspace, path) is Some <==> is_source(workspace, path),
        looked_into(workspace, path) matches Some((dialect, _)) ==> kind_of(workspace, path)
            matches Some((known, _)) && known == dialect,
{
    crate::file_laws::bazel_files_have_a_context(workspace, path);
}

/// The files that may hold a name are those that are known, and the sources among the
/// candidates whose text holds the name or a backslash.
pub proof fn candidates_hold_the_name(
    known: Seq<SourceFile>,
    candidates: Seq<Candidate>,
    workspace: Seq<char>,
    name: Seq<char>,
    n: int,
    file: SourceFile,
)
    requires
        0 <= n <= candidates.len(),
    ensures
        gathered(known, candidates, workspace, name, n).contains(file) <==> known.contains(file)
            || exists|k: int| 0 <= k < n && #[trigger] may_be(candidates[k], workspace, name, file),
    decreases n,
{
    if n > 0 {
        candidates_hold_the_name(known, candidates, workspace, name, n - 1, file);
        let now = gathered(known, candidates, workspace, name, n);
        let before = gathered(known, candidates, workspace, name, n - 1);
        let c = candidates[n - 1];
        assert(may_be(c, workspace, name, file) <==> chosen(c, workspace, name) == Some(file));
        if let Some(found) = chosen(c, workspace, name) {
            assert(now[now.len() - 1] == found);
            if before.contains(file) {
                let k = choose|k: int| 0 <= k < before.len() && before[k] == file;
                assert(now[k] == file);
            }
            if now.contains(file) && file != found {
                let k = choose|k: int| 0 <= k < now.len() && now[k] == file;
                assert(before[k] == file);
            }
        }
    }
}

/// Whether a candidate is a file in which a name may stand: its path is that of a
/// source, and its text holds the name or a backslash. A file that is open is taken as
/// it was opened.
pub open spec fn may_be(
    c: Candidate,
    workspace: Seq<char>,
    name: Seq<char>,
    file: SourceFile,
) -> bool {
    &&& is_source(workspace, c.path@)
    &&& c.contents matches Some(text) && (has_part(text@, name) || has_part(text@, "\\"@))
    &&& file.path == c.source_path
    &&& match c.open {
        Some(open) => file.file == open,
        None => looked_into(workspace, c.path@) == Some((file.file.dialect, file.file.info))
            && file.file.source == c.source,
    }
}

/// Every place of a name is changed: the first place with the same range of the same
/// file gives an edit in its document, and the places behind it give none.
pub proof fn every_place_is_changed_once(places: Seq<EditPlace>, uri: Seq<char>, range: Range)
    requires
        forall|k: int| 0 <= k < places.len() ==> #[trigger] has_edit(places, k),
    ensures
        ranges_in(places, uri, places.len() as int).contains(range) <==> exists|k: int| #[trigger]
            gives_edit(places, uri, range, k),
{
    ranges_are_given(places, uri, range, places.len() as int);
}

/// Whether a place is the first with its range of its file, and gives an edit.
pub open spec fn gives_edit(places: Seq<EditPlace>, uri: Seq<char>, range: Range, k: int) -> bool {
    &&& 0 <= k < places.len()
    &&& places[k].uri matches Some(own) && own@ == uri
    &&& places[k].range == Some(range)
    &&& forall|j: int|
        0 <= j < k ==> (#[trigger] places[j]).physical@ != places[k].physical@ || places[j].span
            != places[k].span
}

proof fn ranges_are_given(places: Seq<EditPlace>, uri: Seq<char>, range: Range, n: int)
    requires
        0 <= n <= places.len(),
        forall|k: int| 0 <= k < places.len() ==> #[trigger] has_edit(places, k),
    ensures
        ranges_in(places, uri, n).contains(range) <==> exists|k: int|
            k < n && #[trigger] gives_edit(places, uri, range, k),
    decreases n,
{
    if n > 0 {
        ranges_are_given(places, uri, range, n - 1);
        let now = ranges_in(places, uri, n);
        let before = ranges_in(places, uri, n - 1);
        let k = n - 1;
        assert(has_edit(places, k));
        let added = is_first(places, k) && places[k].uri is Some && places[k].uri->0@ == uri;
        assert(gives_edit(places, uri, range, k) <==> added && places[k].range == Some(range));
        if added {
            assert(now[now.len() - 1] == places[k].range->0);
            if before.contains(range) {
                let j = choose|j: int| 0 <= j < before.len() && before[j] == range;
                assert(now[j] == range);
            }
            if now.contains(range) && places[k].range != Some(range) {
                let j = choose|j: int| 0 <= j < now.len() && now[j] == range;
                assert(before[j] == range);
            }
        }
    }
}

/// Every place has an edit with its range, its own or that of an earlier place with
/// the same text.
pub proof fn no_place_is_left(places: Seq<EditPlace>, k: int)
    requires
        0 <= k < places.len(),
    ensures
        exists|j: int|
            0 <= j <= k && #[trigger] is_first(places, j) && places[j].physical@
                == places[k].physical@ && places[j].span == places[k].span,
    decreases k,
{
    if is_first(places, k) {
    } else {
        let j = choose|j: int|
            0 <= j < k && (#[trigger] places[j]).physical@ == places[k].physical@
                && places[j].span == places[k].span;
        no_place_is_left(places, j);
        let i = choose|i: int|
            0 <= i <= j && #[trigger] is_first(places, i) && places[i].physical@
                == places[j].physical@ && places[i].span == places[j].span;
        assert(is_first(places, i));
    }
}

/// A place can be renamed exactly if its file may be edited, and under every other path
/// to the file the same range is renamed too.
pub proof fn renaming_changes_every_path_to_a_file(places: Seq<RenamePlace>, place: RenamePlace)
    ensures
        can_rename(places, place) <==> place.is_editable && forall|i: int|
            0 <= i < place.aliases@.len() ==> is_renamed(
                places,
                (#[trigger] place.aliases@[i])@,
                place.span,
            ),
{
    if place.is_editable {
        if forall|i: int|
            0 <= i < place.aliases@.len() ==> is_renamed(
                places,
                (#[trigger] place.aliases@[i])@,
                place.span,
            ) {
            assert forall|i: int| !#[trigger] is_left_out(places, place, i) by {
                if 0 <= i < place.aliases@.len() {
                    assert(is_renamed(places, place.aliases@[i]@, place.span));
                }
            }
        }
        if can_rename(places, place) {
            assert forall|i: int| 0 <= i < place.aliases@.len() implies is_renamed(
                places,
                (#[trigger] place.aliases@[i])@,
                place.span,
            ) by {
                assert(!is_left_out(places, place, i));
            }
        }
    }
}

/// Whether a range under a path is among the places that are renamed.
pub open spec fn is_renamed(places: Seq<RenamePlace>, path: Seq<char>, span: Span) -> bool {
    exists|k: int|
        0 <= k < places.len() && (#[trigger] places[k]).path@ == path && places[k].span == span
}

/// Every edit of a renaming puts the new name where the name stands, and every place
/// has such an edit in its document.
pub proof fn a_renaming_puts_the_new_name(
    places: Seq<EditPlace>,
    name: Seq<char>,
    r: Seq<TextDocumentEdit>,
    uri: Seq<char>,
    range: Range,
    k: int,
)
    requires
        forall|i: int| 0 <= i < places.len() ==> #[trigger] has_edit(places, i),
        are_changes(places, name, r),
        gives_edit(places, uri, range, k),
    ensures
        exists|i: int, j: int|
            0 <= i < r.len() && 0 <= j < r[i].edits@.len() && #[trigger] is_edit_of(
                r,
                i,
                j,
                uri,
                range,
                name,
            ),
{
    let n = places.len() as int;
    let documents = choose|documents: Seq<DocumentEdit>|
        are_documents(places, n, documents) && #[trigger] hold_name(documents, name, r);
    every_place_is_changed_once(places, uri, range);
    assert(ranges_in(places, uri, n).contains(range));
    let at = choose|at: int|
        0 <= at < ranges_in(places, uri, n).len() && ranges_in(places, uri, n)[at] == range;
    assert(uris(documents).contains(uri));
    let i = choose|i: int| 0 <= i < uris(documents).len() && uris(documents)[i] == uri;
    assert(crate::rename::is_document_edit(places, n, documents[i]));
    assert(crate::rename::holds_name(documents[i], name, r[i]));
    assert(is_edit_of(r, i, at, uri, range, name));
}

/// Whether an edit of a document puts a name in a range.
pub open spec fn is_edit_of(
    r: Seq<TextDocumentEdit>,
    i: int,
    j: int,
    uri: Seq<char>,
    range: Range,
    name: Seq<char>,
) -> bool {
    r[i].uri@ == uri && r[i].edits@[j].range == range && r[i].edits@[j].new_text@ == name
}

/// No edit of a renaming puts anything but the new name.
pub proof fn a_renaming_puts_nothing_else(
    places: Seq<EditPlace>,
    name: Seq<char>,
    r: Seq<TextDocumentEdit>,
    i: int,
    j: int,
)
    requires
        forall|i: int| 0 <= i < places.len() ==> #[trigger] has_edit(places, i),
        are_changes(places, name, r),
        0 <= i < r.len(),
        0 <= j < r[i].edits@.len(),
    ensures
        r[i].edits@[j].new_text@ == name,
        exists|k: int| #[trigger] gives_edit(places, r[i].uri@, r[i].edits@[j].range, k),
{
    let n = places.len() as int;
    let documents = choose|documents: Seq<DocumentEdit>|
        are_documents(places, n, documents) && #[trigger] hold_name(documents, name, r);
    assert(crate::rename::holds_name(documents[i], name, r[i]));
    assert(crate::rename::is_document_edit(places, n, documents[i]));
    let uri = r[i].uri@;
    let range = r[i].edits@[j].range;
    assert(ranges_in(places, uri, n)[j] == range);
    every_place_is_changed_once(places, uri, range);
}

proof fn before_is_strict(a: Seq<Seq<char>>, b: Seq<Seq<char>>)
    requires
        parts_before(a, b),
    ensures
        !parts_before(b, a),
        a != b,
    decreases a.len(),
{
    if b.len() > 0 && a.len() > 0 {
        if a[0] != b[0] {
            crate::check_laws::name_is_before(a[0], b[0]);
        } else {
            before_is_strict(a.drop_first(), b.drop_first());
        }
    }
}

/// Of two names only one comes before the other.
pub proof fn name_is_before(a: Seq<char>, b: Seq<char>)
    requires
        name_before(a, b),
    ensures
        !name_before(b, a),
{
    bytes_are_before(vstd::utf8::encode_utf8(a), vstd::utf8::encode_utf8(b));
}

proof fn bytes_are_before(a: Seq<u8>, b: Seq<u8>)
    requires
        crate::batches::comes_before(a, b),
    ensures
        !crate::batches::comes_before(b, a),
    decreases a.len(),
{
    if a.len() > 0 && b.len() > 0 && a[0] == b[0] {
        bytes_are_before(a.drop_first(), b.drop_first());
    }
}

/// A directory comes before what is below it, and of two paths only one comes first.
pub proof fn directories_come_first(a: Seq<char>, b: Seq<char>, rest: Seq<Seq<char>>)
    ensures
        path_parts(b) == path_parts(a) + rest && rest.len() > 0 ==> path_before(a, b),
        path_before(a, b) ==> !path_before(b, a),
{
    if path_before(a, b) {
        before_is_strict(path_parts(a), path_parts(b));
    }
    if path_parts(b) == path_parts(a) + rest && rest.len() > 0 {
        start_is_before(path_parts(a), rest);
    }
}

proof fn start_is_before(a: Seq<Seq<char>>, rest: Seq<Seq<char>>)
    requires
        rest.len() > 0,
    ensures
        parts_before(a, a + rest),
    decreases a.len(),
{
    if a.len() > 0 {
        start_is_before(a.drop_first(), rest);
        assert((a + rest).drop_first() =~= a.drop_first() + rest);
    }
}

/// An extension is taken with or without the dot before it.
pub proof fn extensions_may_have_a_dot(extension: Seq<char>)
    requires
        extension.len() == 0 || extension[0] != '.',
    ensures
        without_dot(extension) == extension,
        without_dot(seq!['.'] + extension) == extension,
{
    assert((seq!['.'] + extension).skip(1) =~= extension);
}

/// A file waits exactly if one of its loads does.
pub proof fn a_file_waits_for_its_loads(loads: Seq<LoadResolution>, n: int)
    ensures
        waits(loads, n) <==> exists|k: int| 0 <= k < n && #[trigger] loads[k]
            == LoadResolution::Pending,
{
    if waits(loads, n) {
        let k = choose|k: int| 0 <= k < n && #[trigger] loads[k] is Pending;
        assert(loads[k] == LoadResolution::Pending);
    }
    if exists|k: int| 0 <= k < n && #[trigger] loads[k] == LoadResolution::Pending {
        let k = choose|k: int| 0 <= k < n && #[trigger] loads[k] == LoadResolution::Pending;
        assert(loads[k] is Pending);
    }
}

/// Items that are added are there, each once, and none is lost.
pub proof fn added_items_are_there(items: Seq<usize>, more: Seq<usize>, n: int, x: usize)
    requires
        0 <= n <= more.len(),
        items.no_duplicates(),
    ensures
        with_items(items, more, n).contains(x) <==> items.contains(x) || more.take(n).contains(x),
        with_items(items, more, n).no_duplicates(),
    decreases n,
{
    if n > 0 {
        added_items_are_there(items, more, n - 1, x);
        let before = with_items(items, more, n - 1);
        let now = with_items(items, more, n);
        let item = more[n - 1];
        let taken = more.take(n);
        let fewer = more.take(n - 1);
        assert(taken[n - 1] == item);
        if fewer.contains(x) {
            let k = choose|k: int| 0 <= k < fewer.len() && fewer[k] == x;
            assert(taken[k] == x);
        }
        if taken.contains(x) && x != item {
            let k = choose|k: int| 0 <= k < taken.len() && taken[k] == x;
            assert(fewer[k] == x);
        }
        if !before.contains(item) {
            assert(now[now.len() - 1] == item);
            if before.contains(x) {
                let k = choose|k: int| 0 <= k < before.len() && before[k] == x;
                assert(now[k] == x);
            }
            if now.contains(x) && x != item {
                let k = choose|k: int| 0 <= k < now.len() && now[k] == x;
                assert(before[k] == x);
            }
        }
    }
}

} // verus!
