//! The documents that are open in an editor, the paths that lead to one source,
//! and the revisions by which a change is noticed.

use vstd::prelude::*;

use crate::common::{Dialect, FileInfo};
use crate::name_map::{map_of, NameMap};
use crate::paths::{is_under, joined, parts_below, with_slashes};
use crate::text::{same, views};

verus! {

/// A document that is open in an editor.
#[derive(Debug)]
pub struct OpenDocument {
    pub path: String,
    pub contents: String,
    pub version: i32,
    pub dialect: Dialect,
    pub info: Option<FileInfo>,
    pub revision: u128,
}

/// What tells one state of a document from another.
#[derive(Clone, Copy, Debug, PartialEq, Eq, Structural)]
pub struct DocumentStamp {
    pub version: i32,
    pub revision: u128,
}

impl OpenDocument {
    pub open spec fn stamped(self) -> DocumentStamp {
        DocumentStamp { version: self.version, revision: self.revision }
    }

    pub fn stamp(&self) -> (r: DocumentStamp)
        ensures
            r == self.stamped(),
    {
        DocumentStamp { version: self.version, revision: self.revision }
    }
}

/// The source that a path leads to, the revision it had on disk, and the one
/// that it has here.
#[derive(Debug)]
pub struct SourceAlias {
    pub source: String,
    pub disk_revision: Option<u128>,
    pub revision: u128,
}

/// The paths that lead to sources. Different paths can share a source.
#[derive(Debug)]
pub struct SourceAliases {
    pub sources: NameMap<SourceAlias>,
    pub paths: NameMap<Vec<String>>,
    pub revision: u64,
}

/// A list of names without one of them.
fn without(names: &Vec<String>, name: &str) -> (r: Vec<String>)
    ensures
        forall|n: Seq<char>|
            #[trigger] views(r@).contains(n) <==> views(names@).contains(n) && n != name@,
{
    let mut r: Vec<String> = Vec::new();
    let mut i: usize = 0;
    while i < names.len()
        invariant
            i <= names@.len(),
            forall|n: Seq<char>|
                #[trigger] views(r@).contains(n) <==> views(names@).take(i as int).contains(n) && n
                    != name@,
        decreases names@.len() - i,
    {
        let ghost before = views(r@);
        if !same(names[i].as_str(), name) {
            r.push(names[i].clone());
        }
        proof {
            let all = views(names@);
            assert(all[i as int] == names@[i as int]@);
            one_more(all, i as int);
            assert forall|n: Seq<char>|
                #[trigger] views(r@).contains(n) <==> all.take(i + 1).contains(n) && n
                    != name@ by {
                assert(before.contains(n) <==> all.take(i as int).contains(n) && n != name@);
                if names@[i as int]@ != name@ {
                    assert(views(r@) =~= before.push(names@[i as int]@));
                    pushed(before, names@[i as int]@);
                } else {
                    assert(views(r@) =~= before);
                }
            }
        }
        i = i + 1;
    }
    proof {
        assert(views(names@).take(i as int) =~= views(names@));
    }
    r
}

/// One more of the first names is one more.
pub proof fn one_more(names: Seq<Seq<char>>, i: int)
    requires
        0 <= i < names.len(),
    ensures
        forall|n: Seq<char>| #[trigger]
            names.take(i + 1).contains(n) <==> names.take(i).contains(n) || n == names[i],
{
    assert(names.take(i + 1) =~= names.take(i).push(names[i]));
    pushed(names.take(i), names[i]);
}

/// A list with a name at its end holds that name, and what it held.
pub proof fn pushed(names: Seq<Seq<char>>, name: Seq<char>)
    ensures
        forall|n: Seq<char>| #[trigger]
            names.push(name).contains(n) <==> names.contains(n) || n == name,
{
    let more = names.push(name);
    assert forall|n: Seq<char>| #[trigger] more.contains(n) <==> names.contains(n) || n == name by {
        if more.contains(n) {
            let k = choose|k: int| 0 <= k < more.len() && more[k] == n;
            if k < names.len() {
                assert(names[k] == n);
            }
        }
        if names.contains(n) {
            let k = choose|k: int| 0 <= k < names.len() && names[k] == n;
            assert(more[k] == n);
        }
        if n == name {
            assert(more[names.len() as int] == n);
        }
    }
}

impl SourceAliases {
    pub fn new() -> (r: Self)
        ensures
            r.wf(),
            r.sources@ == Map::<Seq<char>, SourceAlias>::empty(),
            r.revision == 0,
    {
        let r = SourceAliases { sources: NameMap::new(), paths: NameMap::new(), revision: 0 };
        proof {
            assert forall|path: Seq<char>, source: Seq<char>| #[trigger]
                r.leads(path, source) <==> r.lists_path(source, path) by {}
        }
        r
    }

    /// Whether a path leads to a source.
    pub open spec fn leads(self, path: Seq<char>, source: Seq<char>) -> bool {
        self.sources@.contains_key(path) && self.sources@[path].source@ == source
    }

    /// Whether a path is among those that lead to a source.
    pub open spec fn lists_path(self, source: Seq<char>, path: Seq<char>) -> bool {
        self.paths@.contains_key(source) && views(self.paths@[source]@).contains(path)
    }

    /// The two indexes are inverse to one another, no source is listed without a
    /// path, and the revisions given out are not ahead of the counter.
    pub open spec fn wf(self) -> bool {
        &&& forall|path: Seq<char>, source: Seq<char>| #[trigger]
            self.leads(path, source) <==> self.lists_path(source, path)
        &&& forall|source: Seq<char>| #[trigger]
            self.paths@.contains_key(source) ==> self.paths@[source]@.len() > 0
        &&& forall|path: Seq<char>| #[trigger]
            self.sources@.contains_key(path) ==> self.sources@[path].revision <= self.revision
    }

    /// Whether a source is fresh: nothing was read of it.
    pub open spec fn fresh(alias: SourceAlias, source: Seq<char>) -> bool {
        alias.source@ == source && alias.disk_revision is None && alias.revision == 0
    }

    /// Whether a later state differs from this one by a path that leads to a
    /// source, looked at with a disk revision or with none: every other path is
    /// as it was, and the counter goes up only where the disk revision is new.
    pub open spec fn noted(
        self,
        end: Self,
        path: Seq<char>,
        source: Seq<char>,
        disk_revision: Option<u128>,
    ) -> bool {
        let known = self.leads(path, source);
        let alias = end.sources@[path];
        &&& end.sources@ == self.sources@.insert(path, alias)
        &&& alias.source@ == source
        &&& if disk_revision is None || (known && self.sources@[path].disk_revision
            == disk_revision) {
            &&& end.revision == self.revision
            &&& if known {
                alias == self.sources@[path]
            } else {
                Self::fresh(alias, source)
            }
        } else {
            &&& end.revision == self.revision + 1
            &&& alias.disk_revision == disk_revision
            &&& alias.revision == end.revision
        }
    }

    /// Says that a path leads to a source. One that led elsewhere no longer does.
    pub fn insert(&mut self, path: String, source: String)
        requires
            old(self).wf(),
        ensures
            final(self).wf(),
            final(self).revision == old(self).revision,
            if old(self).leads(path@, source@) {
                *final(self) == *old(self)
            } else {
                &&& final(self).sources@ == old(self).sources@.insert(
                    path@,
                    final(self).sources@[path@],
                )
                &&& Self::fresh(final(self).sources@[path@], source@)
            },
    {
        let ghost start = *self;
        let mut moved_from: Option<String> = None;
        match self.sources.get(path.as_str()) {
            Some(alias) => {
                if same(alias.source.as_str(), source.as_str()) {
                    return;
                }
                moved_from = Some(alias.source.clone());
            },
            None => {},
        }
        let alias = SourceAlias { source: source.clone(), disk_revision: None, revision: 0 };
        self.sources.insert(path.clone(), alias);
        match &moved_from {
            Some(was) => {
                let rest = match self.paths.get(was.as_str()) {
                    Some(list) => without(list, path.as_str()),
                    None => Vec::new(),
                };
                proof {
                    assert(start.leads(path@, was@));
                    assert(start.lists_path(was@, path@));
                }
                if rest.len() == 0 {
                    self.paths.remove(was.as_str());
                    proof {
                        assert(views(rest@) =~= Seq::empty());
                    }
                } else {
                    self.paths.insert(was.clone(), rest);
                }
                proof {
                    assert forall|s: Seq<char>, p: Seq<char>| #[trigger]
                        self.lists_path(s, p) <==> start.lists_path(s, p) && !(s == was@ && p
                            == path@) by {
                        if s == was@ {
                            assert(views(rest@).contains(p) <==> views(
                                start.paths@[was@]@,
                            ).contains(p) && p != path@);
                        }
                    }
                }
            },
            None => {},
        }
        let ghost cleared = *self;
        proof {
            assert forall|s: Seq<char>, p: Seq<char>| #[trigger]
                cleared.lists_path(s, p) <==> start.lists_path(s, p) && p != path@ by {
                assert(start.leads(p, s) <==> start.lists_path(s, p));
                if p == path@ && start.lists_path(s, p) {
                    assert(start.leads(p, s));
                    assert(moved_from is Some && moved_from->0@ == s);
                }
            }
        }
        let mut list: Vec<String> = match self.paths.remove(source.as_str()) {
            Some(list) => list,
            None => Vec::new(),
        };
        let ghost before = views(list@);
        let ghost name = path@;
        list.push(path);
        self.paths.insert(source.clone(), list);
        proof {
            assert(views(list@) =~= before.push(name));
            pushed(before, name);
            assert forall|p: Seq<char>, s: Seq<char>| #[trigger]
                self.leads(p, s) <==> self.lists_path(s, p) by {
                assert(start.leads(p, s) <==> start.lists_path(s, p));
                assert(cleared.lists_path(s, p) <==> start.lists_path(s, p) && p != name);
                if s == source@ {
                    assert(views(list@).contains(p) <==> before.contains(p) || p == name);
                    assert(before.contains(p) <==> cleared.lists_path(s, p)) by {
                        if !cleared.paths@.contains_key(s) {
                            assert(before =~= Seq::empty());
                        }
                    }
                }
            }
        }
    }

    /// The revision of a path. It changes when the source or its disk revision
    /// changed, and is never one that was given out before.
    pub fn metadata(&mut self, path: &str, disk_revision: u128) -> (r: u128)
        requires
            old(self).wf(),
            old(self).sources@.contains_key(path@),
            old(self).revision < u64::MAX,
        ensures
            final(self).wf(),
            final(self).paths == old(self).paths,
            ({
                let alias = old(self).sources@[path@];
                if alias.disk_revision == Some(disk_revision) {
                    r == alias.revision && *final(self) == *old(self)
                } else {
                    &&& final(self).revision == old(self).revision + 1
                    &&& r == final(self).revision
                    &&& final(self).sources@ == old(self).sources@.insert(
                        path@,
                        SourceAlias {
                            source: alias.source,
                            disk_revision: Some(disk_revision),
                            revision: r,
                        },
                    )
                }
            }),
    {
        let ghost start = *self;
        let source = match self.sources.get(path) {
            Some(alias) => {
                if let Some(known) = alias.disk_revision {
                    if known == disk_revision {
                        return alias.revision;
                    }
                }
                alias.source.clone()
            },
            None => {
                return 0;
            },
        };
        self.revision = self.revision + 1;
        let revision: u128 = self.revision as u128;
        self.sources.insert(
            path.to_owned(),
            SourceAlias { source, disk_revision: Some(disk_revision), revision },
        );
        proof {
            assert forall|p: Seq<char>, s: Seq<char>| #[trigger]
                self.leads(p, s) <==> self.lists_path(s, p) by {
                assert(start.leads(p, s) <==> start.lists_path(s, p));
            }
        }
        revision
    }

    /// The paths that lead to a source.
    pub fn aliases(&self, source: &str) -> (r: Vec<String>)
        ensures
            forall|p: Seq<char>| #[trigger] views(r@).contains(p) <==> self.lists_path(source@, p),
    {
        let mut r: Vec<String> = Vec::new();
        if let Some(list) = self.paths.get(source) {
            crate::system::add_all(&mut r, list);
        }
        r
    }
}

/// Adds the names of a list that are not there.
pub fn add_all(names: &mut Vec<String>, more: &Vec<String>)
    ensures
        forall|n: Seq<char>|
            #[trigger] views(final(names)@).contains(n) <==> views(old(names)@).contains(n) || views(
                more@,
            ).contains(n),
{
    let ghost start = views(names@);
    let mut i: usize = 0;
    while i < more.len()
        invariant
            i <= more@.len(),
            forall|n: Seq<char>|
                #[trigger] views(names@).contains(n) <==> start.contains(n) || views(more@).take(
                    i as int,
                ).contains(n),
        decreases more@.len() - i,
    {
        let ghost before = views(names@);
        let known = crate::builtin_tables::holds(names, more[i].as_str());
        if !known {
            names.push(more[i].clone());
        }
        proof {
            let all = views(more@);
            let name = more@[i as int]@;
            assert(all[i as int] == name);
            one_more(all, i as int);
            if known {
                let k = choose|k: int| 0 <= k < names@.len() && (#[trigger] names@[k])@ == name;
                assert(before[k] == name);
                assert(before.contains(name));
            }
            assert forall|n: Seq<char>|
                #[trigger] views(names@).contains(n) <==> start.contains(n) || all.take(
                    i + 1,
                ).contains(n) by {
                assert(before.contains(n) <==> start.contains(n) || all.take(i as int).contains(n));
                if known {
                    assert(views(names@) =~= before);
                } else {
                    assert(views(names@) =~= before.push(name));
                    pushed(before, name);
                }
            }
        }
        i = i + 1;
    }
    proof {
        assert(views(more@).take(i as int) =~= views(more@));
    }
}

/// The first revision of an editor, far from those of file systems.
pub const EDITOR_REVISIONS: u128 = 0x8000_0000_0000_0000_0000_0000_0000_0000;

/// The documents that are open, by the source that each path led to when it was
/// opened, and the paths that lead to sources.
#[derive(Debug)]
pub struct SourceSystem {
    pub documents: NameMap<OpenDocument>,
    pub virtual_sources: NameMap<String>,
    pub revision: u64,
    pub aliases: SourceAliases,
}

impl SourceSystem {
    /// No two documents are open under one path, and no revision is ahead of the
    /// counter.
    pub open spec fn wf(self) -> bool {
        &&& self.aliases.wf()
        &&& forall|a: Seq<char>, b: Seq<char>|
            #![trigger self.documents@.contains_key(a), self.documents@.contains_key(b)]
            self.documents@.contains_key(a) && self.documents@.contains_key(b)
                && self.documents@[a].path@ == self.documents@[b].path@ ==> a == b
        &&& forall|a: Seq<char>| #[trigger]
            self.documents@.contains_key(a) ==> EDITOR_REVISIONS < self.documents@[a].revision
                <= EDITOR_REVISIONS + self.revision
    }

    pub fn new() -> (r: Self)
        ensures
            r.wf(),
            r.documents@ == Map::<Seq<char>, OpenDocument>::empty(),
            r.virtual_sources@ == Map::<Seq<char>, String>::empty(),
            r.aliases.sources@ == Map::<Seq<char>, SourceAlias>::empty(),
            r.revision == 0,
    {
        SourceSystem {
            documents: NameMap::new(),
            virtual_sources: NameMap::new(),
            revision: 0,
            aliases: SourceAliases::new(),
        }
    }

    /// Whether a document is open under a path, with its buffer at a source.
    pub open spec fn opened_at(self, path: Seq<char>, source: Seq<char>) -> bool {
        self.documents@.contains_key(source) && self.documents@[source].path@ == path
    }

    /// Whether `source` is the source of a path: an open source is its own; a
    /// path that is open keeps its buffer; any other leads where it leads on disk.
    pub open spec fn is_source(self, path: Seq<char>, disk: Seq<char>, source: Seq<char>) -> bool {
        if self.documents@.contains_key(path) {
            source == path
        } else {
            ||| self.opened_at(path, source)
            ||| source == disk && forall|other: Seq<char>| !#[trigger] self.opened_at(path, other)
        }
    }

    /// The source of a path that an editor has open.
    pub fn open_source(&self, path: &str) -> (r: Option<String>)
        ensures
            match r {
                Some(source) => forall|disk: Seq<char>|
                    #[trigger] self.is_source(path@, disk, source@),
                None => !self.documents@.contains_key(path@) && forall|other: Seq<char>|
                    !#[trigger] self.opened_at(path@, other),
            },
    {
        if self.documents.contains_key(path) {
            return Some(path.to_owned());
        }
        let entries = &self.documents.entries;
        let mut i: usize = 0;
        while i < entries.len()
            invariant
                i <= entries@.len(),
                *entries == self.documents.entries,
                !self.documents@.contains_key(path@),
                forall|k: int|
                    0 <= k < i ==> !self.opened_at(path@, (#[trigger] entries@[k]).0@),
            decreases entries@.len() - i,
        {
            let key = &entries[i].0;
            if let Some(document) = self.documents.get(key.as_str()) {
                if same(document.path.as_str(), path) {
                    return Some(key.clone());
                }
            }
            i = i + 1;
        }
        proof {
            assert forall|other: Seq<char>| !#[trigger] self.opened_at(path@, other) by {
                if self.documents@.contains_key(other) {
                    key_has_entry(entries@, other);
                    let k = choose|k: int|
                        0 <= k < entries@.len() && (#[trigger] entries@[k]).0@ == other;
                    assert(!self.opened_at(path@, entries@[k].0@));
                }
            }
        }
        None
    }

    /// The source of a path, given where it leads on disk.
    pub fn source_path(&self, path: &str, disk: &str) -> (r: String)
        ensures
            self.is_source(path@, disk@, r@),
    {
        match self.open_source(path) {
            Some(source) => {
                proof {
                    assert(self.is_source(path@, disk@, source@));
                }
                source
            },
            None => disk.to_owned(),
        }
    }

    /// Opens a document, or changes the one that is open under its path. A
    /// source cannot be open under two paths.
    pub fn open(
        &mut self,
        path: &str,
        disk: &str,
        contents: String,
        dialect: Dialect,
        info: Option<FileInfo>,
        version: i32,
    ) -> (r: Result<String, String>)
        requires
            old(self).wf(),
            old(self).revision < u64::MAX,
        ensures
            final(self).wf(),
            final(self).virtual_sources == old(self).virtual_sources,
            final(self).aliases == old(self).aliases,
            forall|source: Seq<char>| #[trigger]
                old(self).is_source(path@, disk@, source) ==> {
                    let docs = old(self).documents@;
                    if docs.contains_key(source) && docs[source].path@ != path@ {
                        &&& *final(self) == *old(self)
                        &&& r matches Err(e) && e@ == "file is already open at "@
                            + docs[source].path@
                    } else {
                        let document = final(self).documents@[source];
                        &&& r matches Ok(p) && p@ == path@
                        &&& final(self).revision == old(self).revision + 1
                        &&& final(self).documents@ == docs.insert(source, document)
                        &&& document.path@ == path@
                        &&& document.contents == contents
                        &&& document.version == version
                        &&& document.dialect == dialect
                        &&& document.info == info
                        &&& document.revision == EDITOR_REVISIONS + final(self).revision
                    }
                },
    {
        let source = self.source_path(path, disk);
        let ghost start = *self;
        proof {
            assert forall|s: Seq<char>| #[trigger] start.is_source(path@, disk@, s) implies s
                == source@ by {
                start.source_is_one(path@, disk@, s, source@);
            }
        }
        match self.documents.get(source.as_str()) {
            Some(document) => {
                if !same(document.path.as_str(), path) {
                    return Err(
                        crate::text::join("file is already open at ", document.path.as_str()),
                    );
                }
            },
            None => {},
        }
        self.revision = self.revision + 1;
        let revision: u128 = EDITOR_REVISIONS + self.revision as u128;
        let document = OpenDocument {
            path: path.to_owned(),
            contents,
            version,
            dialect,
            info,
            revision,
        };
        self.documents.insert(source.clone(), document);
        proof {
            assert forall|a: Seq<char>, b: Seq<char>|
                #![trigger self.documents@.contains_key(a), self.documents@.contains_key(b)]
                self.documents@.contains_key(a) && self.documents@.contains_key(b)
                    && self.documents@[a].path@ == self.documents@[b].path@ implies a == b by {
                let other = if a == source@ {
                    b
                } else {
                    a
                };
                if a != b && (a == source@ || b == source@) {
                    assert(start.opened_at(path@, other));
                    if start.documents@.contains_key(path@) {
                        assert(start.documents@.contains_key(source@));
                        assert(start.documents@.contains_key(other));
                    } else {
                        start.source_is_one(path@, disk@, other, source@);
                    }
                } else {
                    assert(a == b || start.documents@.contains_key(a)
                        && start.documents@.contains_key(b));
                }
            }
        }
        Ok(path.to_owned())
    }

    /// A path has one source.
    pub proof fn source_is_one(
        self,
        path: Seq<char>,
        disk: Seq<char>,
        a: Seq<char>,
        b: Seq<char>,
    )
        requires
            self.wf(),
            self.is_source(path, disk, a),
            self.is_source(path, disk, b),
        ensures
            a == b,
    {
        if !self.documents@.contains_key(path) {
            if self.opened_at(path, a) && self.opened_at(path, b) {
                assert(self.documents@.contains_key(a) && self.documents@.contains_key(b));
            }
        }
    }

    /// A document that was opened is found under its path, whatever is on disk.
    pub proof fn opened_is_found(
        self,
        path: Seq<char>,
        source: Seq<char>,
        disk: Seq<char>,
        found: Seq<char>,
    )
        requires
            self.wf(),
            self.opened_at(path, source),
            !self.documents@.contains_key(path) || path == source,
            self.is_source(path, disk, found),
        ensures
            found == source,
    {
        if path != source {
            assert(self.is_source(path, disk, source));
            self.source_is_one(path, disk, found, source);
        }
    }

    /// A state of a document that comes later has another stamp.
    pub proof fn later_stamps_differ(self, source: Seq<char>, later: OpenDocument)
        requires
            self.wf(),
            self.documents@.contains_key(source),
            later.revision > EDITOR_REVISIONS + self.revision,
        ensures
            self.documents@[source].stamped() != later.stamped(),
    {
    }

    /// The open document that a path leads to.
    pub fn document(&self, path: &str, disk: &str) -> (r: Option<&OpenDocument>)
        requires
            self.wf(),
        ensures
            forall|source: Seq<char>| #[trigger]
                self.is_source(path@, disk@, source) ==> match r {
                    Some(document) => self.documents@.contains_key(source) && *document
                        == self.documents@[source],
                    None => !self.documents@.contains_key(source),
                },
    {
        let source = self.source_path(path, disk);
        proof {
            assert forall|s: Seq<char>| #[trigger] self.is_source(path@, disk@, s) implies s
                == source@ by {
                self.source_is_one(path@, disk@, s, source@);
            }
        }
        self.documents.get(source.as_str())
    }

    /// Closes the document that a path leads to.
    pub fn close(&mut self, path: &str, disk: &str) -> (r: Option<OpenDocument>)
        requires
            old(self).wf(),
        ensures
            final(self).wf(),
            final(self).virtual_sources == old(self).virtual_sources,
            final(self).aliases == old(self).aliases,
            final(self).revision == old(self).revision,
            forall|source: Seq<char>| #[trigger]
                old(self).is_source(path@, disk@, source) ==> {
                    &&& final(self).documents@ == old(self).documents@.remove(source)
                    &&& match r {
                        Some(document) => old(self).documents@.contains_key(source) && document
                            == old(self).documents@[source],
                        None => !old(self).documents@.contains_key(source),
                    }
                },
    {
        let ghost start = *self;
        let source = self.source_path(path, disk);
        proof {
            assert forall|s: Seq<char>| #[trigger] self.is_source(path@, disk@, s) implies s
                == source@ by {
                self.source_is_one(path@, disk@, s, source@);
            }
        }
        let r = self.documents.remove(source.as_str());
        proof {
            assert forall|a: Seq<char>, b: Seq<char>|
                #![trigger self.documents@.contains_key(a), self.documents@.contains_key(b)]
                self.documents@.contains_key(a) && self.documents@.contains_key(b)
                    && self.documents@[a].path@ == self.documents@[b].path@ implies a == b by {
                assert(start.documents@.contains_key(a) && start.documents@.contains_key(b));
            }
        }
        r
    }

    /// Changes what the host knows about an open document.
    pub fn set_document_info(&mut self, source: &str, info: Option<FileInfo>)
        requires
            old(self).wf(),
            old(self).documents@.contains_key(source@),
        ensures
            final(self).wf(),
            final(self).virtual_sources == old(self).virtual_sources,
            final(self).aliases == old(self).aliases,
            final(self).revision == old(self).revision,
            final(self).documents@ == old(self).documents@.insert(
                source@,
                OpenDocument { info, ..old(self).documents@[source@] },
            ),
    {
        let ghost start = *self;
        if let Some(document) = self.documents.remove(source) {
            self.documents.insert(source.to_owned(), OpenDocument { info, ..document });
        }
        proof {
            assert(self.documents@ =~= start.documents@.insert(
                source@,
                OpenDocument { info, ..start.documents@[source@] },
            ));
            assert forall|a: Seq<char>, b: Seq<char>|
                #![trigger self.documents@.contains_key(a), self.documents@.contains_key(b)]
                self.documents@.contains_key(a) && self.documents@.contains_key(b)
                    && self.documents@[a].path@ == self.documents@[b].path@ implies a == b by {
                assert(start.documents@.contains_key(a) && start.documents@.contains_key(b));
            }
        }
    }

    /// The paths that a change at a path affects: itself, and those that lead to
    /// the source it had or has. The path leads to its source from then on.
    pub fn paths_for_change(&mut self, path: &str, disk: &str) -> (r: Vec<String>)
        requires
            old(self).wf(),
        ensures
            final(self).wf(),
            final(self).documents == old(self).documents,
            final(self).virtual_sources == old(self).virtual_sources,
            final(self).revision == old(self).revision,
            forall|source: Seq<char>| #[trigger]
                old(self).is_source(path@, disk@, source) ==> {
                    let aliases = old(self).aliases;
                    &&& aliases.noted(final(self).aliases, path@, source, None)
                    &&& forall|p: Seq<char>|
                        #[trigger] views(r@).contains(p) <==> p == path@ || aliases.lists_path(
                            source,
                            p,
                        ) || (aliases.sources@.contains_key(path@) && aliases.lists_path(
                            aliases.sources@[path@].source@,
                            p,
                        ))
                },
    {
        let ghost start = *self;
        let source = self.source_path(path, disk);
        proof {
            assert forall|s: Seq<char>| #[trigger] self.is_source(path@, disk@, s) implies s
                == source@ by {
                self.source_is_one(path@, disk@, s, source@);
            }
        }
        let mut affected: Vec<String> = Vec::new();
        affected.push(path.to_owned());
        proof {
            assert(views(affected@) =~= Seq::empty().push(path@));
            pushed(Seq::empty(), path@);
        }
        match self.aliases.sources.get(path) {
            Some(alias) => {
                let list = self.aliases.aliases(alias.source.as_str());
                add_all(&mut affected, &list);
            },
            None => {},
        }
        let list = self.aliases.aliases(source.as_str());
        add_all(&mut affected, &list);
        self.aliases.insert(path.to_owned(), source);
        proof {
            assert(self.aliases.sources@ =~= start.aliases.sources@.insert(
                path@,
                self.aliases.sources@[path@],
            ));
        }
        affected
    }

    /// The paths that lead to the source of a path.
    pub fn source_aliases(&self, path: &str, disk: &str) -> (r: Vec<String>)
        requires
            self.wf(),
        ensures
            forall|source: Seq<char>| #[trigger]
                self.is_source(path@, disk@, source) ==> forall|p: Seq<char>|
                    #[trigger] views(r@).contains(p) <==> self.aliases.lists_path(source, p),
    {
        let source = self.source_path(path, disk);
        proof {
            assert forall|s: Seq<char>| #[trigger] self.is_source(path@, disk@, s) implies s
                == source@ by {
                self.source_is_one(path@, disk@, s, source@);
            }
        }
        self.aliases.aliases(source.as_str())
    }

    /// The revision of a path: that of its buffer if it is open, and else one
    /// that follows its disk revision. The path leads to its source from then on.
    pub fn path_metadata(&mut self, path: &str, disk: &str, disk_revision: Option<u128>) -> (r: Option<
        u128,
    >)
        requires
            old(self).wf(),
            old(self).aliases.revision < u64::MAX,
        ensures
            final(self).wf(),
            final(self).documents == old(self).documents,
            final(self).virtual_sources == old(self).virtual_sources,
            final(self).revision == old(self).revision,
            forall|source: Seq<char>| #[trigger]
                old(self).is_source(path@, disk@, source) ==> {
                    let known = old(self).aliases;
                    &&& known.noted(
                        final(self).aliases,
                        path@,
                        source,
                        if old(self).documents@.contains_key(source) {
                            None
                        } else {
                            disk_revision
                        },
                    )
                    &&& if old(self).documents@.contains_key(source) {
                        r == Some(old(self).documents@[source].revision)
                    } else {
                        match disk_revision {
                            None => r is None,
                            Some(on_disk) => if known.leads(path@, source)
                                && known.sources@[path@].disk_revision == Some(on_disk) {
                                r == Some(known.sources@[path@].revision)
                            } else {
                                r == Some((known.revision + 1) as u128)
                            },
                        }
                    }
                },
    {
        let ghost start = *self;
        let source = self.source_path(path, disk);
        proof {
            assert forall|s: Seq<char>| #[trigger] self.is_source(path@, disk@, s) implies s
                == source@ by {
                self.source_is_one(path@, disk@, s, source@);
            }
        }
        self.aliases.insert(path.to_owned(), source.clone());
        proof {
            assert(self.aliases.sources@ =~= start.aliases.sources@.insert(
                path@,
                self.aliases.sources@[path@],
            ));
        }
        if let Some(document) = self.documents.get(source.as_str()) {
            return Some(document.revision);
        }
        match disk_revision {
            Some(revision) => {
                let r: u128 = self.aliases.metadata(path, revision);
                proof {
                    assert(self.aliases.sources@ =~= start.aliases.sources@.insert(
                        path@,
                        self.aliases.sources@[path@],
                    ));
                }
                Some(r)
            },
            None => None,
        }
    }

    /// Sets a source that is not a file, and says whether it changed.
    pub fn set_virtual_source(&mut self, path: &str, source: String) -> (changed: bool)
        ensures
            final(self).documents == old(self).documents,
            final(self).aliases == old(self).aliases,
            final(self).revision == old(self).revision,
            changed == !(old(self).virtual_sources@.contains_key(path@) && old(
                self,
            ).virtual_sources@[path@]@ == source@),
            final(self).virtual_sources@ == if changed {
                old(self).virtual_sources@.insert(path@, source)
            } else {
                old(self).virtual_sources@
            },
    {
        match self.virtual_sources.get(path) {
            Some(known) => {
                if same(known.as_str(), source.as_str()) {
                    return false;
                }
            },
            None => {},
        }
        self.virtual_sources.insert(path.to_owned(), source);
        true
    }

    /// Whether an open path still leads to the source of its buffer.
    pub fn validate_document(&self, path: &str, target: &str) -> (r: Result<(), String>)
        requires
            self.wf(),
        ensures
            forall|source: Seq<char>| #[trigger]
                self.is_source(path@, target@, source) ==> match r {
                    Ok(()) => source == target@,
                    Err(e) => source != target@ && e@ == "open file "@ + path@ + " refers to "@ + (
                    target@ + " after the dependency change (buffer: "@ + source
                        + "); close and reopen it to use the new repository"@),
                },
    {
        let source = self.source_path(path, target);
        proof {
            assert forall|s: Seq<char>| #[trigger] self.is_source(path@, target@, s) implies s
                == source@ by {
                self.source_is_one(path@, target@, s, source@);
            }
        }
        if same(source.as_str(), target) {
            return Ok(());
        }
        let start = crate::text::join3("open file ", path, " refers to ");
        let middle = crate::text::join3(
            target,
            " after the dependency change (buffer: ",
            source.as_str(),
        );
        let end = crate::text::join(
            middle.as_str(),
            "); close and reopen it to use the new repository",
        );
        Err(crate::text::join(start.as_str(), end.as_str()))
    }
}

/// A key of a map has an entry.
pub proof fn key_has_entry<V>(entries: Seq<(String, V)>, key: Seq<char>)
    requires
        map_of(entries).contains_key(key),
    ensures
        exists|k: int| 0 <= k < entries.len() && (#[trigger] entries[k]).0@ == key,
    decreases entries.len(),
{
    if entries.len() > 0 {
        let n = entries.len() - 1;
        if entries[n].0@ != key {
            let rest = entries.drop_last();
            key_has_entry(rest, key);
            let k = choose|k: int| 0 <= k < rest.len() && (#[trigger] rest[k]).0@ == key;
            assert(entries[k].0@ == key);
        }
    }
}

/// What the file system says of a path when asked for its canonical form.
#[derive(Debug)]
pub enum Canonical {
    Found(String),
    NotFound(String),
    Failed(String),
}

/// A directory of a path, nearest first, from the path itself on, and what the
/// file system says of it.
#[derive(Debug)]
pub struct Attempt {
    pub ancestor: String,
    pub canonical: Canonical,
}

/// The first attempt that found something or failed.
pub open spec fn decisive(attempts: Seq<Attempt>, k: int) -> int
    decreases attempts.len() - k,
{
    if k < 0 || k >= attempts.len() || !(attempts[k].canonical is NotFound) {
        k
    } else {
        decisive(attempts, k + 1)
    }
}

/// Where a path leads on disk: its nearest directory that exists, in canonical
/// form, and below it what does not. The last error counts where none exists.
pub fn disk_source_path(path: &str, attempts: &Vec<Attempt>) -> (r: Result<String, String>)
    requires
        attempts@.len() > 0,
        forall|k: int| 0 <= k < attempts@.len() ==> is_under(path@, (#[trigger] attempts@[k]).ancestor@),
    ensures
        ({
            let k = decisive(attempts@, 0);
            if k < attempts@.len() {
                match attempts@[k].canonical {
                    Canonical::Found(root) => {
                        let rest = parts_below(path@, attempts@[k].ancestor@);
                        r matches Ok(source) && source@ == if rest.len() == 0 {
                            root@
                        } else {
                            joined(root@, with_slashes(rest, rest.len()))
                        }
                    },
                    Canonical::Failed(error) => r matches Err(e) && e@ == error@,
                    Canonical::NotFound(_) => false,
                }
            } else {
                r is Err && attempts@.last().canonical == Canonical::NotFound(r->Err_0)
            }
        }),
{
    let mut k: usize = 0;
    let mut last: String = String::new();
    proof {
        decisive_stays(attempts@, 0);
    }
    while k < attempts.len()
        invariant
            k <= attempts@.len(),
            decisive(attempts@, k as int) == decisive(attempts@, 0),
            k > 0 ==> attempts@[k - 1].canonical == Canonical::NotFound(last),
            forall|i: int|
                0 <= i < attempts@.len() ==> is_under(path@, (#[trigger] attempts@[i]).ancestor@),
        decreases attempts@.len() - k,
    {
        match &attempts[k].canonical {
            Canonical::Found(root) => {
                let rest = crate::paths::below(path, attempts[k].ancestor.as_str());
                proof {
                    assert(is_under(path@, attempts@[k as int].ancestor@));
                }
                return Ok(
                    match rest {
                        Some(rest) => {
                            proof {
                                assert(views(rest@).len() == rest@.len());
                            }
                            if rest.len() == 0 {
                                root.clone()
                            } else {
                                let text = crate::paths::join_parts(&rest, rest.len());
                                crate::paths::join(root.as_str(), text.as_str())
                            }
                        },
                        None => root.clone(),
                    },
                );
            },
            Canonical::Failed(error) => {
                return Err(error.clone());
            },
            Canonical::NotFound(error) => {
                last = error.clone();
            },
        }
        k = k + 1;
    }
    Err(last)
}

/// The decisive attempt is one of them, or none.
proof fn decisive_stays(attempts: Seq<Attempt>, k: int)
    requires
        0 <= k <= attempts.len(),
    ensures
        k <= decisive(attempts, k) <= attempts.len(),
    decreases attempts.len() - k,
{
    if k < attempts.len() && attempts[k].canonical is NotFound {
        decisive_stays(attempts, k + 1);
    }
}

} // verus!
