//! Which files a server watches, and what a change of one of them means.

use vstd::prelude::*;

use crate::name_map::{map_of, NameMap};
use crate::paths::{
    extension_of, is_rooted, joined, name_part, normal_text, parent_of, path_parts, same_place,
};
use crate::common::{Dialect, FileInfo};
use crate::server::{
    invalidated, reload_actions, reloaded, shown, target_actions, targets_queried, Action, ActionView,
    Server, ServerView, Session,
};
use crate::source_kind::{opening, opening_of};
use crate::text::{has_suffix, same, views};

verus! {

/// Where a path leads: whether it starts at the root, and its parts.
pub struct Place {
    pub rooted: bool,
    pub parts: Seq<Seq<char>>,
}

/// Where a path leads.
pub open spec fn place_of(path: Seq<char>) -> Place {
    Place { rooted: is_rooted(path), parts: path_parts(path) }
}

/// Whether a place is a directory or something below it.
pub open spec fn is_in(place: Place, directory: Place) -> bool {
    &&& place.rooted == directory.rooted
    &&& directory.parts.len() <= place.parts.len()
    &&& place.parts.take(directory.parts.len() as int) == directory.parts
}

/// The places that some paths lead to.
pub open spec fn places_of(paths: Seq<Seq<char>>) -> Set<Place> {
    Set::new(
        |place: Place| exists|k: int| 0 <= k < paths.len() && place_of(#[trigger] paths[k]) == place,
    )
}

/// The places in a list of paths.
pub open spec fn names_of(names: Seq<String>) -> Set<Place> {
    places_of(views(names))
}

/// Whether a path is in one of some directories.
pub open spec fn is_covered(directories: Set<Place>, path: Seq<char>) -> bool {
    exists|directory: Place| #[trigger]
        directories.contains(directory) && is_in(place_of(path), directory)
}

/// The directories to watch so that the first of some files are covered: a file
/// that none covers adds its own.
pub open spec fn with_parents(
    directories: Set<Place>,
    files: Seq<String>,
    n: int,
) -> Set<Place>
    decreases n,
{
    if n <= 0 {
        directories
    } else {
        let before = with_parents(directories, files, n - 1);
        if is_covered(before, files[n - 1]@) {
            before
        } else {
            match parent_of(files[n - 1]@) {
                Some(parent) => before.insert(place_of(parent)),
                None => before,
            }
        }
    }
}

/// What is watched: the roots of repositories, the workspace, the manifests, and
/// the directories of interface files elsewhere.
pub open spec fn watched_paths(
    roots: Seq<String>,
    workspace: Seq<char>,
    manifests: Seq<String>,
    interfaces: Seq<String>,
) -> Set<Place> {
    with_parents(
        names_of(roots).insert(place_of(workspace)).union(names_of(manifests)),
        interfaces,
        interfaces.len() as int,
    )
}

/// A pattern of files to watch, below a directory or anywhere in the workspace.
#[derive(Debug)]
pub struct Watcher {
    pub base: Option<String>,
    pub pattern: String,
}

/// The content of a watcher.
pub struct WatcherView {
    pub base: Option<Seq<char>>,
    pub pattern: Seq<char>,
}

impl View for Watcher {
    type V = WatcherView;

    open spec fn view(&self) -> WatcherView {
        WatcherView {
            base: match self.base {
                Some(base) => Some(base@),
                None => None,
            },
            pattern: self.pattern@,
        }
    }
}

/// Whether a character means something in a pattern.
pub open spec fn is_special(c: char) -> bool {
    c == '*' || c == '?' || c == '[' || c == ']' || c == '{' || c == '}'
}

/// A pattern that stands for the name alone: what means something in a pattern is
/// put in brackets.
pub open spec fn escaped(name: Seq<char>) -> Seq<char>
    decreases name.len(),
{
    if name.len() == 0 {
        seq![]
    } else if is_special(name.last()) {
        escaped(name.drop_last()) + seq!['[', name.last(), ']']
    } else {
        escaped(name.drop_last()).push(name.last())
    }
}

/// A pattern that stands for the name alone.
pub fn escape_glob(name: &str) -> (r: String)
    ensures
        r@ == escaped(name@),
{
    let chars = crate::text::chars_of(name);
    let mut r = String::new();
    let mut i: usize = 0;
    proof {
        assert(r@ =~= escaped(name@.take(0)));
    }
    while i < chars.len()
        invariant
            i <= chars@.len(),
            chars@ == name@,
            r@ == escaped(name@.take(i as int)),
        decreases chars@.len() - i,
    {
        let c = chars[i];
        let ghost before = r@;
        proof {
            let taken = name@.take(i + 1);
            assert(taken.drop_last() =~= name@.take(i as int));
            assert(taken.last() == c);
        }
        if c == '*' || c == '?' || c == '[' || c == ']' || c == '{' || c == '}' {
            r.push('[');
            r.push(c);
            r.push(']');
            proof {
                assert(r@ =~= before + seq!['[', c, ']']);
            }
        } else {
            r.push(c);
        }
        i = i + 1;
    }
    proof {
        assert(name@.take(i as int) =~= name@);
    }
    r
}

/// A name without special characters is a pattern for itself.
pub proof fn plain_names_stay(name: Seq<char>)
    requires
        forall|i: int| 0 <= i < name.len() ==> !is_special(#[trigger] name[i]),
    ensures
        escaped(name) == name,
    decreases name.len(),
{
    if name.len() > 0 {
        let rest = name.drop_last();
        assert forall|i: int| 0 <= i < rest.len() implies !is_special(#[trigger] rest[i]) by {
            assert(rest[i] == name[i]);
        }
        plain_names_stay(rest);
        assert(!is_special(name[name.len() - 1]));
        assert(rest.push(name.last()) =~= name);
    }
    assert(escaped(name) =~= name);
}

/// The pattern of the files in a repository that matter.
pub open spec fn source_pattern() -> Seq<char> {
    "**/{*.bzl,*.bzli,BUILD,BUILD.bazel,MODULE.bazel,MODULE.bazel.lock,*.MODULE.bazel,WORKSPACE,WORKSPACE.bazel,WORKSPACE.bzlmod,starpls.toml,.bazelrc,.bazelversion}"@
}

/// The watcher of a path: of the file alone for a manifest, and of what matters
/// below it for a directory.
pub open spec fn watcher_of(path: Seq<char>, is_manifest: bool, workspace: Seq<char>) -> WatcherView {
    let base = if is_manifest {
        match parent_of(path) {
            Some(parent) => parent,
            None => path,
        }
    } else {
        path
    };
    WatcherView {
        base: if same_place(base, workspace) {
            None
        } else {
            Some(base)
        },
        pattern: match name_part(path) {
            Some(name) if is_manifest => escaped(name),
            _ => source_pattern(),
        },
    }
}

/// The watcher of a path.
fn watcher(path: &str, is_manifest: bool, workspace: &str) -> (r: Watcher)
    ensures
        r@ == watcher_of(path@, is_manifest, workspace@),
{
    let base = if is_manifest {
        match crate::paths::parent(path) {
            Some(parent) => parent,
            None => path.to_owned(),
        }
    } else {
        path.to_owned()
    };
    let name = if is_manifest {
        crate::paths::file_name(path)
    } else {
        None
    };
    let pattern = match name {
        Some(name) => escape_glob(name.as_str()),
        None => "**/{*.bzl,*.bzli,BUILD,BUILD.bazel,MODULE.bazel,MODULE.bazel.lock,*.MODULE.bazel,WORKSPACE,WORKSPACE.bazel,WORKSPACE.bzlmod,starpls.toml,.bazelrc,.bazelversion}".to_owned(),
    };
    if crate::paths::same_path(base.as_str(), workspace) {
        Watcher { base: None, pattern }
    } else {
        Watcher { base: Some(base), pattern }
    }
}

/// The watchers of the first of some paths, as far as a client can have them: one
/// that does not know relative patterns watches the workspace alone.
pub open spec fn watchers_of(
    paths: Seq<String>,
    manifests: Set<Place>,
    workspace: Seq<char>,
    relative: bool,
    n: int,
) -> Seq<WatcherView>
    decreases n,
{
    if n <= 0 {
        seq![]
    } else {
        let rest = watchers_of(paths, manifests, workspace, relative, n - 1);
        let watcher = watcher_of(paths[n - 1]@, manifests.contains(place_of(paths[n - 1]@)), workspace);
        if watcher.base is None || relative {
            rest.push(watcher)
        } else {
            rest
        }
    }
}

/// The contents of watchers.
pub open spec fn watchers_shown(watchers: Seq<Watcher>) -> Seq<WatcherView> {
    Seq::new(watchers.len(), |i: int| watchers[i]@)
}

/// The message for a client that cannot watch what is outside the workspace.
pub open spec fn outside_message() -> Seq<char> {
    "The client cannot watch external Starpls dependencies without relative-pattern support. Changes to closed files require restarting the server."@
}

/// The message for a client that cannot watch at all.
pub open spec fn unwatched_message() -> Seq<char> {
    "The client cannot watch Starpls dependencies. Changes to closed files require restarting the server."@
}

/// The messages for those of the first paths that a client cannot watch.
pub open spec fn outside_messages(
    paths: Seq<String>,
    manifests: Set<Place>,
    workspace: Seq<char>,
    relative: bool,
    n: int,
) -> Seq<ActionView>
    decreases n,
{
    if n <= 0 {
        seq![]
    } else {
        let rest = outside_messages(paths, manifests, workspace, relative, n - 1);
        let watcher = watcher_of(paths[n - 1]@, manifests.contains(place_of(paths[n - 1]@)), workspace);
        if watcher.base is None || relative {
            rest
        } else {
            rest.push(ActionView::ShowError(outside_message()))
        }
    }
}

/// A registration of watchers, in place of another one.
#[derive(Debug)]
pub struct Registration {
    pub replaced: Option<u64>,
    pub id: u64,
    pub watchers: Vec<Watcher>,
}

/// Whether a path of a list leads where another leads.
fn has_name(names: &Vec<String>, name: &str) -> (r: bool)
    ensures
        r == names_of(names@).contains(place_of(name@)),
{
    let mut k: usize = 0;
    while k < names.len()
        invariant
            k <= names@.len(),
            forall|j: int| 0 <= j < k ==> place_of(#[trigger] views(names@)[j]) != place_of(name@),
        decreases names@.len() - k,
    {
        proof {
            assert(views(names@)[k as int] == names@[k as int]@);
        }
        if crate::paths::same_path(names[k].as_str(), name) {
            proof {
                assert(place_of(views(names@)[k as int]) == place_of(name@));
            }
            return true;
        }
        k = k + 1;
    }
    false
}

/// Adds a path, unless one that leads there is in the list.
fn add_name(names: &mut Vec<String>, name: &str)
    ensures
        names_of(final(names)@) == names_of(old(names)@).insert(place_of(name@)),
{
    if !has_name(names, name) {
        let ghost before = views(names@);
        names.push(name.to_owned());
        proof {
            let after = views(names@);
            assert(after =~= before.push(name@));
            assert forall|place: Place| #[trigger]
                places_of(after).contains(place) <==> places_of(before).contains(place) || place
                    == place_of(name@) by {
                if places_of(after).contains(place) {
                    let k = choose|k: int|
                        0 <= k < after.len() && place_of(#[trigger] after[k]) == place;
                    if k < before.len() {
                        assert(place_of(before[k]) == place);
                    }
                }
                if places_of(before).contains(place) {
                    let k = choose|k: int|
                        0 <= k < before.len() && place_of(#[trigger] before[k]) == place;
                    assert(place_of(after[k]) == place);
                }
                if place == place_of(name@) {
                    assert(place_of(after[before.len() as int]) == place);
                }
            }
        }
    }
    proof {
        assert(names_of(names@) =~= names_of(old(names)@).insert(place_of(name@)));
    }
}

/// Adds paths.
fn add_names(names: &mut Vec<String>, more: &Vec<String>)
    ensures
        names_of(final(names)@) == names_of(old(names)@).union(names_of(more@)),
{
    let ghost start = names_of(names@);
    let ghost all = views(more@);
    let mut i: usize = 0;
    proof {
        assert(places_of(all.take(0)) =~= Set::empty());
        assert(start.union(Set::empty()) =~= start);
    }
    while i < more.len()
        invariant
            i <= more@.len(),
            all == views(more@),
            names_of(names@) == start.union(places_of(all.take(i as int))),
        decreases more@.len() - i,
    {
        add_name(names, more[i].as_str());
        proof {
            let taken = all.take(i as int);
            let further = all.take(i + 1);
            let added = place_of(more@[i as int]@);
            assert(all[i as int] == more@[i as int]@);
            assert forall|place: Place| #[trigger]
                places_of(further).contains(place) <==> places_of(taken).contains(place) || place
                    == added by {
                if places_of(further).contains(place) {
                    let k = choose|k: int|
                        0 <= k < further.len() && place_of(#[trigger] further[k]) == place;
                    if k < i {
                        assert(place_of(taken[k]) == place);
                    }
                }
                if places_of(taken).contains(place) {
                    let k = choose|k: int|
                        0 <= k < taken.len() && place_of(#[trigger] taken[k]) == place;
                    assert(place_of(further[k]) == place);
                }
                if place == added {
                    assert(place_of(further[i as int]) == place);
                }
            }
            assert(start.union(places_of(taken)).insert(added) =~= start.union(
                places_of(further),
            ));
        }
        i = i + 1;
    }
    proof {
        assert(all.take(i as int) =~= all);
    }
}

/// Whether two lists of paths lead to the same places.
fn same_names(a: &Vec<String>, b: &Vec<String>) -> (r: bool)
    ensures
        r == (names_of(a@) == names_of(b@)),
{
    let r = all_in(a, b) && all_in(b, a);
    proof {
        if r {
            assert(names_of(a@) =~= names_of(b@));
        }
    }
    r
}

/// Whether every place of a list is in another.
fn all_in(a: &Vec<String>, b: &Vec<String>) -> (r: bool)
    ensures
        r == names_of(a@).subset_of(names_of(b@)),
{
    let mut i: usize = 0;
    while i < a.len()
        invariant
            i <= a@.len(),
            forall|k: int| 0 <= k < i ==> names_of(b@).contains(place_of(#[trigger] views(a@)[k])),
        decreases a@.len() - i,
    {
        proof {
            assert(views(a@)[i as int] == a@[i as int]@);
            assert(names_of(a@).contains(place_of(views(a@)[i as int])));
        }
        if !has_name(b, a[i].as_str()) {
            return false;
        }
        i = i + 1;
    }
    proof {
        assert forall|place: Place| names_of(a@).contains(place) implies names_of(b@).contains(
            place,
        ) by {
            let k = choose|k: int|
                0 <= k < views(a@).len() && place_of(#[trigger] views(a@)[k]) == place;
            assert(names_of(b@).contains(place_of(views(a@)[k])));
        }
    }
    true
}

/// Whether a path is in one of some directories.
fn covered(directories: &Vec<String>, path: &str) -> (r: bool)
    ensures
        r == is_covered(names_of(directories@), path@),
{
    let mut i: usize = 0;
    while i < directories.len()
        invariant
            i <= directories@.len(),
            forall|k: int|
                0 <= k < i ==> !is_in(
                    place_of(path@),
                    place_of(#[trigger] views(directories@)[k]),
                ),
        decreases directories@.len() - i,
    {
        proof {
            assert(views(directories@)[i as int] == directories@[i as int]@);
        }
        if crate::paths::starts_with(path, directories[i].as_str()) {
            proof {
                let all = views(directories@);
                assert(names_of(directories@).contains(place_of(all[i as int])));
            }
            return true;
        }
        i = i + 1;
    }
    proof {
        if is_covered(names_of(directories@), path@) {
            let all = views(directories@);
            let directory = choose|directory: Place| #[trigger]
                names_of(directories@).contains(directory) && is_in(place_of(path@), directory);
            let k = choose|k: int| 0 <= k < all.len() && place_of(#[trigger] all[k]) == directory;
            assert(!is_in(place_of(path@), place_of(all[k])));
        }
    }
    false
}

/// What is watched.
fn paths_to_watch(
    roots: &Vec<String>,
    workspace: &str,
    manifests: &Vec<String>,
    interfaces: &Vec<String>,
) -> (paths: Vec<String>)
    ensures
        names_of(paths@) == watched_paths(roots@, workspace@, manifests@, interfaces@),
{
    let mut paths: Vec<String> = Vec::new();
    proof {
        assert(names_of(paths@) =~= Set::empty());
    }
    add_names(&mut paths, roots);
    proof {
        assert(names_of(paths@) =~= names_of(roots@));
    }
    add_name(&mut paths, workspace);
    add_names(&mut paths, manifests);
    let ghost base = names_of(paths@);
    let mut i: usize = 0;
    while i < interfaces.len()
        invariant
            i <= interfaces@.len(),
            names_of(paths@) == with_parents(base, interfaces@, i as int),
        decreases interfaces@.len() - i,
    {
        if !covered(&paths, interfaces[i].as_str()) {
            if let Some(parent) = crate::paths::parent(interfaces[i].as_str()) {
                add_name(&mut paths, parent.as_str());
            }
        }
        i = i + 1;
    }
    paths
}

/// Whether `t` is the state with what is watched brought up to date, with the
/// messages shown and the registration that is asked for.
pub open spec fn watch_updated(
    s: ServerView,
    t: Server,
    paths: Set<Place>,
    manifests: Set<Place>,
    messages: Seq<ActionView>,
    r: Option<Registration>,
) -> bool {
    let n = t.watched@.len() as int;
    if paths == places_of(s.watched) {
        t@ == s && messages.len() == 0 && r is None
    } else if !s.session.registers_watchers {
        &&& t@ == ServerView { watched: t@.watched, ..s }
        &&& names_of(t.watched@) == paths
        &&& messages == if s.watched.len() == 0 {
            seq![ActionView::ShowError(unwatched_message())]
        } else {
            seq![]
        }
        &&& r is None
    } else {
        &&& t@ == ServerView {
            session: Session { watcher_id: (s.session.watcher_id + 1) as u64, ..s.session },
            watched: t@.watched,
            ..s
        }
        &&& names_of(t.watched@) == paths
        &&& messages == outside_messages(
            t.watched@,
            manifests,
            s.workspace,
            s.session.relative_patterns,
            n,
        )
        &&& r matches Some(registration) && {
            &&& registration.id == t.session.watcher_id
            &&& registration.replaced == if s.session.watcher_id != 0 {
                Some(s.session.watcher_id)
            } else {
                None
            }
            &&& watchers_shown(registration.watchers@) == watchers_of(
                t.watched@,
                manifests,
                s.workspace,
                s.session.relative_patterns,
                n,
            )
        }
    }
}

/// Adds a message.
fn show(out: &mut Vec<Action>, message: &str)
    ensures
        shown(final(out)@) == shown(old(out)@).push(ActionView::ShowError(message@)),
{
    let ghost before = shown(out@);
    out.push(Action::ShowError(message.to_owned()));
    proof {
        assert(shown(out@) =~= before.push(ActionView::ShowError(message@)));
    }
}

impl Server {
    /// Brings what is watched up to date. Where it changed, the watchers are
    /// registered anew.
    pub fn watch_type_interfaces(
        &mut self,
        roots: &Vec<String>,
        manifests: &Vec<String>,
        interfaces: &Vec<String>,
        out: &mut Vec<Action>,
    ) -> (r: Option<Registration>)
        requires
            old(self).wf(),
            old(self).session.watcher_id < u64::MAX,
        ensures
            final(self).wf(),
            exists|messages: Seq<ActionView>| #[trigger]
                watch_updated(
                    old(self)@,
                    *final(self),
                    watched_paths(roots@, old(self).workspace@, manifests@, interfaces@),
                    names_of(manifests@),
                    messages,
                    r,
                ) && shown(final(out)@) == shown(old(out)@) + messages,
    {
        let ghost start = self@;
        let ghost shown_before = shown(out@);
        let paths = paths_to_watch(roots, self.workspace.as_str(), manifests, interfaces);
        let ghost watched = names_of(paths@);
        let ghost known = names_of(manifests@);
        proof {
            assert(views(self.watched@).len() == self.watched@.len());
        }
        if same_names(&paths, &self.watched) {
            proof {
                assert(shown_before =~= shown_before + Seq::<ActionView>::empty());
                assert(watch_updated(start, *self, watched, known, seq![], None));
            }
            return None;
        }
        if !self.session.registers_watchers {
            let ghost mut messages: Seq<ActionView> = seq![];
            if self.watched.len() == 0 {
                show(
                    out,
                    "The client cannot watch Starpls dependencies. Changes to closed files require restarting the server.",
                );
                proof {
                    messages = seq![ActionView::ShowError(unwatched_message())];
                }
            }
            self.watched = paths;
            proof {
                assert(shown(out@) =~= shown_before + messages);
                assert(self@ == (ServerView { watched: self@.watched, ..start }));
                assert(watch_updated(start, *self, watched, known, messages, None));
            }
            return None;
        }
        let watchers = self.watchers(&paths, manifests, out);
        let ghost messages = outside_messages(
            paths@,
            known,
            start.workspace,
            start.session.relative_patterns,
            paths@.len() as int,
        );
        let replaced = if self.session.watcher_id != 0 {
            Some(self.session.watcher_id)
        } else {
            None
        };
        let id: u64 = self.session.watcher_id + 1;
        self.session = Session { watcher_id: id, ..self.session };
        self.watched = paths;
        let r = Some(Registration { replaced, id, watchers });
        proof {
            assert(self@ == (ServerView {
                session: Session { watcher_id: id, ..start.session },
                watched: self@.watched,
                ..start
            }));
            assert(watch_updated(start, *self, watched, known, messages, r));
        }
        r
    }

    /// The watchers of some paths, as far as the client can have them.
    fn watchers(&self, paths: &Vec<String>, manifests: &Vec<String>, out: &mut Vec<Action>) -> (r: Vec<
        Watcher,
    >)
        ensures
            watchers_shown(r@) == watchers_of(
                paths@,
                names_of(manifests@),
                self.workspace@,
                self.session.relative_patterns,
                paths@.len() as int,
            ),
            shown(final(out)@) == shown(old(out)@) + outside_messages(
                paths@,
                names_of(manifests@),
                self.workspace@,
                self.session.relative_patterns,
                paths@.len() as int,
            ),
    {
        let ghost known = names_of(manifests@);
        let ghost relative = self.session.relative_patterns;
        let ghost shown_before = shown(out@);
        let mut r: Vec<Watcher> = Vec::new();
        let mut i: usize = 0;
        proof {
            assert(watchers_shown(r@) =~= watchers_of(paths@, known, self.workspace@, relative, 0));
            assert(shown(out@) =~= shown_before + outside_messages(
                paths@,
                known,
                self.workspace@,
                relative,
                0,
            ));
        }
        while i < paths.len()
            invariant
                i <= paths@.len(),
                known == names_of(manifests@),
                relative == self.session.relative_patterns,
                watchers_shown(r@) == watchers_of(
                    paths@,
                    known,
                    self.workspace@,
                    relative,
                    i as int,
                ),
                shown(out@) == shown_before + outside_messages(
                    paths@,
                    known,
                    self.workspace@,
                    relative,
                    i as int,
                ),
            decreases paths@.len() - i,
        {
            let ghost before = watchers_shown(r@);
            let is_manifest = has_name(manifests, paths[i].as_str());
            let watcher = watcher(paths[i].as_str(), is_manifest, self.workspace.as_str());
            if watcher.base.is_none() || self.session.relative_patterns {
                let ghost added = watcher@;
                r.push(watcher);
                proof {
                    assert(watchers_shown(r@) =~= before.push(added));
                }
            } else {
                show(
                    out,
                    "The client cannot watch external Starpls dependencies without relative-pattern support. Changes to closed files require restarting the server.",
                );
            }
            proof {
                assert(shown(out@) =~= shown_before + outside_messages(
                    paths@,
                    known,
                    self.workspace@,
                    relative,
                    i + 1,
                ));
            }
            i = i + 1;
        }
        r
    }
}

/// A file that may have changed, and what it holds now, if it is there.
#[derive(Debug)]
pub struct Change {
    pub path: String,
    pub contents: Option<Vec<u8>>,
}

/// Whether a file says what a repository depends on.
pub open spec fn is_dependency(path: Seq<char>) -> bool {
    match name_part(path) {
        Some(name) => {
            ||| name == "MODULE.bazel"@
            ||| name == "MODULE.bazel.lock"@
            ||| name == "WORKSPACE"@
            ||| name == "WORKSPACE.bazel"@
            ||| name == "WORKSPACE.bzlmod"@
            ||| name == ".bazelrc"@
            ||| name == ".bazelversion"@
            ||| has_suffix(name, ".MODULE.bazel"@)
        },
        None => false,
    }
}

/// Whether a file says what a repository depends on.
pub fn is_bazel_dependency(path: &str) -> (r: bool)
    ensures
        r == is_dependency(path@),
{
    match crate::paths::file_name(path) {
        Some(name) => {
            let name = name.as_str();
            same(name, "MODULE.bazel") || same(name, "MODULE.bazel.lock") || same(name, "WORKSPACE")
                || same(name, "WORKSPACE.bazel") || same(name, "WORKSPACE.bzlmod") || same(
                name,
                ".bazelrc",
            ) || same(name, ".bazelversion") || crate::text::ends_with(name, ".MODULE.bazel")
        },
        None => false,
    }
}

/// Whether interfaces are configured, by an option or by the manifest of the
/// workspace.
pub open spec fn has_interfaces(
    by_option: bool,
    workspace: Seq<char>,
    known: Map<Seq<char>, Option<Vec<u8>>>,
) -> bool {
    let manifest = joined(workspace, "starpls.toml"@);
    by_option || (known.contains_key(manifest) && known[manifest] is Some)
}

/// Whether a file is an input of the configuration.
pub open spec fn is_input(
    path: Seq<char>,
    workspace: Seq<char>,
    configured: bool,
    known: Map<Seq<char>, Option<Vec<u8>>>,
) -> bool {
    ||| is_dependency(path)
    ||| configured && extension_of(path) == Some("bzl"@)
    ||| same_place(path, joined(workspace, "starpls.toml"@))
    ||| known.contains_key(path)
}

/// Whether two contents are the same.
pub open spec fn same_contents(a: Option<Vec<u8>>, b: Option<Vec<u8>>) -> bool {
    match (a, b) {
        (Some(a), Some(b)) => a@ == b@,
        (None, None) => true,
        _ => false,
    }
}

/// Whether a change is one of the configuration. Inputs are known by the normal
/// texts of their paths.
pub open spec fn matters(
    inputs: Map<Seq<char>, Option<Vec<u8>>>,
    change: Change,
    workspace: Seq<char>,
    configured: bool,
    known: Map<Seq<char>, Option<Vec<u8>>>,
) -> bool {
    let path = normal_text(change.path@);
    is_input(path, workspace, configured, known) && !(inputs.contains_key(path) && same_contents(
        inputs[path],
        change.contents,
    ))
}

/// The inputs once the first changes are noticed.
pub open spec fn noticed(
    inputs: Map<Seq<char>, Option<Vec<u8>>>,
    changes: Seq<Change>,
    workspace: Seq<char>,
    configured: bool,
    known: Map<Seq<char>, Option<Vec<u8>>>,
    n: int,
) -> Map<Seq<char>, Option<Vec<u8>>>
    decreases n,
{
    if n <= 0 {
        inputs
    } else {
        let before = noticed(inputs, changes, workspace, configured, known, n - 1);
        let change = changes[n - 1];
        if matters(before, change, workspace, configured, known) {
            before.insert(normal_text(change.path@), change.contents)
        } else {
            before
        }
    }
}

/// Whether one of the first changes is one of the configuration.
pub open spec fn some_matter(
    inputs: Map<Seq<char>, Option<Vec<u8>>>,
    changes: Seq<Change>,
    workspace: Seq<char>,
    configured: bool,
    known: Map<Seq<char>, Option<Vec<u8>>>,
    n: int,
) -> bool
    decreases n,
{
    n > 0 && (some_matter(inputs, changes, workspace, configured, known, n - 1) || matters(
        noticed(inputs, changes, workspace, configured, known, n - 1),
        changes[n - 1],
        workspace,
        configured,
        known,
    ))
}

/// Whether a file is read when Bazel starts.
pub open spec fn is_startup(path: Seq<char>, workspace: Seq<char>) -> bool {
    same_place(path, joined(workspace, ".bazelrc"@)) || same_place(
        path,
        joined(workspace, ".bazelversion"@),
    )
}

/// Whether one of the first changes needs another server.
pub open spec fn some_restart(
    inputs: Map<Seq<char>, Option<Vec<u8>>>,
    changes: Seq<Change>,
    workspace: Seq<char>,
    configured: bool,
    known: Map<Seq<char>, Option<Vec<u8>>>,
    n: int,
) -> bool
    decreases n,
{
    n > 0 && (some_restart(inputs, changes, workspace, configured, known, n - 1) || (matters(
        noticed(inputs, changes, workspace, configured, known, n - 1),
        changes[n - 1],
        workspace,
        configured,
        known,
    ) && is_startup(normal_text(changes[n - 1].path@), workspace)))
}

/// Whether two contents are the same.
fn contents_same(a: &Option<Vec<u8>>, b: &Option<Vec<u8>>) -> (r: bool)
    ensures
        r == same_contents(*a, *b),
{
    match (a, b) {
        (Some(a), Some(b)) => bytes_same(a, b),
        (None, None) => true,
        _ => false,
    }
}

/// Whether two lists of bytes are the same.
fn bytes_same(a: &Vec<u8>, b: &Vec<u8>) -> (r: bool)
    ensures
        r == (a@ == b@),
{
    if a.len() != b.len() {
        return false;
    }
    let mut i: usize = 0;
    while i < a.len()
        invariant
            i <= a@.len() == b@.len(),
            forall|k: int| 0 <= k < i ==> a@[k] == b@[k],
        decreases a@.len() - i,
    {
        if a[i] != b[i] {
            return false;
        }
        i = i + 1;
    }
    proof {
        assert(a@ =~= b@);
    }
    true
}

/// The state once changes are noticed, before the configuration is loaded again.
pub open spec fn changes_noticed(
    s: ServerView,
    changes: Seq<Change>,
    known: Map<Seq<char>, Option<Vec<u8>>>,
    n: int,
) -> ServerView {
    let configured = has_interfaces(s.session.interfaces_configured, s.workspace, known);
    let t = ServerView {
        inputs: noticed(s.inputs, changes, s.workspace, configured, known, n),
        ..s
    };
    if some_restart(s.inputs, changes, s.workspace, configured, known, n) {
        ServerView { session: Session { restart_required: true, ..t.session }, ..t }
    } else {
        t
    }
}

impl Server {
    /// Notices changes of files. Where one is of the configuration, that is
    /// loaded again.
    pub fn configuration_changed(
        &mut self,
        changes: Vec<Change>,
        known: &NameMap<Option<Vec<u8>>>,
        out: &mut Vec<Action>,
    )
        requires
            old(self).wf(),
            old(self).session.revision < u64::MAX,
        ensures
            final(self).wf(),
            ({
                let s = old(self)@;
                let n = changes@.len() as int;
                let configured = has_interfaces(
                    s.session.interfaces_configured,
                    s.workspace,
                    known@,
                );
                let t = changes_noticed(s, changes@, known@, n);
                if some_matter(s.inputs, changes@, s.workspace, configured, known@, n) {
                    &&& final(self)@ == reloaded(t)
                    &&& shown(final(out)@) == shown(old(out)@) + reload_actions(t)
                } else {
                    &&& final(self)@ == t
                    &&& shown(final(out)@) == shown(old(out)@)
                }
            }),
    {
        let changed = self.notice(changes, known);
        if changed {
            self.reload_configuration(out);
        }
    }

    /// Notices changes of files, and says whether one is of the configuration.
    fn notice(&mut self, changes: Vec<Change>, known: &NameMap<Option<Vec<u8>>>) -> (changed: bool)
        requires
            old(self).wf(),
        ensures
            final(self).wf(),
            final(self)@ == changes_noticed(
                old(self)@,
                changes@,
                known@,
                changes@.len() as int,
            ),
            changed == some_matter(
                old(self)@.inputs,
                changes@,
                old(self).workspace@,
                has_interfaces(
                    old(self).session.interfaces_configured,
                    old(self).workspace@,
                    known@,
                ),
                known@,
                changes@.len() as int,
            ),
    {
        let ghost start = self@;
        let ghost all = changes@;
        let manifest = crate::paths::join(self.workspace.as_str(), "starpls.toml");
        let in_manifest = match known.get(manifest.as_str()) {
            Some(contents) => contents.is_some(),
            None => false,
        };
        let configured = self.session.interfaces_configured || in_manifest;
        let (changed, restart) = self.notice_all(changes, configured, known);
        proof {
            assert(configured == has_interfaces(
                start.session.interfaces_configured,
                start.workspace,
                known@,
            ));
        }
        if restart {
            self.require_restart();
        }
        changed
    }

    /// Notices changes of files, and says whether one is of the configuration, and
    /// of that with which Bazel starts.
    fn notice_all(
        &mut self,
        changes: Vec<Change>,
        configured: bool,
        known: &NameMap<Option<Vec<u8>>>,
    ) -> (r: (bool, bool))
        requires
            old(self).wf(),
        ensures
            final(self).wf(),
            final(self)@ == (ServerView { inputs: final(self)@.inputs, ..old(self)@ }),
            final(self)@.inputs == noticed(
                old(self)@.inputs,
                changes@,
                old(self).workspace@,
                configured,
                known@,
                changes@.len() as int,
            ),
            r.0 == some_matter(
                old(self)@.inputs,
                changes@,
                old(self).workspace@,
                configured,
                known@,
                changes@.len() as int,
            ),
            r.1 == some_restart(
                old(self)@.inputs,
                changes@,
                old(self).workspace@,
                configured,
                known@,
                changes@.len() as int,
            ),
    {
        let ghost start = self@;
        let ghost all = changes@;
        let mut rest = changes;
        let mut changed = false;
        let mut restart = false;
        let ghost mut n: int = 0;
        proof {
            assert(all.skip(0) =~= all);
        }
        while rest.len() > 0
            invariant
                0 <= n <= all.len(),
                rest@ == all.skip(n),
                self.wf(),
                self@ == (ServerView { inputs: self@.inputs, ..start }),
                self@.inputs == noticed(start.inputs, all, start.workspace, configured, known@, n),
                restart == some_restart(start.inputs, all, start.workspace, configured, known@, n),
                changed == some_matter(start.inputs, all, start.workspace, configured, known@, n),
            decreases rest@.len(),
        {
            let change = rest.remove(0);
            proof {
                assert(change == all[n]);
                assert(rest@ =~= all.skip(n + 1));
            }
            let (matters, starts) = self.notice_one(change, configured, known);
            changed = changed || matters;
            restart = restart || starts;
            proof {
                n = n + 1;
            }
        }
        (changed, restart)
    }

    /// Notices a change, and says whether it is one of the configuration, and of
    /// that with which Bazel starts.
    fn notice_one(
        &mut self,
        change: Change,
        configured: bool,
        known: &NameMap<Option<Vec<u8>>>,
    ) -> (r: (bool, bool))
        requires
            old(self).wf(),
        ensures
            final(self).wf(),
            final(self)@ == (ServerView { inputs: final(self)@.inputs, ..old(self)@ }),
            r.0 == matters(
                old(self)@.inputs,
                change,
                old(self).workspace@,
                configured,
                known@,
            ),
            r.1 == (r.0 && is_startup(normal_text(change.path@), old(self).workspace@)),
            final(self)@.inputs == if r.0 {
                old(self)@.inputs.insert(normal_text(change.path@), change.contents)
            } else {
                old(self)@.inputs
            },
    {
        let normal = crate::paths::normal(change.path.as_str());
        let path = normal.as_str();
        let manifest = crate::paths::join(self.workspace.as_str(), "starpls.toml");
        let is_bzl = match crate::paths::extension(path) {
            Some(extension) => same(extension.as_str(), "bzl"),
            None => false,
        };
        let is_input = is_bazel_dependency(path) || (configured && is_bzl)
            || crate::paths::same_path(path, manifest.as_str()) || known.contains_key(path);
        let is_known = match self.inputs.get(path) {
            Some(contents) => contents_same(contents, &change.contents),
            None => false,
        };
        if !is_input || is_known {
            return (false, false);
        }
        let rc = crate::paths::join(self.workspace.as_str(), ".bazelrc");
        let version = crate::paths::join(self.workspace.as_str(), ".bazelversion");
        let starts = crate::paths::same_path(path, rc.as_str()) || crate::paths::same_path(
            path,
            version.as_str(),
        );
        self.inputs.insert(normal, change.contents);
        (true, starts)
    }

    /// Takes the inputs of the loader over, those that are not known yet.
    pub fn learn_inputs(&mut self, inputs: NameMap<Option<Vec<u8>>>)
        requires
            old(self).wf(),
        ensures
            final(self).wf(),
            final(self)@ == (ServerView {
                inputs: inputs@.union_prefer_right(old(self)@.inputs),
                ..old(self)@
            }),
    {
        let ghost start = self@;
        let ghost all = inputs.entries@;
        let mut rest = inputs.entries;
        let ghost mut n: int = all.len() as int;
        proof {
            assert(all.take(n) =~= all);
            assert(inputs@.union_prefer_right(start.inputs) =~= map_of(
                all.take(n),
            ).union_prefer_right(self@.inputs));
        }
        while rest.len() > 0
            invariant
                0 <= n <= all.len(),
                rest@ == all.take(n),
                self.wf(),
                self@ == (ServerView { inputs: self@.inputs, ..start }),
                map_of(all.take(n)).union_prefer_right(self@.inputs) == inputs@.union_prefer_right(
                    start.inputs,
                ),
            decreases rest@.len(),
        {
            let ghost before = self@.inputs;
            let at = rest.len() - 1;
            let entry = rest.remove(at);
            proof {
                let taken = all.take(n);
                assert(entry == taken.last());
                assert(taken.drop_last() =~= all.take(n - 1));
                assert(rest@ =~= all.take(n - 1));
            }
            if !self.inputs.contains_key(entry.0.as_str()) {
                self.inputs.insert(entry.0, entry.1);
            }
            proof {
                assert(map_of(all.take(n - 1)).union_prefer_right(self@.inputs) =~= map_of(
                    all.take(n),
                ).union_prefer_right(before));
                n = n - 1;
            }
        }
        proof {
            assert(all.take(0) =~= Seq::empty());
            assert(self@.inputs =~= map_of(all.take(0)).union_prefer_right(self@.inputs));
        }
    }
}

/// The message for watchers that a client refused.
pub open spec fn refused_message(error: Seq<char>) -> Seq<char> {
    "Cannot watch type interfaces: "@ + error
        + ". Changes to closed files will not be reported."@
}

/// Whether a path leads to a build file.
pub open spec fn is_build_file(path: Seq<char>) -> bool {
    name_part(path) == Some("BUILD"@) || name_part(path) == Some("BUILD.bazel"@)
}

/// The state once changes are noticed, and the configuration loaded again where
/// one is of it.
pub open spec fn changes_handled(
    s: ServerView,
    changes: Seq<Change>,
    known: Map<Seq<char>, Option<Vec<u8>>>,
) -> ServerView {
    let n = changes.len() as int;
    let configured = has_interfaces(s.session.interfaces_configured, s.workspace, known);
    let t = changes_noticed(s, changes, known, n);
    if some_matter(s.inputs, changes, s.workspace, configured, known, n) {
        reloaded(t)
    } else {
        t
    }
}

/// What is done once changes are noticed.
pub open spec fn change_actions(
    s: ServerView,
    changes: Seq<Change>,
    known: Map<Seq<char>, Option<Vec<u8>>>,
) -> Seq<ActionView> {
    let n = changes.len() as int;
    let configured = has_interfaces(s.session.interfaces_configured, s.workspace, known);
    if some_matter(s.inputs, changes, s.workspace, configured, known, n) {
        reload_actions(changes_noticed(s, changes, known, n))
    } else {
        seq![]
    }
}

impl Server {
    /// Handles the answer to a registration of watchers. Once they are there, what
    /// changed before is noticed; an answer to an earlier registration does not
    /// count.
    pub fn complete_request(
        &mut self,
        id: u64,
        error: Option<String>,
        changes: Vec<Change>,
        known: &NameMap<Option<Vec<u8>>>,
        out: &mut Vec<Action>,
    )
        requires
            old(self).wf(),
            old(self).session.revision < u64::MAX,
        ensures
            final(self).wf(),
            ({
                let before = shown(old(out)@);
                let after = shown(final(out)@);
                if id != old(self).session.watcher_id {
                    *final(self) == *old(self) && after == before
                } else {
                    match error {
                        Some(error) => {
                            &&& *final(self) == *old(self)
                            &&& after == before.push(ActionView::ShowError(refused_message(error@)))
                        },
                        None => {
                            &&& final(self)@ == invalidated(
                                changes_handled(old(self)@, changes@, known@),
                            )
                            &&& after == (before + change_actions(
                                old(self)@,
                                changes@,
                                known@,
                            )).push(ActionView::InvalidateLoads)
                        },
                    }
                }
            }),
    {
        if id != self.session.watcher_id {
            return;
        }
        match error {
            Some(error) => {
                let message = crate::text::join3(
                    "Cannot watch type interfaces: ",
                    error.as_str(),
                    ". Changes to closed files will not be reported.",
                );
                show(out, message.as_str());
            },
            None => {
                let ghost before = shown(out@);
                let ghost start = self@;
                let ghost given = changes@;
                self.configuration_changed(changes, known, out);
                proof {
                    assert(self@ == changes_handled(start, given, known@));
                    assert(shown(out@) =~= before + change_actions(start, given, known@));
                }
                self.invalidate_loads(out);
                self.invalidate_diagnostics();
            },
        }
    }

    /// Handles changes that a client noticed.
    pub fn did_change_watched_files(
        &mut self,
        changes: Vec<Change>,
        known: &NameMap<Option<Vec<u8>>>,
        out: &mut Vec<Action>,
    )
        requires
            old(self).wf(),
            old(self).session.revision < u64::MAX,
        ensures
            final(self).wf(),
            final(self)@ == invalidated(changes_handled(old(self)@, changes@, known@)),
            shown(final(out)@) == shown(old(out)@) + change_actions(old(self)@, changes@, known@),
    {
        let ghost before = shown(out@);
        let ghost start = self@;
        let ghost given = changes@;
        self.configuration_changed(changes, known, out);
        proof {
            assert(self@ == changes_handled(start, given, known@));
            assert(shown(out@) =~= before + change_actions(start, given, known@));
        }
        self.invalidate_diagnostics();
    }

    /// Handles a document that was saved. A build file may have new targets.
    pub fn did_save_text_document(
        &mut self,
        change: Change,
        known: &NameMap<Option<Vec<u8>>>,
        out: &mut Vec<Action>,
    )
        requires
            old(self).wf(),
            old(self).session.revision < u64::MAX,
        ensures
            final(self).wf(),
            ({
                let s = old(self)@;
                let t = if is_build_file(change.path@) {
                    targets_queried(s)
                } else {
                    s
                };
                let asked = if is_build_file(change.path@) {
                    target_actions(s)
                } else {
                    seq![]
                };
                &&& final(self)@ == changes_handled(t, seq![change], known@)
                &&& shown(final(out)@) == shown(old(out)@) + asked + change_actions(
                    t,
                    seq![change],
                    known@,
                )
            }),
    {
        let ghost before = shown(out@);
        let name = crate::paths::file_name(change.path.as_str());
        let is_build = match name {
            Some(name) => same(name.as_str(), "BUILD") || same(name.as_str(), "BUILD.bazel"),
            None => false,
        };
        if is_build {
            self.refresh_all_workspace_targets(out);
        } else {
            proof {
                assert(before =~= before + Seq::<ActionView>::empty());
            }
        }
        let ghost middle = shown(out@);
        let ghost start = self@;
        let mut changes: Vec<Change> = Vec::new();
        let ghost given = change;
        changes.push(change);
        proof {
            assert(changes@ =~= seq![given]);
        }
        self.configuration_changed(changes, known, out);
        proof {
            assert(self@ == changes_handled(start, seq![given], known@));
            assert(shown(out@) =~= middle + change_actions(start, seq![given], known@));
        }
    }

    /// Handles a document that was closed. One that was displaced may fit again
    /// once it is opened anew.
    pub fn did_close_text_document(&mut self, out: &mut Vec<Action>)
        requires
            old(self).wf(),
            old(self).session.revision < u64::MAX,
        ensures
            final(self).wf(),
            final(self)@ == invalidated(
                if old(self).session.needs_reopen {
                    reloaded(old(self)@)
                } else {
                    old(self)@
                },
            ),
            shown(final(out)@) == shown(old(out)@) + if old(self).session.needs_reopen {
                reload_actions(old(self)@)
            } else {
                seq![]
            },
    {
        let ghost before = shown(out@);
        if self.session.needs_reopen {
            self.reload_configuration(out);
        } else {
            proof {
                assert(before =~= before + Seq::<ActionView>::empty());
            }
        }
        self.invalidate_diagnostics();
    }

    /// Drops what was loaded.
    fn invalidate_loads(&self, out: &mut Vec<Action>)
        ensures
            shown(final(out)@) == shown(old(out)@).push(ActionView::InvalidateLoads),
    {
        let ghost before = shown(out@);
        out.push(Action::InvalidateLoads);
        proof {
            assert(shown(out@) =~= before.push(ActionView::InvalidateLoads));
        }
    }

    /// How a document of a path is opened: in its dialect, with what is known of
    /// it. A path without a file name is not.
    pub fn opened_as(&self, path: &str) -> (r: Option<(Dialect, Option<FileInfo>)>)
        ensures
            r == opening_of(self.workspace@, path@),
    {
        opening(self.workspace.as_str(), path)
    }

    /// Whether the configuration is there, and nothing of it is under way.
    pub open spec fn configuration_ready(self) -> bool {
        self.session.complete && !self.session.refreshing && !self.session.pending
            && self.loader.ready()
    }

    /// Whether references and names in the whole workspace can be found: not before
    /// the configuration and every mapping are there.
    pub fn ensure_workspace_ready(&self) -> (r: Result<(), String>)
        ensures
            r is Ok == (self.configuration_ready() && forall|name: Seq<char>| #[trigger]
                self.loader.repository_mappings@.contains_key(name)
                    ==> self.loader.repository_mappings@[name] is Ready),
            r is Err ==> r->Err_0@
                == "Bazel configuration or repository mappings are not ready for workspace references or rename"@,
    {
        let ready = self.session.complete && !self.session.refreshing && !self.session.pending
            && self.loader.is_ready();
        if !ready || !self.loader.mappings_ready() {
            return Err(
                "Bazel configuration or repository mappings are not ready for workspace references or rename".to_owned(),
            );
        }
        Ok(())
    }
}

} // verus!
