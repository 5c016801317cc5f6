//! What holds of the files that are watched, and of changes that are noticed.

use vstd::prelude::*;

use crate::common::{APIContext, Dialect};
use crate::paths::{joined, name_part, normal_text, parent_of, path_parts, same_place};
use crate::source_kind::kind_of;
use crate::server::{ActionView, Server, ServerView};
use crate::watch::{
    change_actions, changes_handled, changes_noticed, escaped, has_interfaces, is_covered,
    is_dependency, is_in, is_input, is_special, is_startup, matters, names_of, noticed,
    outside_message, outside_messages, place_of, same_contents, some_matter, some_restart,
    watch_updated, watched_paths, watcher_of, watchers_of, with_parents, Change, Place,
    Registration,
};

verus! {

/// A file says what a repository depends on exactly if it is opened as that of a
/// module or a workspace, or is the lock file of a module, or tells Bazel how to start.
pub proof fn module_and_workspace_files_are_dependencies(workspace: Seq<char>, path: Seq<char>)
    ensures
        is_dependency(path) <==> kind_of(workspace, path) == Some(
            (Dialect::Bazel, Some(APIContext::Module)),
        ) || kind_of(workspace, path) == Some((Dialect::Bazel, Some(APIContext::Workspace)))
            || name_part(path) == Some("MODULE.bazel.lock"@) || name_part(path) == Some(
            ".bazelrc"@,
        ) || name_part(path) == Some(".bazelversion"@),
{
    crate::file_laws::module_files(workspace, path);
    crate::file_laws::workspace_files(workspace, path);
}

/// The name that a pattern of plain characters, and of special ones in brackets, stands
/// for.
pub open spec fn stands_for(pattern: Seq<char>) -> Seq<char>
    decreases pattern.len(),
{
    if pattern.len() == 0 {
        seq![]
    } else if pattern.last() == ']' && pattern.len() >= 3 {
        stands_for(pattern.take(pattern.len() - 3)).push(pattern[pattern.len() - 2])
    } else {
        stands_for(pattern.drop_last()).push(pattern.last())
    }
}

/// The pattern for a name stands for that name, so for different names the patterns
/// differ.
pub proof fn a_pattern_stands_for_its_name(name: Seq<char>)
    ensures
        stands_for(escaped(name)) == name,
    decreases name.len(),
{
    if name.len() > 0 {
        let rest = name.drop_last();
        let before = escaped(rest);
        let pattern = escaped(name);
        a_pattern_stands_for_its_name(rest);
        assert(name =~= rest.push(name.last()));
        if is_special(name.last()) {
            assert(pattern.last() == ']');
            assert(pattern.take(pattern.len() - 3) =~= before);
            assert(pattern[pattern.len() - 2] == name.last());
        } else {
            assert(pattern.drop_last() =~= before);
        }
    } else {
        assert(name =~= seq![]);
    }
}

/// A change matters exactly if its file is an input of the configuration and does not
/// hold what it was known to hold.
pub proof fn only_changed_inputs_matter(
    inputs: Map<Seq<char>, Option<Vec<u8>>>,
    change: Change,
    workspace: Seq<char>,
    configured: bool,
    known: Map<Seq<char>, Option<Vec<u8>>>,
)
    ensures
        ({
            let path = normal_text(change.path@);
            &&& !is_input(path, workspace, configured, known) ==> !matters(
                inputs,
                change,
                workspace,
                configured,
                known,
            )
            &&& is_input(path, workspace, configured, known) && !inputs.contains_key(path)
                ==> matters(inputs, change, workspace, configured, known)
            &&& inputs.contains_key(path) && same_contents(inputs[path], change.contents)
                ==> !matters(inputs, change, workspace, configured, known)
            &&& is_input(path, workspace, configured, known) && inputs.contains_key(path)
                && !same_contents(inputs[path], change.contents) ==> matters(
                inputs,
                change,
                workspace,
                configured,
                known,
            )
            &&& is_dependency(path) ==> is_input(path, workspace, configured, known)
            &&& same_place(path, joined(workspace, "starpls.toml"@)) ==> is_input(
                path,
                workspace,
                configured,
                known,
            )
            &&& known.contains_key(path) ==> is_input(path, workspace, configured, known)
        }),
{
}

/// A change is noticed once: the same change again does not matter.
pub proof fn a_change_is_noticed_once(
    inputs: Map<Seq<char>, Option<Vec<u8>>>,
    changes: Seq<Change>,
    workspace: Seq<char>,
    configured: bool,
    known: Map<Seq<char>, Option<Vec<u8>>>,
    n: int,
)
    requires
        0 < n <= changes.len(),
    ensures
        !matters(
            noticed(inputs, changes, workspace, configured, known, n),
            changes[n - 1],
            workspace,
            configured,
            known,
        ),
{
}

/// Changes of which none matters change nothing, and are told so.
pub proof fn what_does_not_matter_is_not_noticed(
    inputs: Map<Seq<char>, Option<Vec<u8>>>,
    changes: Seq<Change>,
    workspace: Seq<char>,
    configured: bool,
    known: Map<Seq<char>, Option<Vec<u8>>>,
    n: int,
)
    requires
        0 <= n <= changes.len(),
    ensures
        !some_matter(inputs, changes, workspace, configured, known, n) <==> forall|k: int|
            0 <= k < n ==> !matters(inputs, #[trigger] changes[k], workspace, configured, known),
        !some_matter(inputs, changes, workspace, configured, known, n) ==> noticed(
            inputs,
            changes,
            workspace,
            configured,
            known,
            n,
        ) == inputs && !some_restart(inputs, changes, workspace, configured, known, n),
    decreases n,
{
    if n > 0 {
        what_does_not_matter_is_not_noticed(
            inputs,
            changes,
            workspace,
            configured,
            known,
            n - 1,
        );
        if some_matter(inputs, changes, workspace, configured, known, n) {
            if !some_matter(inputs, changes, workspace, configured, known, n - 1) {
                assert(matters(inputs, changes[n - 1], workspace, configured, known));
            } else {
                let k = choose|k: int|
                    0 <= k < n - 1 && matters(
                        inputs,
                        #[trigger] changes[k],
                        workspace,
                        configured,
                        known,
                    );
                assert(matters(inputs, changes[k], workspace, configured, known));
            }
        }
    }
}

/// Another server is needed for a change that matters of a file with which Bazel starts,
/// `.bazelrc` or `.bazelversion` of the workspace.
pub proof fn startup_files_need_a_restart(
    inputs: Map<Seq<char>, Option<Vec<u8>>>,
    change: Change,
    workspace: Seq<char>,
    configured: bool,
    known: Map<Seq<char>, Option<Vec<u8>>>,
)
    ensures
        some_restart(inputs, seq![change], workspace, configured, known, 1) <==> matters(
            inputs,
            change,
            workspace,
            configured,
            known,
        ) && (same_place(normal_text(change.path@), joined(workspace, ".bazelrc"@)) || same_place(
            normal_text(change.path@),
            joined(workspace, ".bazelversion"@),
        )),
{
    let changes = seq![change];
    assert(changes[0] == change);
    assert(noticed(inputs, changes, workspace, configured, known, 0) == inputs);
    assert(!some_restart(inputs, changes, workspace, configured, known, 0));
    assert(some_restart(inputs, changes, workspace, configured, known, 1) == (matters(
        inputs,
        change,
        workspace,
        configured,
        known,
    ) && is_startup(normal_text(change.path@), workspace)));
}

proof fn parents_stay(directories: Set<Place>, files: Seq<String>, n: int, place: Place)
    requires
        directories.contains(place),
    ensures
        with_parents(directories, files, n).contains(place),
    decreases n,
{
    if n > 0 {
        parents_stay(directories, files, n - 1, place);
    }
}

/// A file is in the directory that it stands in.
pub proof fn a_file_is_in_its_directory(path: Seq<char>)
    ensures
        parent_of(path) matches Some(directory) ==> is_in(place_of(path), place_of(directory)),
{
    crate::file_laws::a_parent_has_all_parts_but_the_last(path);
    crate::file_laws::a_parent_starts_like_its_path(path);
    if let Some(directory) = parent_of(path) {
        let parts = path_parts(path);
        assert(parts.take(parts.len() - 1) =~= parts.drop_last());
    }
}

/// Every interface file stands in a directory that is watched, and the roots, the
/// workspace and the manifests are watched themselves.
pub proof fn interfaces_are_watched(
    roots: Seq<String>,
    workspace: Seq<char>,
    manifests: Seq<String>,
    interfaces: Seq<String>,
    k: int,
)
    requires
        0 <= k < interfaces.len(),
        parent_of(interfaces[k]@) is Some,
    ensures
        is_covered(watched_paths(roots, workspace, manifests, interfaces), interfaces[k]@),
        watched_paths(roots, workspace, manifests, interfaces).contains(place_of(workspace)),
        forall|place: Place| #[trigger]
            names_of(roots).contains(place) || names_of(manifests).contains(place)
                ==> watched_paths(roots, workspace, manifests, interfaces).contains(place),
{
    let start = names_of(roots).insert(place_of(workspace)).union(names_of(manifests));
    let n = interfaces.len() as int;
    parents_stay(start, interfaces, n, place_of(workspace));
    assert forall|place: Place| #[trigger]
        names_of(roots).contains(place) || names_of(manifests).contains(place) implies watched_paths(
        roots,
        workspace,
        manifests,
        interfaces,
    ).contains(place) by {
        parents_stay(start, interfaces, n, place);
    }
    file_is_covered(start, interfaces, n, k);
}

proof fn file_is_covered(directories: Set<Place>, files: Seq<String>, n: int, k: int)
    requires
        0 <= k < n <= files.len(),
        parent_of(files[k]@) is Some,
    ensures
        is_covered(with_parents(directories, files, n), files[k]@),
    decreases n,
{
    let before = with_parents(directories, files, n - 1);
    let now = with_parents(directories, files, n);
    if k < n - 1 {
        file_is_covered(directories, files, n - 1, k);
        let directory = choose|directory: Place| #[trigger]
            before.contains(directory) && is_in(place_of(files[k]@), directory);
        assert(now.contains(directory));
    } else if !is_covered(before, files[k]@) {
        let parent = parent_of(files[k]@)->0;
        a_file_is_in_its_directory(files[k]@);
        assert(now.contains(place_of(parent)));
    }
}

/// A manifest is watched by its own name in its directory, and a directory by what
/// matters anywhere below it.
pub proof fn manifests_are_watched_by_name(path: Seq<char>, workspace: Seq<char>, name: Seq<char>)
    requires
        name_part(path) == Some(name),
        parent_of(path) is Some,
    ensures
        stands_for(watcher_of(path, true, workspace).pattern) == name,
        watcher_of(path, true, workspace).base == if same_place(parent_of(path)->0, workspace) {
            None
        } else {
            parent_of(path)
        },
        watcher_of(path, false, workspace).base == if same_place(path, workspace) {
            None
        } else {
            Some(path)
        },
{
    a_pattern_stands_for_its_name(name);
}

/// Changes of which none matters leave the server as it is, and nothing is done.
pub proof fn other_changes_do_nothing(
    s: ServerView,
    changes: Seq<Change>,
    known: Map<Seq<char>, Option<Vec<u8>>>,
)
    requires
        forall|k: int|
            0 <= k < changes.len() ==> !matters(
                s.inputs,
                #[trigger] changes[k],
                s.workspace,
                has_interfaces(s.session.interfaces_configured, s.workspace, known),
                known,
            ),
    ensures
        changes_handled(s, changes, known) == s,
        change_actions(s, changes, known).len() == 0,
{
    let configured = has_interfaces(s.session.interfaces_configured, s.workspace, known);
    what_does_not_matter_is_not_noticed(
        s.inputs,
        changes,
        s.workspace,
        configured,
        known,
        changes.len() as int,
    );
}

/// A change that matters outdates the configuration: there is a new revision, nothing of
/// the old one counts, and a new one is prepared unless one is under way or Bazel has to
/// start anew.
pub proof fn changes_of_the_configuration_reload_it(
    s: ServerView,
    changes: Seq<Change>,
    known: Map<Seq<char>, Option<Vec<u8>>>,
    k: int,
)
    requires
        0 <= k < changes.len(),
        s.session.revision < u64::MAX,
        matters(
            s.inputs,
            changes[k],
            s.workspace,
            has_interfaces(s.session.interfaces_configured, s.workspace, known),
            known,
        ),
    ensures
        changes_handled(s, changes, known).session.revision == s.session.revision + 1,
        !changes_handled(s, changes, known).session.complete,
        changes_handled(s, changes, known).loader.paused,
        change_actions(s, changes, known).len() > 0,
        change_actions(s, changes, known)[0] == ActionView::ClearInterfaces,
        !s.session.refreshing && !changes_noticed(
            s,
            changes,
            known,
            changes.len() as int,
        ).session.restart_required ==> change_actions(s, changes, known).last()
            == ActionView::PrepareConfiguration((s.session.revision + 1) as u64),
{
    reveal(crate::server::reloaded);
    reveal(crate::server::reload_actions);
    reveal(crate::server::refresh_started);
    reveal(crate::server::refresh_actions);
    let configured = has_interfaces(s.session.interfaces_configured, s.workspace, known);
    let n = changes.len() as int;
    what_does_not_matter_is_not_noticed(
        s.inputs,
        changes,
        s.workspace,
        configured,
        known,
        n,
    );
    assert(some_matter(s.inputs, changes, s.workspace, configured, known, n));
    let t = changes_noticed(s, changes, known, n);
    let actions = change_actions(s, changes, known);
    assert(actions == crate::server::reload_actions(t));
    assert(actions[0] == ActionView::ClearInterfaces);
}

/// Interfaces are configured by an option, or by a manifest in the workspace that is
/// there.
pub proof fn interfaces_are_configured_by_manifest(
    by_option: bool,
    workspace: Seq<char>,
    known: Map<Seq<char>, Option<Vec<u8>>>,
)
    ensures
        has_interfaces(by_option, workspace, known) <==> by_option || (known.contains_key(
            joined(workspace, "starpls.toml"@),
        ) && known[joined(workspace, "starpls.toml"@)] is Some),
{
}

/// What is watched is registered anew exactly if it changed, in place of what was
/// registered before, and under a new number.
pub proof fn changed_paths_are_registered_anew(
    s: ServerView,
    t: Server,
    paths: Set<Place>,
    manifests: Set<Place>,
    messages: Seq<ActionView>,
    r: Option<Registration>,
)
    requires
        watch_updated(s, t, paths, manifests, messages, r),
        s.session.registers_watchers,
        s.session.watcher_id < u64::MAX,
    ensures
        r is Some <==> paths != crate::watch::places_of(s.watched),
        r matches Some(registration) ==> registration.id == s.session.watcher_id + 1
            && registration.id == t.session.watcher_id && (registration.replaced
            == if s.session.watcher_id != 0 {
            Some(s.session.watcher_id)
        } else {
            None
        }),
        r is Some ==> names_of(t.watched@) == paths,
        r is None ==> t@ == s && messages.len() == 0,
{
    assert(t@.session == t.session);
}

/// A client that knows relative patterns watches each path, in order, and is told of
/// none.
pub proof fn relative_patterns_reach_each_path(
    paths: Seq<String>,
    manifests: Set<Place>,
    workspace: Seq<char>,
    n: int,
)
    requires
        0 <= n <= paths.len(),
    ensures
        watchers_of(paths, manifests, workspace, true, n).len() == n,
        forall|i: int|
            0 <= i < n ==> #[trigger] watchers_of(paths, manifests, workspace, true, n)[i]
                == watcher_of(paths[i]@, manifests.contains(place_of(paths[i]@)), workspace),
        outside_messages(paths, manifests, workspace, true, n).len() == 0,
    decreases n,
{
    if n > 0 {
        relative_patterns_reach_each_path(paths, manifests, workspace, n - 1);
    }
}

/// Each path is either watched or told to the client as one that is not, by the
/// same words.
pub proof fn paths_are_watched_or_told(
    paths: Seq<String>,
    manifests: Set<Place>,
    workspace: Seq<char>,
    relative: bool,
    n: int,
)
    requires
        0 <= n <= paths.len(),
    ensures
        watchers_of(paths, manifests, workspace, relative, n).len() + outside_messages(
            paths,
            manifests,
            workspace,
            relative,
            n,
        ).len() == n,
        forall|i: int|
            0 <= i < outside_messages(paths, manifests, workspace, relative, n).len()
                ==> #[trigger] outside_messages(paths, manifests, workspace, relative, n)[i]
                == ActionView::ShowError(outside_message()),
    decreases n,
{
    if n > 0 {
        paths_are_watched_or_told(paths, manifests, workspace, relative, n - 1);
    }
}

/// A client that does not know relative patterns watches exactly the paths that have
/// no base of their own.
pub proof fn plain_patterns_stay_in_the_workspace(
    paths: Seq<String>,
    manifests: Set<Place>,
    workspace: Seq<char>,
    n: int,
)
    requires
        0 <= n <= paths.len(),
    ensures
        forall|k: int|
            0 <= k < watchers_of(paths, manifests, workspace, false, n).len() ==> (
            #[trigger] watchers_of(paths, manifests, workspace, false, n)[k]).base is None,
        forall|i: int|
            0 <= i < n && (#[trigger] watcher_of(
                paths[i]@,
                manifests.contains(place_of(paths[i]@)),
                workspace,
            )).base is None ==> watchers_of(paths, manifests, workspace, false, n).contains(
                watcher_of(paths[i]@, manifests.contains(place_of(paths[i]@)), workspace),
            ),
    decreases n,
{
    if n > 0 {
        plain_patterns_stay_in_the_workspace(paths, manifests, workspace, n - 1);
        let rest = watchers_of(paths, manifests, workspace, false, n - 1);
        let all = watchers_of(paths, manifests, workspace, false, n);
        assert forall|i: int|
            0 <= i < n && (#[trigger] watcher_of(
                paths[i]@,
                manifests.contains(place_of(paths[i]@)),
                workspace,
            )).base is None implies all.contains(
            watcher_of(paths[i]@, manifests.contains(place_of(paths[i]@)), workspace),
        ) by {
            let w = watcher_of(paths[i]@, manifests.contains(place_of(paths[i]@)), workspace);
            if i < n - 1 {
                let k = choose|k: int| 0 <= k < rest.len() && rest[k] == w;
                assert(all[k] == w);
            } else {
                assert(all.last() == w);
            }
        }
    }
}

} // verus!
