//! What holds of a server, whatever its jobs bring.

use vstd::prelude::*;

use crate::batches::RepositoryFetchResult;
use crate::common::File;
use crate::diagnostics::{counts, DiagnosticTicket};
use crate::loader::RepositoryFetch;
use crate::server::{
    job_for, jobs_for, DiagnosticTarget,
    analysis_settled_actions, failed_names, fetch_ended, fetch_settled, fetch_settled_actions,
    fetched, handled, invalidated, jobs_after, publications, refresh_actions, refresh_finished,
    refresh_started, reloaded, repo_requested, target_actions, target_end_actions, targets_ended,
    ActionView, FinishedJob, PreparedConfiguration, Progress, Server, ServerView, Task,
};

verus! {

/// Whether a result is the last for a repository.
pub open spec fn is_last_for(
    results: Seq<RepositoryFetchResult>,
    name: Seq<char>,
    k: int,
) -> bool {
    &&& 0 <= k < results.len()
    &&& results[k].name@ == name
    &&& forall|j: int| k < j < results.len() ==> (#[trigger] results[j]).name@ != name
}

proof fn last_fetch_counts(
    known: Map<Seq<char>, RepositoryFetch>,
    results: Seq<RepositoryFetchResult>,
    name: Seq<char>,
    k: int,
    n: int,
)
    requires
        is_last_for(results, name, k),
        k < n <= results.len(),
    ensures
        fetched(known, results, n).contains_key(name),
        results[k].result is Ok <==> fetched(known, results, n)[name] is Ready,
        results[k].result is Err <==> fetched(known, results, n)[name] is Failed,
    decreases n,
{
    if n > k + 1 {
        last_fetch_counts(known, results, name, k, n - 1);
        assert(results[n - 1].name@ != name);
    }
}

/// A repository that was fetched for this configuration is ready from then on, and one
/// that could not be is known to have failed.
pub proof fn fetched_repositories_are_ready(
    s: ServerView,
    results: Seq<RepositoryFetchResult>,
    open_repository_changed: bool,
    name: Seq<char>,
    k: int,
)
    requires
        is_last_for(results, name, k),
    ensures
        ({
            let fetches = fetch_ended(
                s,
                s.session.revision,
                results,
                open_repository_changed,
            ).loader.fetches;
            &&& fetches.contains_key(name)
            &&& results[k].result is Ok <==> fetches[name] is Ready
            &&& results[k].result is Err <==> fetches[name] is Failed
        }),
{
    reveal(reloaded);
    reveal(refresh_started);
    last_fetch_counts(s.loader.fetches, results, name, k, results.len() as int);
}

/// The repositories that failed are those with an error.
pub proof fn failures_are_named(results: Seq<RepositoryFetchResult>, n: int, name: Seq<char>)
    requires
        0 <= n <= results.len(),
    ensures
        failed_names(results, n).contains(name) <==> exists|k: int|
            0 <= k < n && (#[trigger] results[k]).name@ == name && results[k].result is Err,
    decreases n,
{
    if n > 0 {
        failures_are_named(results, n - 1, name);
        let now = failed_names(results, n);
        let before = failed_names(results, n - 1);
        if results[n - 1].result is Err {
            assert(now[now.len() - 1] == results[n - 1].name@);
            if before.contains(name) {
                let k = choose|k: int| 0 <= k < before.len() && before[k] == name;
                assert(now[k] == name);
            }
            if now.contains(name) && name != results[n - 1].name@ {
                let k = choose|k: int| 0 <= k < now.len() && now[k] == name;
                assert(before[k] == name);
            }
        }
    }
}

/// A repository that is asked for and was not before is fetched next, for the
/// configuration at hand, and is known to be on its way until then.
pub proof fn requested_repositories_are_fetched(s: ServerView, repo: Seq<char>)
    requires
        !s.loader.fetches.contains_key(repo),
        !s.session.is_fetching_repos,
    ensures
        ({
            let asked = repo_requested(s, repo, s.session.revision);
            &&& asked.pending_repos.contains(repo)
            &&& asked.loader.fetches.contains_key(repo)
            &&& asked.loader.fetches[repo] is Pending
            &&& fetch_settled_actions(asked) == seq![
                ActionView::FetchRepositories(asked.pending_repos, s.session.revision),
            ]
            &&& fetch_settled(asked).pending_repos.len() == 0
            &&& fetch_settled(asked).session.is_fetching_repos
        }),
{
    let asked = repo_requested(s, repo, s.session.revision);
    if !s.pending_repos.contains(repo) {
        assert(asked.pending_repos[asked.pending_repos.len() - 1] == repo);
    }
}

/// While repositories are fetched no others are: what is asked for waits.
pub proof fn fetches_do_not_overlap(s: ServerView)
    requires
        s.session.is_fetching_repos,
    ensures
        fetch_settled(s) == s,
        fetch_settled_actions(s).len() == 0,
{
}

/// Targets that an earlier configuration asked for are not taken, and are asked for
/// again where labels are completed.
pub proof fn stale_targets_are_asked_for_again(
    s: ServerView,
    revision: u64,
    targets: Option<Seq<Seq<char>>>,
    changed: bool,
)
    requires
        revision != s.session.revision,
        s.session.enable_label_completions,
    ensures
        target_end_actions(s, revision, targets, changed) == seq![
            ActionView::QueryTargets(s.session.revision),
            ActionView::EndProgress(Progress::RefreshAllWorkspaceTargets),
        ],
        targets_ended(s, revision, targets, changed).session.is_refreshing_all_workspace_targets,
        targets_ended(s, revision, targets, changed).loader == s.loader,
        targets_ended(s, revision, targets, changed).jobs == s.jobs,
{
    reveal(target_actions);
    reveal(crate::server::targets_queried);
    assert(target_end_actions(s, revision, targets, changed) =~= seq![
        ActionView::QueryTargets(s.session.revision),
        ActionView::EndProgress(Progress::RefreshAllWorkspaceTargets),
    ]);
}

/// Targets of this configuration are taken over, and open files are looked at again.
pub proof fn targets_are_taken_over(s: ServerView, targets: Seq<Seq<char>>)
    ensures
        target_end_actions(s, s.session.revision, Some(targets), false).contains(
            ActionView::SetTargets(targets),
        ),
        targets_ended(s, s.session.revision, Some(targets), false).session.analysis_changed,
        !targets_ended(
            s,
            s.session.revision,
            Some(targets),
            false,
        ).session.is_refreshing_all_workspace_targets,
{
    let actions = target_end_actions(s, s.session.revision, Some(targets), false);
    assert(actions[0] == ActionView::SetTargets(targets));
}

/// An answer that was made for an earlier configuration is not sent: its request is
/// handled again. One for this configuration is sent.
pub proof fn stale_answers_are_not_sent(
    s: Server,
    t: Server,
    revision: u64,
    message: usize,
    before: Seq<ActionView>,
    after: Seq<ActionView>,
)
    requires
        handled(s, t, Task::ResponseReady { revision, message }, before, after),
    ensures
        t == s,
        after.len() == before.len() + 1,
        revision == s.session.revision ==> after.last() == ActionView::Respond(message),
        revision != s.session.revision ==> after.last() == ActionView::Handle(message),
{
}

/// A configuration that was prepared for an earlier revision, or whose inputs changed
/// since, is not installed: it is prepared again where one is due.
pub proof fn stale_configurations_are_not_installed(
    s: Server,
    t: Server,
    revision: u64,
    result: Result<PreparedConfiguration, String>,
    before: Seq<ActionView>,
    after: Seq<ActionView>,
)
    requires
        refresh_finished(s, t, revision, result, before, after),
        revision != s.session.revision || (result is Ok && result->Ok_0.inputs_changed),
    ensures
        t.session.revision == s.session.revision,
        t@.jobs == s@.jobs,
        t@.loader.mappings == s@.loader.mappings,
        t@.loader.fetches == s@.loader.fetches,
        revision == s.session.revision ==> after == before + seq![
            ActionView::InvalidateLoads,
            ActionView::PrepareConfiguration(s.session.revision),
        ] && t.session.refreshing,
        s.session.pending ==> after == before + seq![
            ActionView::InvalidateLoads,
            ActionView::PrepareConfiguration(s.session.revision),
        ] && t.session.refreshing,
        revision != s.session.revision && !s.session.pending ==> after == before
            && !t.session.refreshing,
{
    reveal(refresh_started);
    reveal(refresh_actions);
    assert(t@.session == t.session);
    assert(before + Seq::<ActionView>::empty() =~= before);
}

/// A configuration that could not be prepared is told of, and labels of other
/// repositories are followed again with what is known.
pub proof fn failed_configurations_are_shown(
    s: Server,
    t: Server,
    error: String,
    before: Seq<ActionView>,
    after: Seq<ActionView>,
)
    requires
        refresh_finished(
            s,
            t,
            s.session.revision,
            Err::<PreparedConfiguration, String>(error),
            before,
            after,
        ),
    ensures
        after.len() == before.len() + 1,
        after.last() is ShowError,
        !t.session.refreshing,
        !t@.loader.paused,
        t.session.analysis_changed,
        t.session.revision == s.session.revision,
{
    assert(t@.session == t.session);
}

proof fn publication_is_last(
    jobs: Map<File, DiagnosticTicket>,
    results: Seq<FinishedJob>,
    n: int,
    k: int,
)
    requires
        0 <= n <= results.len() <= usize::MAX,
        0 <= k < results.len(),
    ensures
        publications(jobs, results, n).contains(ActionView::Publish(k as usize)) <==> k < n
            && counts(
            jobs_after(jobs, results, k),
            results[k].file,
            results[k].ticket,
            results[k].document,
            results[k].revision,
        ),
    decreases n,
{
    if n > 0 {
        publication_is_last(jobs, results, n - 1, k);
        let now = publications(jobs, results, n);
        let before = publications(jobs, results, n - 1);
        let action = ActionView::Publish(k as usize);
        let r = results[n - 1];
        if counts(jobs_after(jobs, results, n - 1), r.file, r.ticket, r.document, r.revision) {
            assert(now[now.len() - 1] == ActionView::Publish((n - 1) as usize));
            if before.contains(action) {
                let j = choose|j: int| 0 <= j < before.len() && before[j] == action;
                assert(now[j] == action);
            }
            if now.contains(action) && k != n - 1 {
                let j = choose|j: int| 0 <= j < now.len() && now[j] == action;
                assert(before[j] == action);
            }
        }
    }
}

/// The diagnostics of a job are published exactly if the job is the last one for its
/// file, and the file is still what the job looked at.
pub proof fn only_current_diagnostics_are_published(
    jobs: Map<File, DiagnosticTicket>,
    results: Seq<FinishedJob>,
    k: int,
)
    requires
        results.len() <= usize::MAX,
        0 <= k < results.len(),
    ensures
        publications(jobs, results, results.len() as int).contains(
            ActionView::Publish(k as usize),
        ) <==> ({
            let left = jobs_after(jobs, results, k);
            let r = results[k];
            &&& left.contains_key(r.file)
            &&& left[r.file] == r.ticket
            &&& r.document == r.ticket.document
            &&& r.revision == Some(r.ticket.revision)
        }),
{
    publication_is_last(jobs, results, results.len() as int, k);
}

/// Once the meaning of files changed, all open ones are looked at again.
pub proof fn changes_are_looked_at(s: ServerView)
    ensures
        analysis_settled_actions(invalidated(s)) == seq![ActionView::RequestAnalysis],
        forall|file: File| !#[trigger] invalidated(s).jobs.contains_key(file),
{
}

/// A file that is open has a job of its own, and so has the root of an interface; the
/// job looks at the file as it is now.
pub proof fn open_files_are_looked_at(t: DiagnosticTarget, number: int)
    requires
        0 <= number <= u64::MAX,
    ensures
        job_for(t, number) is Some <==> t.revision is Some && (t.open is Some
            || t.is_interface_root),
        job_for(t, number) matches Some((file, ticket)) ==> ticket.job == number
            && ticket.document == t.document && Some(ticket.revision) == t.revision && (
        t.open matches Some(open) ==> file == open) && (t.open is None ==> file == t.file),
{
}

/// The jobs for some files have numbers of their own, in order, behind those given out.
pub proof fn jobs_have_their_own_numbers(
    targets: Seq<DiagnosticTarget>,
    next: int,
    n: int,
    k: int,
)
    requires
        0 <= n <= targets.len(),
        0 <= next,
        next + n <= u64::MAX,
        0 <= k < jobs_for(targets, next, n).len(),
    ensures
        jobs_for(targets, next, n).len() <= n,
        jobs_for(targets, next, n)[k].1.job == next + k + 1,
    decreases n,
{
    if n > 0 {
        let rest = jobs_for(targets, next, n - 1);
        jobs_are_few(targets, next, n - 1);
        if k < rest.len() {
            jobs_have_their_own_numbers(targets, next, n - 1, k);
            assert(jobs_for(targets, next, n)[k] == rest[k]);
        }
    }
}

proof fn jobs_are_few(targets: Seq<DiagnosticTarget>, next: int, n: int)
    requires
        0 <= n,
    ensures
        jobs_for(targets, next, n).len() <= n,
    decreases n,
{
    if n > 0 {
        jobs_are_few(targets, next, n - 1);
    }
}

} // verus!
