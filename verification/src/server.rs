//! What a server does about the messages and the results that reach it: it
//! changes its state, and says what is to be done outside.

use vstd::prelude::*;

use crate::batches::{batch_size, in_order, insert_name, RepositoryFetchResult, MAPPING_EXTRA, MAPPING_LIMIT};
use crate::client::RepoMapping;
use crate::common::File;
use crate::diagnostics::{counts, DiagnosticTicket, DiagnosticsManager};
use crate::lower_spec::text_of;
use crate::loader::{
    batch_effect, Ancestor, Loader, LoaderView, MappingEntry, Paths, RepositoryFetch,
};
use crate::name_map::NameMap;
use crate::system::DocumentStamp;
use crate::text::views;

verus! {

/// The flags and counters of a server, and what its client can do.
#[derive(Clone, Copy, Debug, PartialEq, Eq, Structural)]
pub struct Session {
    pub revision: u64,
    pub complete: bool,
    pub refreshing: bool,
    pub pending: bool,
    pub needs_reopen: bool,
    pub restart_required: bool,
    pub watcher_id: u64,
    pub is_fetching_repos: bool,
    pub is_resolving_repo_mappings: bool,
    pub is_refreshing_all_workspace_targets: bool,
    pub bzlmod_enabled: bool,
    pub analysis_changed: bool,
    pub enable_label_completions: bool,
    pub refreshes_tokens: bool,
    pub refreshes_hints: bool,
    pub registers_watchers: bool,
    pub relative_patterns: bool,
    pub interfaces_configured: bool,
}

/// The state of a server.
pub struct Server {
    pub session: Session,
    pub workspace: String,
    pub loader: Loader,
    pub pending_repos: Vec<String>,
    pub inputs: NameMap<Option<Vec<u8>>>,
    pub watched: Vec<String>,
    pub analysis_requested_for_files: Option<Vec<File>>,
    pub diagnostics_manager: DiagnosticsManager,
}

/// The content of the state of a server.
pub struct ServerView {
    pub session: Session,
    pub workspace: Seq<char>,
    pub loader: LoaderView,
    pub pending_repos: Seq<Seq<char>>,
    pub inputs: Map<Seq<char>, Option<Vec<u8>>>,
    pub watched: Seq<Seq<char>>,
    pub requested: Option<Seq<File>>,
    pub jobs: Map<File, DiagnosticTicket>,
    pub next_job: u64,
}

impl View for Server {
    type V = ServerView;

    open spec fn view(&self) -> ServerView {
        ServerView {
            session: self.session,
            workspace: self.workspace@,
            loader: self.loader@,
            pending_repos: views(self.pending_repos@),
            inputs: self.inputs@,
            watched: views(self.watched@),
            requested: match self.analysis_requested_for_files {
                Some(files) => Some(files@),
                None => None,
            },
            jobs: self.diagnostics_manager@,
            next_job: self.diagnostics_manager.next_job,
        }
    }
}

/// What progress is reported on.
#[derive(Clone, Copy, Debug, PartialEq, Eq, Structural)]
pub enum Progress {
    FetchExternalRepos,
    RefreshAllWorkspaceTargets,
}

impl Progress {
    /// The token by which a client knows the progress.
    pub fn token(self) -> (r: &'static str)
        ensures
            r@ == match self {
                Progress::FetchExternalRepos => "FetchExternalRepos"@,
                Progress::RefreshAllWorkspaceTargets => "RefreshAllWorkspaceTargets"@,
            },
    {
        match self {
            Progress::FetchExternalRepos => "FetchExternalRepos",
            Progress::RefreshAllWorkspaceTargets => "RefreshAllWorkspaceTargets",
        }
    }
}

/// What is to be done outside.
#[derive(Debug)]
pub enum Action {
    RefreshTokens,
    RefreshHints,
    ShowError(String),
    InvalidateLoads,
    ClearInterfaces,
    SetTargets(Vec<String>),
    PrepareConfiguration { revision: u64 },
    InstallConfiguration { error: Option<String> },
    FetchRepositories { repositories: Vec<String>, revision: u64 },
    QueryMappings { repositories: Vec<String>, revision: u64 },
    QueryTargets { revision: u64 },
    CreateProgress(Progress),
    BeginProgress { progress: Progress, title: String },
    EndProgress(Progress),
    Respond { message: usize },
    Handle { message: usize },
    Publish { result: usize },
    RequestAnalysis,
    UpdateDiagnostics(Vec<File>),
}

/// The content of an action.
pub enum ActionView {
    RefreshTokens,
    RefreshHints,
    ShowError(Seq<char>),
    InvalidateLoads,
    ClearInterfaces,
    SetTargets(Seq<Seq<char>>),
    PrepareConfiguration(u64),
    InstallConfiguration(Option<Seq<char>>),
    FetchRepositories(Seq<Seq<char>>, u64),
    QueryMappings(Seq<Seq<char>>, u64),
    QueryTargets(u64),
    CreateProgress(Progress),
    BeginProgress(Progress, Seq<char>),
    EndProgress(Progress),
    Respond(usize),
    Handle(usize),
    Publish(usize),
    RequestAnalysis,
    UpdateDiagnostics(Seq<File>),
}

impl View for Action {
    type V = ActionView;

    open spec fn view(&self) -> ActionView {
        match *self {
            Action::RefreshTokens => ActionView::RefreshTokens,
            Action::RefreshHints => ActionView::RefreshHints,
            Action::ShowError(text) => ActionView::ShowError(text@),
            Action::InvalidateLoads => ActionView::InvalidateLoads,
            Action::ClearInterfaces => ActionView::ClearInterfaces,
            Action::SetTargets(targets) => ActionView::SetTargets(views(targets@)),
            Action::PrepareConfiguration { revision } => ActionView::PrepareConfiguration(revision),
            Action::InstallConfiguration { error } => ActionView::InstallConfiguration(
                text_of(error),
            ),
            Action::FetchRepositories { repositories, revision } => ActionView::FetchRepositories(
                views(repositories@),
                revision,
            ),
            Action::QueryMappings { repositories, revision } => ActionView::QueryMappings(
                views(repositories@),
                revision,
            ),
            Action::QueryTargets { revision } => ActionView::QueryTargets(revision),
            Action::CreateProgress(progress) => ActionView::CreateProgress(progress),
            Action::BeginProgress { progress, title } => ActionView::BeginProgress(progress, title@),
            Action::EndProgress(progress) => ActionView::EndProgress(progress),
            Action::Respond { message } => ActionView::Respond(message),
            Action::Handle { message } => ActionView::Handle(message),
            Action::Publish { result } => ActionView::Publish(result),
            Action::RequestAnalysis => ActionView::RequestAnalysis,
            Action::UpdateDiagnostics(files) => ActionView::UpdateDiagnostics(files@),
        }
    }
}

/// The contents of actions.
pub open spec fn shown(actions: Seq<Action>) -> Seq<ActionView> {
    Seq::new(actions.len(), |i: int| actions[i]@)
}

/// Adds an action.
fn act(out: &mut Vec<Action>, action: Action)
    ensures
        shown(final(out)@) == shown(old(out)@).push(action@),
{
    let ghost before = shown(out@);
    out.push(action);
    proof {
        assert(shown(out@) =~= before.push(action@));
    }
}

/// What is asked of the editor after the meaning of open files changed, as far
/// as its client can do so.
pub open spec fn refreshes(session: Session) -> Seq<ActionView> {
    (if session.refreshes_tokens {
        seq![ActionView::RefreshTokens]
    } else {
        seq![]
    }) + (if session.refreshes_hints {
        seq![ActionView::RefreshHints]
    } else {
        seq![]
    })
}

/// A state with every diagnostic job cancelled, and new ones to come.
pub open spec fn invalidated(s: ServerView) -> ServerView {
    ServerView {
        session: Session { analysis_changed: true, ..s.session },
        jobs: Map::empty(),
        ..s
    }
}

/// A state with labels of other repositories put off, or not.
pub open spec fn paused(s: ServerView, paused: bool) -> ServerView {
    ServerView { loader: LoaderView { paused, ..s.loader }, ..s }
}

/// Whether a refresh of the configuration can start.
pub open spec fn can_refresh(s: ServerView) -> bool {
    s.session.pending && !s.session.refreshing
}

/// The state once a refresh of the configuration started, if it can.
#[verifier::opaque]
pub open spec fn refresh_started(s: ServerView) -> ServerView {
    if can_refresh(s) {
        paused(
            ServerView { session: Session { pending: false, refreshing: true, ..s.session }, ..s },
            true,
        )
    } else {
        s
    }
}

/// What is done when a refresh of the configuration starts.
#[verifier::opaque]
pub open spec fn refresh_actions(s: ServerView) -> Seq<ActionView> {
    if can_refresh(s) {
        seq![ActionView::InvalidateLoads, ActionView::PrepareConfiguration(s.session.revision)]
    } else {
        seq![]
    }
}

/// The message for a startup configuration that changed.
pub open spec fn restart_message() -> Seq<char> {
    "Bazel startup configuration changed. Restart Starpls to reload the Bazel environment; trusted stub registrations have been removed."@
}

/// The state once the configuration is given up, before a new one is prepared.
pub open spec fn given_up(s: ServerView) -> ServerView {
    invalidated(
        paused(
            ServerView {
                session: Session {
                    revision: (s.session.revision + 1) as u64,
                    complete: false,
                    pending: true,
                    ..s.session
                },
                pending_repos: seq![],
                ..s
            },
            true,
        ),
    )
}

/// The state once the configuration is loaded again: nothing of the old one
/// counts. A startup configuration that changed needs another server.
#[verifier::opaque]
pub open spec fn reloaded(s: ServerView) -> ServerView {
    let s = given_up(s);
    if s.session.restart_required {
        ServerView { session: Session { pending: false, ..s.session }, ..s }
    } else {
        refresh_started(s)
    }
}

/// What is done to load the configuration again.
#[verifier::opaque]
pub open spec fn reload_actions(s: ServerView) -> Seq<ActionView> {
    let now = given_up(s);
    seq![ActionView::ClearInterfaces, ActionView::SetTargets(seq![])] + refreshes(s.session) + (
    if s.session.restart_required {
        seq![ActionView::ShowError(restart_message())]
    } else {
        refresh_actions(now)
    })
}

/// Whether the targets of the workspace can be asked for.
pub open spec fn can_query_targets(s: ServerView) -> bool {
    !s.session.is_refreshing_all_workspace_targets && s.session.enable_label_completions
}

/// The state once the targets of the workspace are asked for, if they can be.
#[verifier::opaque]
pub open spec fn targets_queried(s: ServerView) -> ServerView {
    if can_query_targets(s) {
        ServerView {
            session: Session { is_refreshing_all_workspace_targets: true, ..s.session },
            ..s
        }
    } else {
        s
    }
}

/// What is done to ask for the targets of the workspace.
#[verifier::opaque]
pub open spec fn target_actions(s: ServerView) -> Seq<ActionView> {
    if can_query_targets(s) {
        seq![ActionView::QueryTargets(s.session.revision)]
    } else {
        seq![]
    }
}

impl Server {
    /// The jobs have numbers that are not to come.
    pub open spec fn wf(self) -> bool {
        self.diagnostics_manager.wf()
    }

    /// Asks the editor to look at open files again, as far as its client can.
    pub fn refresh_editor_semantics(&self, out: &mut Vec<Action>)
        ensures
            shown(final(out)@) == shown(old(out)@) + refreshes(self.session),
    {
        let ghost start = shown(out@);
        if self.session.refreshes_tokens {
            act(out, Action::RefreshTokens);
        }
        if self.session.refreshes_hints {
            act(out, Action::RefreshHints);
        }
        proof {
            assert(shown(out@) =~= start + refreshes(self.session));
        }
    }

    /// Cancels every diagnostic job, and asks for new ones.
    pub fn invalidate_diagnostics(&mut self)
        requires
            old(self).wf(),
        ensures
            final(self).wf(),
            final(self)@ == invalidated(old(self)@),
    {
        self.diagnostics_manager.cancel_all();
        self.session = Session { analysis_changed: true, ..self.session };
    }

    /// Notes that another server is needed.
    pub fn require_restart(&mut self)
        requires
            old(self).wf(),
        ensures
            final(self).wf(),
            final(self)@ == (ServerView {
                session: Session { restart_required: true, ..old(self)@.session },
                ..old(self)@
            }),
    {
        self.session = Session { restart_required: true, ..self.session };
    }

    /// Starts a refresh of the configuration, if one is pending and none is under
    /// way.
    pub fn start_configuration_refresh(&mut self, out: &mut Vec<Action>)
        requires
            old(self).wf(),
        ensures
            final(self).wf(),
            final(self)@ == refresh_started(old(self)@),
            final(self).session.bzlmod_enabled == old(self).session.bzlmod_enabled,
            shown(final(out)@) == shown(old(out)@) + refresh_actions(old(self)@),
    {
        proof {
            reveal(refresh_started);
            reveal(refresh_actions);
        }
        let ghost start = shown(out@);
        let ghost before = self@;
        if self.session.refreshing || !self.session.pending {
            proof {
                assert(start =~= start + refresh_actions(before));
            }
            return;
        }
        self.session = Session { pending: false, refreshing: true, ..self.session };
        self.loader.pause(true);
        act(out, Action::InvalidateLoads);
        act(out, Action::PrepareConfiguration { revision: self.session.revision });
        proof {
            assert(shown(out@) =~= start + refresh_actions(before));
        }
    }

    /// Gives up the configuration, and prepares a new one.
    pub fn reload_configuration(&mut self, out: &mut Vec<Action>)
        requires
            old(self).wf(),
            old(self).session.revision < u64::MAX,
        ensures
            final(self).wf(),
            final(self)@ == reloaded(old(self)@),
            final(self).session.bzlmod_enabled == old(self).session.bzlmod_enabled,
            shown(final(out)@) == shown(old(out)@) + reload_actions(old(self)@),
    {
        proof {
            reveal(reloaded);
            reveal(reload_actions);
        }
        let ghost start = shown(out@);
        let ghost before = self@;
        self.session = Session {
            revision: self.session.revision + 1,
            complete: false,
            pending: true,
            ..self.session
        };
        self.loader.pause(true);
        act(out, Action::ClearInterfaces);
        let none: Vec<String> = Vec::new();
        proof {
            assert(views(none@) =~= seq![]);
        }
        act(out, Action::SetTargets(none));
        self.invalidate_diagnostics();
        self.refresh_editor_semantics(out);
        self.pending_repos = Vec::new();
        proof {
            assert(views(self.pending_repos@) =~= seq![]);
            assert(self@ == given_up(before));
            assert(refreshes(self.session) == refreshes(before.session));
        }
        if self.session.restart_required {
            self.session = Session { pending: false, ..self.session };
            act(
                out,
                Action::ShowError(
                    "Bazel startup configuration changed. Restart Starpls to reload the Bazel environment; trusted stub registrations have been removed.".to_owned(),
                ),
            );
        } else {
            self.start_configuration_refresh(out);
        }
        proof {
            assert(shown(out@) =~= start + reload_actions(before));
        }
    }

    /// Asks for the targets of the workspace, unless that is under way or off.
    pub fn refresh_all_workspace_targets(&mut self, out: &mut Vec<Action>)
        requires
            old(self).wf(),
        ensures
            final(self).wf(),
            final(self)@ == targets_queried(old(self)@),
            final(self).session.revision == old(self).session.revision,
            refreshes(final(self).session) == refreshes(old(self).session),
            shown(final(out)@) == shown(old(out)@) + target_actions(old(self)@),
    {
        proof {
            reveal(targets_queried);
            reveal(target_actions);
        }
        let ghost start = shown(out@);
        let ghost before = self@;
        if self.session.is_refreshing_all_workspace_targets
            || !self.session.enable_label_completions {
            proof {
                assert(start =~= start + target_actions(before));
            }
            return;
        }
        self.session = Session { is_refreshing_all_workspace_targets: true, ..self.session };
        act(out, Action::QueryTargets { revision: self.session.revision });
        proof {
            assert(shown(out@) =~= start + target_actions(before));
        }
    }
}

/// The fetches of repositories once the first results of a list are known.
pub open spec fn fetched(
    known: Map<Seq<char>, RepositoryFetch>,
    results: Seq<RepositoryFetchResult>,
    n: int,
) -> Map<Seq<char>, RepositoryFetch>
    decreases n,
{
    if n <= 0 {
        known
    } else {
        fetched(known, results, n - 1).insert(
            results[n - 1].name@,
            match results[n - 1].result {
                Ok(()) => RepositoryFetch::Ready,
                Err(error) => RepositoryFetch::Failed(error),
            },
        )
    }
}

/// The repositories among the first results of a list that failed.
pub open spec fn failed_names(results: Seq<RepositoryFetchResult>, n: int) -> Seq<Seq<char>>
    decreases n,
{
    if n <= 0 {
        seq![]
    } else if results[n - 1].result is Err {
        failed_names(results, n - 1).push(results[n - 1].name@)
    } else {
        failed_names(results, n - 1)
    }
}

/// Names with a comma between them.
pub open spec fn with_commas(names: Seq<Seq<char>>) -> Seq<char>
    decreases names.len(),
{
    if names.len() == 0 {
        seq![]
    } else if names.len() == 1 {
        names[0]
    } else {
        with_commas(names.drop_last()) + ", "@ + names.last()
    }
}

/// Names in quotation marks, with a comma between them.
pub open spec fn quoted(names: Seq<Seq<char>>) -> Seq<char>
    decreases names.len(),
{
    if names.len() == 0 {
        seq![]
    } else if names.len() == 1 {
        "\""@ + names[0] + "\""@
    } else {
        quoted(names.drop_last()) + ", "@ + ("\""@ + names.last() + "\""@)
    }
}

/// Whether `title` says which repositories are fetched, in order.
pub open spec fn is_fetch_title(repositories: Seq<Seq<char>>, title: Seq<char>) -> bool {
    exists|all: Seq<Seq<char>>| #[trigger]
        in_order(all) && (forall|name: Seq<char>|
            all.contains(name) <==> repositories.contains(name)) && title
            == "Fetching external repositories: "@ + quoted(all)
}

/// The title for the progress of a fetch.
pub fn fetch_title(repositories: &Vec<String>) -> (title: String)
    ensures
        is_fetch_title(views(repositories@), title@),
{
    let mut sorted: Vec<String> = Vec::new();
    let mut i: usize = 0;
    while i < repositories.len()
        invariant
            i <= repositories@.len(),
            in_order(views(sorted@)),
            forall|name: Seq<char>| #[trigger]
                views(sorted@).contains(name) <==> views(repositories@).take(i as int).contains(
                    name,
                ),
        decreases repositories@.len() - i,
    {
        let ghost before = views(sorted@);
        insert_name(&mut sorted, repositories[i].as_str());
        proof {
            let all = views(repositories@);
            assert(all[i as int] == repositories@[i as int]@);
            crate::system::one_more(all, i as int);
            assert forall|name: Seq<char>| #[trigger]
                views(sorted@).contains(name) <==> all.take(i + 1).contains(name) by {
                assert(before.contains(name) <==> all.take(i as int).contains(name));
            }
        }
        i = i + 1;
    }
    let ghost all = views(sorted@);
    let mut names: String = String::new();
    let mut k: usize = 0;
    while k < sorted.len()
        invariant
            k <= sorted@.len(),
            all == views(sorted@),
            names@ == quoted(all.take(k as int)),
        decreases sorted@.len() - k,
    {
        let name = crate::text::join3("\"", sorted[k].as_str(), "\"");
        proof {
            let taken = all.take(k + 1);
            assert(taken.drop_last() =~= all.take(k as int));
            assert(taken.last() == sorted@[k as int]@);
        }
        if k > 0 {
            names = crate::text::join3(names.as_str(), ", ", name.as_str());
        } else {
            names = name;
        }
        k = k + 1;
    }
    proof {
        assert(views(repositories@).take(i as int) =~= views(repositories@));
        assert(all.take(k as int) =~= all);
        assert forall|name: Seq<char>|
            all.contains(name) <==> views(repositories@).contains(name) by {
            assert(all.contains(name) <==> views(repositories@).take(i as int).contains(name));
        }
    }
    crate::text::join("Fetching external repositories: ", names.as_str())
}

/// A result of a diagnostic job, and what its file is now.
#[derive(Clone, Copy, Debug)]
pub struct FinishedJob {
    pub file: File,
    pub ticket: DiagnosticTicket,
    pub document: Option<DocumentStamp>,
    pub revision: Option<u128>,
}

/// The jobs once the first results of a list are handled.
pub open spec fn jobs_after(
    jobs: Map<File, DiagnosticTicket>,
    results: Seq<FinishedJob>,
    n: int,
) -> Map<File, DiagnosticTicket>
    decreases n,
{
    if n <= 0 {
        jobs
    } else {
        let before = jobs_after(jobs, results, n - 1);
        let r = results[n - 1];
        if counts(before, r.file, r.ticket, r.document, r.revision) {
            before.remove(r.file)
        } else {
            before
        }
    }
}

/// The results that are published, of the first ones of a list: those that still
/// count.
pub open spec fn publications(
    jobs: Map<File, DiagnosticTicket>,
    results: Seq<FinishedJob>,
    n: int,
) -> Seq<ActionView>
    decreases n,
{
    if n <= 0 {
        seq![]
    } else {
        let before = jobs_after(jobs, results, n - 1);
        let r = results[n - 1];
        let rest = publications(jobs, results, n - 1);
        if counts(before, r.file, r.ticket, r.document, r.revision) {
            rest.push(ActionView::Publish((n - 1) as usize))
        } else {
            rest
        }
    }
}

impl Server {
    /// Publishes the results of diagnostic jobs that still count.
    pub fn diagnostics_ready(&mut self, results: &Vec<FinishedJob>, out: &mut Vec<Action>)
        requires
            old(self).wf(),
        ensures
            final(self).wf(),
            final(self)@ == (ServerView {
                jobs: jobs_after(old(self)@.jobs, results@, results@.len() as int),
                ..old(self)@
            }),
            shown(final(out)@) == shown(old(out)@) + publications(
                old(self)@.jobs,
                results@,
                results@.len() as int,
            ),
    {
        let ghost start = *self;
        let ghost shown_before = shown(out@);
        let mut i: usize = 0;
        proof {
            assert(shown_before =~= shown_before + publications(start@.jobs, results@, 0));
        }
        while i < results.len()
            invariant
                i <= results@.len(),
                self.wf(),
                self@ == (ServerView { jobs: jobs_after(start@.jobs, results@, i as int), ..start@ }),
                shown(out@) == shown_before + publications(start@.jobs, results@, i as int),
            decreases results@.len() - i,
        {
            let r = results[i];
            let ghost before = shown(out@);
            let accepted = self.diagnostics_manager.complete(
                r.file,
                r.ticket,
                r.document,
                r.revision,
            );
            if accepted {
                act(out, Action::Publish { result: i });
            }
            proof {
                assert(shown(out@) =~= shown_before + publications(start@.jobs, results@, i + 1));
            }
            i = i + 1;
        }
    }

    /// Takes over the mappings of a batch, unless the configuration changed since
    /// they were asked for.
    pub fn repo_mappings_ready(
        &mut self,
        repositories: &Vec<String>,
        revision: u64,
        result: Result<Vec<RepoMapping>, String>,
        out: &mut Vec<Action>,
    )
        requires
            old(self).wf(),
        ensures
            final(self).wf(),
            mappings_taken(
                old(self)@,
                final(self)@,
                views(repositories@),
                revision,
                result,
                shown(old(out)@),
                shown(final(out)@),
            ),
    {
        let ghost start = self@;
        let ghost shown_before = shown(out@);
        self.session = Session { is_resolving_repo_mappings: false, ..self.session };
        if revision != self.session.revision || self.session.refreshing {
            proof {
                assert(shown_before =~= shown_before + Seq::<ActionView>::empty());
            }
            return;
        }
        act(out, Action::InvalidateLoads);
        let ghost known = self.loader.repository_mappings@;
        let finished = self.loader.finish_repository_mappings(repositories, result);
        let ghost outcome = finished;
        proof {
            assert(self@ == (ServerView {
                session: Session { is_resolving_repo_mappings: false, ..start.session },
                loader: LoaderView { mappings: self@.loader.mappings, ..start.loader },
                ..start
            }));
            assert(taken_over(known, self@.loader.mappings, views(repositories@), result, outcome));
        }
        match finished {
            Ok(()) => {},
            Err(error) => {
                let message = crate::text::join(
                    "Cannot load repository mapping batch: ",
                    error.as_str(),
                );
                act(out, Action::ShowError(message));
            },
        }
        self.invalidate_diagnostics();
        self.refresh_editor_semantics(out);
        proof {
            assert(refreshes(self.session) == refreshes(start.session));
            assert(shown(out@) =~= shown_before + mapping_actions(start.session, outcome));
            assert(taken_over(
                start.loader.mappings,
                self@.loader.mappings,
                views(repositories@),
                result,
                outcome,
            ));
            assert(self@ == invalidated(
                ServerView {
                    session: Session { is_resolving_repo_mappings: false, ..start.session },
                    loader: LoaderView { mappings: self@.loader.mappings, ..start.loader },
                    ..start
                },
            ));
        }
    }
}

/// Whether a batch of mappings was taken over, with an outcome.
pub open spec fn taken_over(
    old_map: Map<Seq<char>, MappingEntry>,
    new_map: Map<Seq<char>, MappingEntry>,
    names: Seq<Seq<char>>,
    result: Result<Vec<RepoMapping>, String>,
    outcome: Result<(), String>,
) -> bool {
    &&& outcome is Ok == (result is Ok && result->Ok_0@.len() == names.len())
    &&& outcome is Err ==> outcome->Err_0@ == match result {
        Ok(_) => "repository mapping batch returned an unexpected result count"@,
        Err(error) => error@,
    }
    &&& forall|name: Seq<char>|
        #[trigger] batch_effect(old_map, new_map, names, result, outcome, name)
}

/// What is done once a batch of mappings is there.
pub open spec fn mapping_actions(session: Session, outcome: Result<(), String>) -> Seq<ActionView> {
    seq![ActionView::InvalidateLoads] + (match outcome {
        Ok(()) => seq![],
        Err(error) => seq![
            ActionView::ShowError("Cannot load repository mapping batch: "@ + error@),
        ],
    }) + refreshes(session)
}

/// What a batch of mappings changes: nothing if it was asked for by another
/// configuration, and else the mappings of its repositories.
pub open spec fn mappings_taken(
    s: ServerView,
    t: ServerView,
    names: Seq<Seq<char>>,
    revision: u64,
    result: Result<Vec<RepoMapping>, String>,
    before: Seq<ActionView>,
    after: Seq<ActionView>,
) -> bool {
    let quiet = ServerView {
        session: Session { is_resolving_repo_mappings: false, ..s.session },
        ..s
    };
    if revision != s.session.revision || s.session.refreshing {
        t == quiet && after == before
    } else {
        &&& t == invalidated(
            ServerView {
                loader: LoaderView { mappings: t.loader.mappings, ..s.loader },
                ..quiet
            },
        )
        &&& exists|outcome: Result<(), String>|
            #[trigger] taken_over(s.loader.mappings, t.loader.mappings, names, result, outcome)
                && after == before + mapping_actions(s.session, outcome)
    }
}

/// The state once the results of a fetch are published.
pub open spec fn fetches_published(s: ServerView, results: Seq<RepositoryFetchResult>) -> ServerView {
    invalidated(
        ServerView {
            session: Session { is_fetching_repos: false, ..s.session },
            loader: LoaderView {
                fetches: fetched(s.loader.fetches, results, results.len() as int),
                ..s.loader
            },
            ..s
        },
    )
}

/// The state once a fetch is over. Results that another configuration asked for
/// do not count.
pub open spec fn fetch_ended(
    s: ServerView,
    revision: u64,
    results: Seq<RepositoryFetchResult>,
    open_repository_changed: bool,
) -> ServerView {
    if revision != s.session.revision {
        ServerView { session: Session { is_fetching_repos: false, ..s.session }, ..s }
    } else {
        let s = fetches_published(s, results);
        if open_repository_changed {
            reloaded(s)
        } else {
            s
        }
    }
}

/// The message for repositories that could not be fetched.
pub open spec fn fetch_failure(names: Seq<Seq<char>>) -> Seq<char> {
    "Failed to fetch external repositories: "@ + with_commas(names)
        + ". Please check the server logs for more details."@
}

/// What is done once a fetch is over. Failures are shown with modules alone:
/// without them a query fails for reasons that do not matter.
pub open spec fn fetch_actions(
    s: ServerView,
    revision: u64,
    results: Seq<RepositoryFetchResult>,
    open_repository_changed: bool,
) -> Seq<ActionView> {
    let names = failed_names(results, results.len() as int);
    (if revision != s.session.revision {
        seq![]
    } else {
        seq![ActionView::InvalidateLoads] + (if open_repository_changed {
            reload_actions(fetches_published(s, results))
        } else {
            refreshes(s.session)
        }) + (if names.len() > 0 && s.session.bzlmod_enabled {
            seq![ActionView::ShowError(fetch_failure(names))]
        } else {
            seq![]
        })
    }) + seq![ActionView::EndProgress(Progress::FetchExternalRepos)]
}

/// The state once the targets of the workspace are there.
pub open spec fn targets_ended(
    s: ServerView,
    revision: u64,
    targets: Option<Seq<Seq<char>>>,
    open_repository_changed: bool,
) -> ServerView {
    let s = ServerView {
        session: Session { is_refreshing_all_workspace_targets: false, ..s.session },
        ..s
    };
    if revision != s.session.revision {
        targets_queried(s)
    } else if open_repository_changed {
        reloaded(s)
    } else if targets is Some {
        invalidated(s)
    } else {
        s
    }
}

/// What is done about the targets of the workspace. Those that another
/// configuration asked for are asked for again.
pub open spec fn target_result_actions(
    s: ServerView,
    revision: u64,
    targets: Option<Seq<Seq<char>>>,
    open_repository_changed: bool,
) -> Seq<ActionView> {
    let s = ServerView {
        session: Session { is_refreshing_all_workspace_targets: false, ..s.session },
        ..s
    };
    if revision != s.session.revision {
        target_actions(s)
    } else if open_repository_changed {
        reload_actions(s)
    } else {
        match targets {
            Some(targets) => seq![ActionView::SetTargets(targets), ActionView::InvalidateLoads]
                + refreshes(s.session),
            None => seq![],
        }
    }
}

/// What is done once the targets of the workspace are there.
pub open spec fn target_end_actions(
    s: ServerView,
    revision: u64,
    targets: Option<Seq<Seq<char>>>,
    open_repository_changed: bool,
) -> Seq<ActionView> {
    target_result_actions(s, revision, targets, open_repository_changed).push(
        ActionView::EndProgress(Progress::RefreshAllWorkspaceTargets),
    )
}

/// A list of texts by its content.
pub open spec fn views_of(texts: Option<Vec<String>>) -> Option<Seq<Seq<char>>> {
    match texts {
        Some(texts) => Some(views(texts@)),
        None => None,
    }
}

/// The state once a repository is asked for: it is fetched later, unless that
/// was asked for before, or by another configuration.
pub open spec fn repo_requested(s: ServerView, repo: Seq<char>, revision: u64) -> ServerView {
    if revision != s.session.revision || s.loader.fetches.contains_key(repo) {
        s
    } else {
        ServerView {
            loader: LoaderView {
                fetches: s.loader.fetches.insert(repo, RepositoryFetch::Pending),
                ..s.loader
            },
            pending_repos: if s.pending_repos.contains(repo) {
                s.pending_repos
            } else {
                s.pending_repos.push(repo)
            },
            ..s
        }
    }
}

impl Server {
    /// Publishes the results of a fetch, and gives the names that failed.
    fn publish_fetches(&mut self, results: Vec<RepositoryFetchResult>) -> (failed: Vec<String>)
        requires
            old(self).wf(),
        ensures
            final(self).wf(),
            final(self)@ == (ServerView {
                loader: LoaderView {
                    fetches: fetched(old(self)@.loader.fetches, results@, results@.len() as int),
                    ..old(self)@.loader
                },
                ..old(self)@
            }),
            views(failed@) == failed_names(results@, results@.len() as int),
    {
        let ghost start = self@;
        let mut failed: Vec<String> = Vec::new();
        let mut i: usize = 0;
        proof {
            assert(views(failed@) =~= failed_names(results@, 0));
        }
        while i < results.len()
            invariant
                i <= results@.len(),
                self.wf(),
                self@ == (ServerView {
                    loader: LoaderView {
                        fetches: fetched(start.loader.fetches, results@, i as int),
                        ..start.loader
                    },
                    ..start
                }),
                views(failed@) == failed_names(results@, i as int),
            decreases results@.len() - i,
        {
            let ghost before = views(failed@);
            let outcome = match &results[i].result {
                Ok(()) => Ok(()),
                Err(error) => Err(error.clone()),
            };
            if outcome.is_err() {
                failed.push(results[i].name.clone());
            }
            let name = results[i].name.clone();
            self.loader.finish_fetch(name, outcome);
            proof {
                if results@[i as int].result is Err {
                    assert(views(failed@) =~= before.push(results@[i as int].name@));
                }
            }
            i = i + 1;
        }
        failed
    }

    /// Takes over the results of a fetch.
    pub fn fetch_end(
        &mut self,
        revision: u64,
        results: Vec<RepositoryFetchResult>,
        open_repository_changed: bool,
        out: &mut Vec<Action>,
    )
        requires
            old(self).wf(),
            old(self).session.revision < u64::MAX,
        ensures
            final(self).wf(),
            final(self)@ == fetch_ended(
                old(self)@,
                revision,
                results@,
                open_repository_changed,
            ),
            shown(final(out)@) == shown(old(out)@) + fetch_actions(
                old(self)@,
                revision,
                results@,
                open_repository_changed,
            ),
    {
        let ghost start = self@;
        let ghost given = results@;
        let ghost shown_before = shown(out@);
        if revision != self.session.revision {
            self.session = Session { is_fetching_repos: false, ..self.session };
        } else {
            let failed = self.fetch_accepted(results, open_repository_changed, out);
            proof {
                assert(views(failed@).len() == failed@.len());
            }
            if failed.len() > 0 && self.session.bzlmod_enabled {
                let names = join_names(&failed);
                let message = crate::text::join3(
                    "Failed to fetch external repositories: ",
                    names.as_str(),
                    ". Please check the server logs for more details.",
                );
                act(out, Action::ShowError(message));
            }
        }
        act(out, Action::EndProgress(Progress::FetchExternalRepos));
        proof {
            assert(shown(out@) =~= shown_before + fetch_actions(
                start,
                revision,
                given,
                open_repository_changed,
            ));
        }
    }

    /// Takes over the results of a fetch that this configuration asked for, and
    /// gives the names that failed.
    fn fetch_accepted(
        &mut self,
        results: Vec<RepositoryFetchResult>,
        open_repository_changed: bool,
        out: &mut Vec<Action>,
    ) -> (failed: Vec<String>)
        requires
            old(self).wf(),
            old(self).session.revision < u64::MAX,
        ensures
            final(self).wf(),
            final(self)@ == fetch_ended(
                old(self)@,
                old(self).session.revision,
                results@,
                open_repository_changed,
            ),
            final(self).session.bzlmod_enabled == old(self).session.bzlmod_enabled,
            views(failed@) == failed_names(results@, results@.len() as int),
            shown(final(out)@) == shown(old(out)@).push(ActionView::InvalidateLoads) + (
            if open_repository_changed {
                reload_actions(fetches_published(old(self)@, results@))
            } else {
                refreshes(old(self).session)
            }),
    {
        let ghost start = self@;
        let ghost given = results@;
        self.session = Session { is_fetching_repos: false, ..self.session };
        act(out, Action::InvalidateLoads);
        let failed = self.publish_fetches(results);
        self.invalidate_diagnostics();
        proof {
            assert(self@ == fetches_published(start, given));
        }
        if open_repository_changed {
            self.reload_configuration(out);
        } else {
            self.refresh_editor_semantics(out);
            proof {
                assert(refreshes(self.session) == refreshes(start.session));
            }
        }
        failed
    }

    /// Takes over the targets of the workspace.
    pub fn targets_end(
        &mut self,
        revision: u64,
        targets: Option<Vec<String>>,
        open_repository_changed: bool,
        out: &mut Vec<Action>,
    )
        requires
            old(self).wf(),
            old(self).session.revision < u64::MAX,
        ensures
            final(self).wf(),
            final(self)@ == targets_ended(
                old(self)@,
                revision,
                views_of(targets),
                open_repository_changed,
            ),
            shown(final(out)@) == shown(old(out)@) + target_end_actions(
                old(self)@,
                revision,
                views_of(targets),
                open_repository_changed,
            ),
    {
        let ghost start = self@;
        let ghost given = views_of(targets);
        let ghost shown_before = shown(out@);
        self.targets_result(revision, targets, open_repository_changed, out);
        act(out, Action::EndProgress(Progress::RefreshAllWorkspaceTargets));
        proof {
            assert(shown(out@) =~= shown_before + target_end_actions(
                start,
                revision,
                given,
                open_repository_changed,
            ));
        }
    }

    fn targets_result(
        &mut self,
        revision: u64,
        targets: Option<Vec<String>>,
        open_repository_changed: bool,
        out: &mut Vec<Action>,
    )
        requires
            old(self).wf(),
            old(self).session.revision < u64::MAX,
        ensures
            final(self).wf(),
            final(self)@ == targets_ended(
                old(self)@,
                revision,
                views_of(targets),
                open_repository_changed,
            ),
            shown(final(out)@) == shown(old(out)@) + target_result_actions(
                old(self)@,
                revision,
                views_of(targets),
                open_repository_changed,
            ),
    {
        let ghost start = self@;
        let ghost given = views_of(targets);
        let ghost shown_before = shown(out@);
        self.session = Session { is_refreshing_all_workspace_targets: false, ..self.session };
        if revision != self.session.revision {
            self.refresh_all_workspace_targets(out);
            return;
        }
        if open_repository_changed {
            self.reload_configuration(out);
            return;
        }
        match targets {
            Some(targets) => {
                act(out, Action::SetTargets(targets));
                act(out, Action::InvalidateLoads);
                self.invalidate_diagnostics();
                self.refresh_editor_semantics(out);
                proof {
                    assert(refreshes(self.session) == refreshes(start.session));
                }
            },
            None => {},
        }
        proof {
            assert(shown(out@) =~= shown_before + target_result_actions(
                start,
                revision,
                given,
                open_repository_changed,
            ));
        }
    }

    /// Notes a repository that is to be fetched.
    pub fn repo_request(&mut self, repo: String, revision: u64)
        requires
            old(self).wf(),
        ensures
            final(self).wf(),
            final(self)@ == repo_requested(old(self)@, repo@, revision),
    {
        if revision != self.session.revision {
            return;
        }
        let is_new = self.loader.begin_fetch(repo.clone());
        if is_new {
            let known = crate::builtin_tables::holds(&self.pending_repos, repo.as_str());
            proof {
                let all = views(self.pending_repos@);
                if known {
                    let k = choose|k: int|
                        0 <= k < self.pending_repos@.len() && (#[trigger] self.pending_repos@[k])@
                            == repo@;
                    assert(all[k] == repo@);
                } else if all.contains(repo@) {
                    let k = choose|k: int| 0 <= k < all.len() && all[k] == repo@;
                    assert(self.pending_repos@[k]@ == repo@);
                }
            }
            if !known {
                let ghost before = views(self.pending_repos@);
                let ghost name = repo@;
                self.pending_repos.push(repo);
                proof {
                    assert(views(self.pending_repos@) =~= before.push(name));
                }
            }
        }
    }
}

/// The names with a comma between them.
pub fn join_names(names: &Vec<String>) -> (r: String)
    ensures
        r@ == with_commas(views(names@)),
{
    let ghost all = views(names@);
    let mut r: String = String::new();
    let mut k: usize = 0;
    while k < names.len()
        invariant
            k <= names@.len(),
            all == views(names@),
            r@ == with_commas(all.take(k as int)),
        decreases names@.len() - k,
    {
        proof {
            let taken = all.take(k + 1);
            assert(taken.drop_last() =~= all.take(k as int));
            assert(taken.last() == names@[k as int]@);
        }
        if k > 0 {
            r = crate::text::join3(r.as_str(), ", ", names[k].as_str());
        } else {
            r = names[k].clone();
        }
        k = k + 1;
    }
    proof {
        assert(all.take(k as int) =~= all);
    }
    r
}

/// A document that is open while the configuration changes: where it is, and
/// why its source no longer fits, if it does not.
#[derive(Debug)]
pub struct RestoredDocument {
    pub path: String,
    pub ancestors: Vec<Ancestor>,
    pub source_error: Option<String>,
}

/// A configuration that was prepared. Its inputs may have changed since.
pub struct PreparedConfiguration {
    pub loader: Loader,
    pub inputs_changed: bool,
    pub documents: Vec<RestoredDocument>,
}

/// What is known of paths once the first documents were taken over from the loader
/// before, one after the other.
pub open spec fn documents_paths(
    prepared: Loader,
    previous: Loader,
    documents: Seq<RestoredDocument>,
    n: int,
) -> Paths
    decreases n,
{
    if n <= 0 {
        prepared.paths()
    } else {
        let document = documents[n - 1];
        prepared.restored_in(
            documents_paths(prepared, previous, documents, n - 1),
            previous,
            document.path@,
            document.ancestors@,
            document.source_error is None,
        )
    }
}

/// Why those of the first documents are not taken over that are not, in order.
pub open spec fn refusals(
    prepared: Loader,
    previous: Loader,
    documents: Seq<RestoredDocument>,
    n: int,
) -> Seq<Seq<char>>
    decreases n,
{
    if n <= 0 {
        seq![]
    } else {
        let document = documents[n - 1];
        let rest = refusals(prepared, previous, documents, n - 1);
        match prepared.refusal_in(
            documents_paths(prepared, previous, documents, n - 1),
            previous,
            document.path@,
            document.ancestors@,
            text_of(document.source_error),
        ) {
            Some(text) => rest.push(text),
            None => rest,
        }
    }
}

/// The last of some texts.
pub open spec fn last_text(texts: Seq<Seq<char>>) -> Option<Seq<char>> {
    if texts.len() == 0 {
        None
    } else {
        Some(texts.last())
    }
}

/// Texts, shown as errors.
pub open spec fn errors_shown(texts: Seq<Seq<char>>) -> Seq<ActionView> {
    Seq::new(texts.len(), |i: int| ActionView::ShowError(texts[i]))
}

/// Whether `new` is what was prepared, with the first documents taken over from
/// the loader before.
pub open spec fn documents_restored(
    prepared: Loader,
    previous: Loader,
    new: Loader,
    documents: Seq<RestoredDocument>,
    n: int,
) -> bool {
    &&& crate::loader::same_but_paths(prepared, new)
    &&& new.paths() == documents_paths(prepared, previous, documents, n)
}

/// The message for a configuration that could not be prepared.
pub open spec fn init_message(error: Seq<char>) -> Seq<char> {
    "Failed to fetch Bazel configuration! Please check the language server logs for more details. Certain features may not work correctly until the underlying issue is fixed. "@
        + error
}

impl Server {
    /// Takes over the documents that are open.
    fn restore_documents(
        &self,
        loader: &mut Loader,
        documents: &Vec<RestoredDocument>,
        out: &mut Vec<Action>,
    ) -> (last: Option<String>)
        ensures
            documents_restored(
                *old(loader),
                self.loader,
                *final(loader),
                documents@,
                documents@.len() as int,
            ),
            ({
                let texts = refusals(
                    *old(loader),
                    self.loader,
                    documents@,
                    documents@.len() as int,
                );
                &&& text_of(last) == last_text(texts)
                &&& shown(final(out)@) == shown(old(out)@) + errors_shown(texts)
            }),
    {
        let ghost prepared = *loader;
        let ghost shown_before = shown(out@);
        let mut last: Option<String> = None;
        let mut i: usize = 0;
        proof {
            let none = refusals(prepared, self.loader, documents@, 0);
            assert(shown_before =~= shown_before + errors_shown(none));
        }
        while i < documents.len()
            invariant
                i <= documents@.len(),
                documents_restored(prepared, self.loader, *loader, documents@, i as int),
                text_of(last) == last_text(
                    refusals(prepared, self.loader, documents@, i as int),
                ),
                shown(out@) == shown_before + errors_shown(
                    refusals(prepared, self.loader, documents@, i as int),
                ),
            decreases documents@.len() - i,
        {
            let document = &documents[i];
            let ghost before = *loader;
            let ghost texts = refusals(prepared, self.loader, documents@, i as int);
            let r = loader.restore_document_context(
                &self.loader,
                document.path.as_str(),
                &document.ancestors,
                document.source_error.is_none(),
            );
            proof {
                same_restored(
                    prepared,
                    before,
                    self.loader,
                    document.path@,
                    document.ancestors@,
                );
            }
            match r {
                Ok(()) => {},
                Err(error) => {
                    let message = match error {
                        Some(error) => error.message(),
                        None => match &document.source_error {
                            Some(error) => error.clone(),
                            None => String::new(),
                        },
                    };
                    let ghost text = message@;
                    last = Some(message.clone());
                    act(out, Action::ShowError(message));
                    proof {
                        assert(refusals(prepared, self.loader, documents@, i + 1) == texts.push(
                            text,
                        ));
                        assert(errors_shown(texts.push(text)) =~= errors_shown(texts).push(
                            ActionView::ShowError(text),
                        ));
                        assert(shown(out@) =~= shown_before + errors_shown(texts.push(text)));
                    }
                },
            }
            i = i + 1;
        }
        last
    }

    /// Takes over a configuration that was prepared. One that was prepared for an
    /// earlier revision, or whose inputs changed since, is prepared again.
    pub fn finish_configuration_refresh(
        &mut self,
        revision: u64,
        result: Result<PreparedConfiguration, String>,
        out: &mut Vec<Action>,
    )
        requires
            old(self).wf(),
            old(self).session.revision < u64::MAX,
        ensures
            final(self).wf(),
            ({
                let before = shown(old(out)@);
                let after = shown(final(out)@);
                if revision != old(self).session.revision {
                    &&& final(self)@ == refresh_started(ended(old(self)@, false))
                    &&& after == before + refresh_actions(ended(old(self)@, false))
                } else {
                    match result {
                        Err(error) => {
                            &&& final(self)@ == invalidated(
                                paused(ended(old(self)@, false), false),
                            )
                            &&& after == before.push(ActionView::ShowError(init_message(error@)))
                        },
                        Ok(prepared) => if prepared.inputs_changed {
                            &&& final(self)@ == refresh_started(ended(old(self)@, true))
                            &&& after == before + refresh_actions(ended(old(self)@, true))
                        } else {
                            configuration_taken(
                                *old(self),
                                *final(self),
                                prepared,
                                before,
                                after,
                            )
                        },
                    }
                }
            }),
    {
        if revision != self.session.revision {
            self.refresh_again(false, out);
            return;
        }
        match result {
            Err(error) => {
                self.refresh_failed(error, out);
            },
            Ok(prepared) => {
                if prepared.inputs_changed {
                    self.refresh_again(true, out);
                } else {
                    self.take_configuration(prepared, out);
                }
            },
        }
    }

    /// Ends a refresh whose result does not count.
    fn refresh_again(&mut self, pending: bool, out: &mut Vec<Action>)
        requires
            old(self).wf(),
        ensures
            final(self).wf(),
            ({
                let quiet = ended(old(self)@, pending);
                &&& final(self)@ == refresh_started(quiet)
                &&& shown(final(out)@) == shown(old(out)@) + refresh_actions(quiet)
            }),
    {
        let ghost start = self@;
        self.session = Session {
            refreshing: false,
            pending: self.session.pending || pending,
            ..self.session
        };
        proof {
            assert(self@ == ended(start, pending));
        }
        self.start_configuration_refresh(out);
    }

    /// Ends a refresh that failed.
    fn refresh_failed(&mut self, error: String, out: &mut Vec<Action>)
        requires
            old(self).wf(),
        ensures
            final(self).wf(),
            final(self)@ == invalidated(paused(ended(old(self)@, false), false)),
            shown(final(out)@) == shown(old(out)@).push(
                ActionView::ShowError(init_message(error@)),
            ),
    {
        let ghost start = self@;
        self.session = Session { refreshing: false, ..self.session };
        proof {
            assert(self@ == ended(start, false));
        }
        self.loader.pause(false);
        proof {
            assert(self@ == paused(ended(start, false), false));
        }
        let message = crate::text::join(
            "Failed to fetch Bazel configuration! Please check the language server logs for more details. Certain features may not work correctly until the underlying issue is fixed. ",
            error.as_str(),
        );
        act(out, Action::ShowError(message));
        self.invalidate_diagnostics();
    }

    /// Takes over a configuration.
    fn take_configuration(&mut self, prepared: PreparedConfiguration, out: &mut Vec<Action>)
        requires
            old(self).wf(),
            old(self).session.revision < u64::MAX,
        ensures
            final(self).wf(),
            configuration_taken(
                *old(self),
                *final(self),
                prepared,
                shown(old(out)@),
                shown(final(out)@),
            ),
    {
        proof {
            reveal(configuration_taken);
        }
        let ghost start = *self;
        let ghost given = prepared;
        let ghost shown_before = shown(out@);
        let revision: u64 = self.session.revision + 1;
        let documents = prepared.documents;
        let mut loader = prepared.loader.for_editor(revision);
        let ghost ready = loader;
        let error = self.restore_documents(&mut loader, &documents, out);
        let ghost n = documents@.len() as int;
        let ghost texts = refusals(ready, start.loader, documents@, n);
        self.session = Session {
            revision,
            refreshing: false,
            needs_reopen: error.is_some(),
            bzlmod_enabled: loader.bzlmod_enabled,
            ..self.session
        };
        self.loader = loader;
        let ghost text = text_of(error);
        act(out, Action::InstallConfiguration { error });
        proof {
            assert(shown(out@) =~= shown_before + errors_shown(texts).push(
                ActionView::InstallConfiguration(text),
            ));
        }
    }

    /// Notes whether the configuration that was taken over could be installed.
    pub fn configuration_installed(
        &mut self,
        result: Result<(), String>,
        inputs: NameMap<Option<Vec<u8>>>,
        out: &mut Vec<Action>,
    )
        requires
            old(self).wf(),
        ensures
            final(self).wf(),
            final(self)@ == invalidated(
                targets_queried(
                    ServerView {
                        session: Session { complete: result is Ok, ..old(self).session },
                        inputs: old(self)@.inputs.union_prefer_right(inputs@),
                        ..old(self)@
                    },
                ),
            ),
            shown(final(out)@) == shown(old(out)@) + install_actions(old(self)@, result),
    {
        let ghost start = self@;
        let ghost shown_before = shown(out@);
        let ghost given = result;
        self.session = Session { complete: result.is_ok(), ..self.session };
        match result {
            Ok(()) => {},
            Err(error) => {
                let message = crate::text::join(
                    "Cannot reload Starpls configuration: ",
                    error.as_str(),
                );
                act(out, Action::ShowError(message));
            },
        }
        self.add_inputs(inputs);
        let ghost now = self@;
        self.refresh_all_workspace_targets(out);
        self.invalidate_diagnostics();
        self.refresh_editor_semantics(out);
        proof {
            assert(target_actions(now) == target_actions(start)) by {
                reveal(target_actions);
            }
            assert(refreshes(self.session) == refreshes(start.session));
            assert(shown(out@) =~= shown_before + install_actions(start, given));
        }
    }

    /// Adds the inputs of a configuration.
    fn add_inputs(&mut self, inputs: NameMap<Option<Vec<u8>>>)
        requires
            old(self).wf(),
        ensures
            final(self).wf(),
            final(self)@ == (ServerView {
                inputs: old(self)@.inputs.union_prefer_right(inputs@),
                ..old(self)@
            }),
    {
        let ghost start = self@;
        let ghost all = inputs.entries@;
        let mut rest = inputs.entries;
        let ghost mut n: int = 0;
        proof {
            assert(all.take(0) =~= Seq::empty());
            assert(all.skip(0) =~= all);
            assert(self@.inputs =~= start.inputs.union_prefer_right(
                crate::name_map::map_of(all.take(0)),
            ));
        }
        while rest.len() > 0
            invariant
                0 <= n <= all.len(),
                rest@ == all.skip(n),
                self.wf(),
                self@ == (ServerView {
                    inputs: start.inputs.union_prefer_right(
                        crate::name_map::map_of(all.take(n)),
                    ),
                    ..start
                }),
            decreases rest@.len(),
        {
            let entry = rest.remove(0);
            let ghost before = self@.inputs;
            self.inputs.insert(entry.0, entry.1);
            proof {
                assert(entry == all[n]);
                let taken = all.take(n + 1);
                assert(taken.drop_last() =~= all.take(n));
                assert(taken.last() == entry);
                assert(rest@ =~= all.skip(n + 1));
                assert(self@.inputs =~= start.inputs.union_prefer_right(
                    crate::name_map::map_of(taken),
                ));
                n = n + 1;
            }
        }
        proof {
            assert(all.take(n) =~= all);
        }
    }
}

/// The state once a refresh of the configuration is over, with another one
/// pending or not.
pub open spec fn ended(s: ServerView, pending: bool) -> ServerView {
    ServerView {
        session: Session {
            refreshing: false,
            pending: s.session.pending || pending,
            ..s.session
        },
        ..s
    }
}

/// What is done once the configuration was installed, or could not be.
pub open spec fn install_actions(s: ServerView, result: Result<(), String>) -> Seq<ActionView> {
    (match result {
        Ok(()) => seq![],
        Err(error) => seq![ActionView::ShowError("Cannot reload Starpls configuration: "@ + error@)],
    }) + target_actions(s) + refreshes(s.session)
}

/// Whether a prepared configuration was taken over: there is a new revision, and
/// every open document has the context it had, or is displaced.
#[verifier::opaque]
pub open spec fn configuration_taken(
    s: Server,
    t: Server,
    prepared: PreparedConfiguration,
    before: Seq<ActionView>,
    after: Seq<ActionView>,
) -> bool {
    let revision = (s.session.revision + 1) as u64;
    let documents = prepared.documents@;
    let loader = Loader { configuration_revision: Some(revision), ..prepared.loader };
    &&& t@ == ServerView {
        session: Session {
            revision,
            refreshing: false,
            needs_reopen: t.session.needs_reopen,
            bzlmod_enabled: prepared.loader.bzlmod_enabled,
            ..s.session
        },
        loader: t@.loader,
        ..s@
    }
    &&& documents_restored(loader, s.loader, t.loader, documents, documents.len() as int)
    &&& ({
        let texts = refusals(loader, s.loader, documents, documents.len() as int);
        &&& t.session.needs_reopen == (texts.len() > 0)
        &&& after == before + errors_shown(texts).push(
            ActionView::InstallConfiguration(last_text(texts)),
        )
    })
}

/// How a document is taken over depends on what is known of paths, and on what does
/// not change.
proof fn same_restored(
    a: Loader,
    b: Loader,
    previous: Loader,
    path: Seq<char>,
    ancestors: Seq<Ancestor>,
)
    requires
        crate::loader::same_but_paths(a, b),
    ensures
        forall|p: Paths, valid: bool|
            a.restored_in(p, previous, path, ancestors, valid) == #[trigger] b.restored_in(
                p,
                previous,
                path,
                ancestors,
                valid,
            ),
        forall|p: Paths, error: Option<Seq<char>>|
            a.refusal_in(p, previous, path, ancestors, error) == #[trigger] b.refusal_in(
                p,
                previous,
                path,
                ancestors,
                error,
            ),
{
    assert(a.placed(path, ancestors) == b.placed(path, ancestors));
}

/// What reaches a server from its own jobs. Messages are known by numbers.
#[allow(inconsistent_fields)]
pub enum Task {
    AnalysisRequested(Vec<File>),
    DiagnosticsReady(Vec<FinishedJob>),
    ResponseReady { revision: u64, message: usize },
    ConfigurationReady { revision: u64, result: Result<PreparedConfiguration, String> },
    ResolveRepoMappings,
    RepoMappingsReady {
        repositories: Vec<String>,
        revision: u64,
        result: Result<Vec<RepoMapping>, String>,
    },
    Retry { message: usize },
    FetchBegin(Vec<String>),
    FetchEnd { revision: u64, results: Vec<RepositoryFetchResult>, open_repository_changed: bool },
    FetchExternalRepoRequest { repo: String, revision: u64 },
    TargetsBegin,
    TargetsEnd {
        revision: u64,
        targets: Option<Vec<String>>,
        open_repository_changed: bool,
    },
}

/// Whether `t` is the state that a prepared configuration leads to, with what is
/// done on the way.
pub open spec fn refresh_finished(
    s: Server,
    t: Server,
    revision: u64,
    result: Result<PreparedConfiguration, String>,
    before: Seq<ActionView>,
    after: Seq<ActionView>,
) -> bool {
    if revision != s.session.revision {
        &&& t@ == refresh_started(ended(s@, false))
        &&& after == before + refresh_actions(ended(s@, false))
    } else {
        match result {
            Err(error) => {
                &&& t@ == invalidated(paused(ended(s@, false), false))
                &&& after == before.push(ActionView::ShowError(init_message(error@)))
            },
            Ok(prepared) => if prepared.inputs_changed {
                &&& t@ == refresh_started(ended(s@, true))
                &&& after == before + refresh_actions(ended(s@, true))
            } else {
                configuration_taken(s, t, prepared, before, after)
            },
        }
    }
}

/// Whether `t` is the state that a task leads to, with what is done on the way.
pub open spec fn handled(
    s: Server,
    t: Server,
    task: Task,
    before: Seq<ActionView>,
    after: Seq<ActionView>,
) -> bool {
    match task {
        Task::AnalysisRequested(files) => {
            &&& t@ == ServerView { requested: Some(files@), ..s@ }
            &&& after == before
        },
        Task::DiagnosticsReady(results) => {
            let n = results@.len() as int;
            &&& t@ == ServerView { jobs: jobs_after(s@.jobs, results@, n), ..s@ }
            &&& after == before + publications(s@.jobs, results@, n)
        },
        Task::ResponseReady { revision, message } => {
            &&& t == s
            &&& after == before.push(
                if revision == s.session.revision {
                    ActionView::Respond(message)
                } else {
                    ActionView::Handle(message)
                },
            )
        },
        Task::ConfigurationReady { revision, result } => refresh_finished(
            s,
            t,
            revision,
            result,
            before,
            after,
        ),
        Task::ResolveRepoMappings => t == s && after == before,
        Task::RepoMappingsReady { repositories, revision, result } => mappings_taken(
            s@,
            t@,
            views(repositories@),
            revision,
            result,
            before,
            after,
        ),
        Task::Retry { message } => t == s && after == before.push(ActionView::Handle(message)),
        Task::FetchBegin(repositories) => {
            &&& t == s
            &&& exists|title: Seq<char>| #[trigger]
                is_fetch_title(views(repositories@), title) && after == before.push(
                    ActionView::CreateProgress(Progress::FetchExternalRepos),
                ).push(ActionView::BeginProgress(Progress::FetchExternalRepos, title))
        },
        Task::FetchEnd { revision, results, open_repository_changed } => {
            &&& t@ == fetch_ended(s@, revision, results@, open_repository_changed)
            &&& after == before + fetch_actions(s@, revision, results@, open_repository_changed)
        },
        Task::FetchExternalRepoRequest { repo, revision } => {
            &&& t@ == repo_requested(s@, repo@, revision)
            &&& after == before
        },
        Task::TargetsBegin => {
            &&& t == s
            &&& after == before.push(
                ActionView::CreateProgress(Progress::RefreshAllWorkspaceTargets),
            ).push(
                ActionView::BeginProgress(
                    Progress::RefreshAllWorkspaceTargets,
                    "Refreshing all workspace targets"@,
                ),
            )
        },
        Task::TargetsEnd { revision, targets, open_repository_changed } => {
            &&& t@ == targets_ended(s@, revision, views_of(targets), open_repository_changed)
            &&& after == before + target_end_actions(
                s@,
                revision,
                views_of(targets),
                open_repository_changed,
            )
        },
    }
}

impl Server {
    /// Handles what came of a job. What another configuration asked for does not
    /// count.
    pub fn handle_task(&mut self, task: Task, out: &mut Vec<Action>)
        requires
            old(self).wf(),
            old(self).session.revision < u64::MAX,
        ensures
            final(self).wf(),
            handled(*old(self), *final(self), task, shown(old(out)@), shown(final(out)@)),
    {
        match task {
            Task::AnalysisRequested(files) => {
                self.analysis_requested_for_files = Some(files);
            },
            Task::DiagnosticsReady(results) => {
                self.diagnostics_ready(&results, out);
            },
            Task::ResponseReady { revision, message } => {
                if revision == self.session.revision {
                    act(out, Action::Respond { message });
                } else {
                    act(out, Action::Handle { message });
                }
            },
            Task::ConfigurationReady { revision, result } => {
                self.finish_configuration_refresh(revision, result, out);
            },
            Task::ResolveRepoMappings => {},
            Task::RepoMappingsReady { repositories, revision, result } => {
                self.repo_mappings_ready(&repositories, revision, result, out);
            },
            Task::Retry { message } => {
                act(out, Action::Handle { message });
            },
            Task::FetchBegin(repositories) => {
                let title = fetch_title(&repositories);
                act(out, Action::CreateProgress(Progress::FetchExternalRepos));
                act(
                    out,
                    Action::BeginProgress { progress: Progress::FetchExternalRepos, title },
                );
            },
            Task::FetchEnd { revision, results, open_repository_changed } => {
                self.fetch_end(revision, results, open_repository_changed, out);
            },
            Task::FetchExternalRepoRequest { repo, revision } => {
                self.repo_request(repo, revision);
            },
            Task::TargetsBegin => {
                act(out, Action::CreateProgress(Progress::RefreshAllWorkspaceTargets));
                act(
                    out,
                    Action::BeginProgress {
                        progress: Progress::RefreshAllWorkspaceTargets,
                        title: "Refreshing all workspace targets".to_owned(),
                    },
                );
            },
            Task::TargetsEnd { revision, targets, open_repository_changed } => {
                self.targets_end(revision, targets, open_repository_changed, out);
            },
        }
    }

    /// Asks for the mappings that are missing, unless that is under way.
    pub fn resolve_repository_mappings(&mut self, out: &mut Vec<Action>)
        requires
            old(self).wf(),
        ensures
            final(self).wf(),
            mappings_asked(*old(self), *final(self), shown(old(out)@), shown(final(out)@)),
    {
        if self.session.is_resolving_repo_mappings || self.session.refreshing {
            return;
        }
        let repositories = self.loader.pending_repository_mappings();
        let ghost start = self.loader;
        let ghost all = choose|all: Seq<Seq<char>>| #[trigger]
            start.pending_names(all) && views(repositories@) == all.take(
                batch_size(all, MAPPING_EXTRA as nat, MAPPING_LIMIT as nat) as int,
            );
        proof {
            assert(views(repositories@).len() == repositories@.len());
            assert(start.pending_names(all));
        }
        if repositories.len() == 0 {
            return;
        }
        self.session = Session { is_resolving_repo_mappings: true, ..self.session };
        act(out, Action::QueryMappings { repositories, revision: self.session.revision });
    }

    /// Fetches the repositories that were asked for.
    pub fn fetch_bazel_external_repos(&mut self, out: &mut Vec<Action>)
        requires
            old(self).wf(),
        ensures
            final(self).wf(),
            final(self)@ == (ServerView {
                session: Session { is_fetching_repos: true, ..old(self).session },
                pending_repos: seq![],
                ..old(self)@
            }),
            shown(final(out)@) == shown(old(out)@).push(
                ActionView::FetchRepositories(old(self)@.pending_repos, old(self).session.revision),
            ),
    {
        let ghost start = self@;
        let mut repositories: Vec<String> = Vec::new();
        std::mem::swap(&mut self.pending_repos, &mut repositories);
        self.session = Session { is_fetching_repos: true, ..self.session };
        proof {
            assert(views(self.pending_repos@) =~= seq![]);
        }
        act(out, Action::FetchRepositories { repositories, revision: self.session.revision });
    }

    /// What is left to do once an event was handled: nothing while the
    /// configuration is refreshed. Then what is missing is asked for; after a
    /// change all open files are looked at, and else those that were asked for.
    pub fn settle(&mut self, out: &mut Vec<Action>)
        requires
            old(self).wf(),
        ensures
            final(self).wf(),
            old(self).session.refreshing ==> *final(self) == *old(self) && shown(final(out)@)
                == shown(old(out)@),
            !old(self).session.refreshing ==> settled(
                *old(self),
                *final(self),
                shown(old(out)@),
                shown(final(out)@),
            ),
    {
        if self.session.refreshing {
            return;
        }
        let ghost start = *self;
        let ghost shown_before = shown(out@);
        self.resolve_repository_mappings(out);
        let ghost middle = *self;
        let ghost asked = shown(out@);
        proof {
            assert(views(self.pending_repos@).len() == self.pending_repos@.len());
        }
        if self.pending_repos.len() > 0 && !self.session.is_fetching_repos {
            self.fetch_bazel_external_repos(out);
        }
        proof {
            assert(self@ == fetch_settled(middle@));
            assert(shown(out@) =~= asked + fetch_settled_actions(middle@));
        }
        let ghost now = *self;
        self.settle_analysis(out);
        proof {
            assert(mappings_asked(start, middle, shown_before, asked));
            assert(shown(out@) == asked + fetch_settled_actions(middle@) + analysis_settled_actions(
                now@,
            ));
            assert(analysis_settled_actions(now@) == analysis_settled_actions(middle@));
        }
    }

    /// Looks at open files again where that is due.
    fn settle_analysis(&mut self, out: &mut Vec<Action>)
        requires
            old(self).wf(),
        ensures
            final(self).wf(),
            final(self)@ == analysis_settled(old(self)@),
            shown(final(out)@) == shown(old(out)@) + analysis_settled_actions(old(self)@),
    {
        let ghost start = self@;
        let ghost shown_before = shown(out@);
        if self.session.analysis_changed {
            self.session = Session { analysis_changed: false, ..self.session };
            self.analysis_requested_for_files = None;
            act(out, Action::RequestAnalysis);
        } else {
            let mut files: Option<Vec<File>> = None;
            std::mem::swap(&mut self.analysis_requested_for_files, &mut files);
            match files {
                Some(files) => {
                    act(out, Action::UpdateDiagnostics(files));
                },
                None => {},
            }
        }
        proof {
            assert(shown(out@) =~= shown_before + analysis_settled_actions(start));
        }
    }
}

/// Whether the mappings that are missing were asked for.
pub open spec fn mappings_asked(
    s: Server,
    t: Server,
    before: Seq<ActionView>,
    after: Seq<ActionView>,
) -> bool {
    if s.session.is_resolving_repo_mappings || s.session.refreshing {
        t == s && after == before
    } else {
        exists|all: Seq<Seq<char>>| #[trigger]
            s.loader.pending_names(all) && {
                let batch = all.take(
                    batch_size(all, MAPPING_EXTRA as nat, MAPPING_LIMIT as nat) as int,
                );
                if batch.len() == 0 {
                    t == s && after == before
                } else {
                    &&& t@ == ServerView {
                        session: Session { is_resolving_repo_mappings: true, ..s.session },
                        ..s@
                    }
                    &&& after == before.push(ActionView::QueryMappings(batch, s.session.revision))
                }
            }
    }
}

/// The state once the repositories that were asked for are fetched.
pub open spec fn fetch_settled(s: ServerView) -> ServerView {
    if s.pending_repos.len() > 0 && !s.session.is_fetching_repos {
        ServerView {
            session: Session { is_fetching_repos: true, ..s.session },
            pending_repos: seq![],
            ..s
        }
    } else {
        s
    }
}

/// What is done to fetch the repositories that were asked for.
pub open spec fn fetch_settled_actions(s: ServerView) -> Seq<ActionView> {
    if s.pending_repos.len() > 0 && !s.session.is_fetching_repos {
        seq![ActionView::FetchRepositories(s.pending_repos, s.session.revision)]
    } else {
        seq![]
    }
}

/// The state once open files are looked at where that is due.
pub open spec fn analysis_settled(s: ServerView) -> ServerView {
    ServerView {
        session: Session { analysis_changed: false, ..s.session },
        requested: None,
        ..s
    }
}

/// What is done to look at open files where that is due.
pub open spec fn analysis_settled_actions(s: ServerView) -> Seq<ActionView> {
    if s.session.analysis_changed {
        seq![ActionView::RequestAnalysis]
    } else {
        match s.requested {
            Some(files) => seq![ActionView::UpdateDiagnostics(files)],
            None => seq![],
        }
    }
}

/// Whether what was left to do was done.
pub open spec fn settled(
    s: Server,
    t: Server,
    before: Seq<ActionView>,
    after: Seq<ActionView>,
) -> bool {
    exists|middle: Server, asked: Seq<ActionView>| #[trigger]
        mappings_asked(s, middle, before, asked) && t@ == analysis_settled(
            fetch_settled(middle@),
        ) && after == asked + fetch_settled_actions(middle@) + analysis_settled_actions(middle@)
}

/// Loading the configuration again outdates every result that is under way: the
/// revision is a new one, no diagnostic job counts, no repository waits, and no
/// label of another repository is resolved.
pub proof fn reload_outdates_results(s: ServerView)
    requires
        s.session.revision < u64::MAX,
    ensures
        reloaded(s).session.revision > s.session.revision,
        !reloaded(s).session.complete,
        reloaded(s).jobs == Map::<File, DiagnosticTicket>::empty(),
        reloaded(s).pending_repos.len() == 0,
        reloaded(s).loader.paused,
{
    reveal(reloaded);
    reveal(refresh_started);
}

/// A fetch that an earlier configuration asked for changes nothing that is known
/// of repositories, and is not looked at.
pub proof fn stale_fetches_do_not_count(
    s: ServerView,
    revision: u64,
    results: Seq<RepositoryFetchResult>,
    open_repository_changed: bool,
)
    requires
        revision != s.session.revision,
    ensures
        fetch_ended(s, revision, results, open_repository_changed).loader == s.loader,
        fetch_ended(s, revision, results, open_repository_changed).jobs == s.jobs,
        fetch_actions(s, revision, results, open_repository_changed) == seq![
            ActionView::EndProgress(Progress::FetchExternalRepos),
        ],
{
    assert(fetch_actions(s, revision, results, open_repository_changed) =~= seq![
        ActionView::EndProgress(Progress::FetchExternalRepos),
    ]);
}

/// A batch of mappings that an earlier configuration asked for changes no mapping
/// and does nothing.
pub proof fn stale_mappings_do_not_count(
    s: ServerView,
    t: ServerView,
    names: Seq<Seq<char>>,
    revision: u64,
    result: Result<Vec<RepoMapping>, String>,
    before: Seq<ActionView>,
    after: Seq<ActionView>,
)
    requires
        mappings_taken(s, t, names, revision, result, before, after),
        revision != s.session.revision || s.session.refreshing,
    ensures
        t.loader == s.loader,
        after == before,
        !t.session.is_resolving_repo_mappings,
{
}

/// A second request for a repository does nothing.
pub proof fn repositories_are_requested_once(s: ServerView, repo: Seq<char>, revision: u64)
    ensures
        repo_requested(repo_requested(s, repo, revision), repo, revision) == repo_requested(
            s,
            repo,
            revision,
        ),
{
}

/// One refresh of the configuration is under way at most: while one is, another
/// does not start.
pub proof fn refreshes_do_not_overlap(s: ServerView)
    requires
        s.session.refreshing,
    ensures
        refresh_started(s) == s,
        refresh_actions(s).len() == 0,
{
    reveal(refresh_started);
    reveal(refresh_actions);
}

/// A file whose diagnostics are asked for, and what is known of it.
#[derive(Clone, Copy, Debug)]
pub struct DiagnosticTarget {
    pub file: File,
    pub open: Option<File>,
    pub is_interface_root: bool,
    pub document: Option<DocumentStamp>,
    pub revision: Option<u128>,
}

/// The job for a file, with a number: for the one that is open in its place, or
/// for itself if it is the root of an interface.
pub open spec fn job_for(t: DiagnosticTarget, number: int) -> Option<(File, DiagnosticTicket)> {
    let target = if t.open is Some {
        t.open
    } else if t.is_interface_root {
        Some(t.file)
    } else {
        None
    };
    match (target, t.revision) {
        (Some(file), Some(revision)) => Some(
            (file, DiagnosticTicket { job: number as u64, document: t.document, revision }),
        ),
        _ => None,
    }
}

/// The jobs for the first of some files, in order.
pub open spec fn jobs_for(
    targets: Seq<DiagnosticTarget>,
    next: int,
    n: int,
) -> Seq<(File, DiagnosticTicket)>
    decreases n,
{
    if n <= 0 {
        seq![]
    } else {
        let rest = jobs_for(targets, next, n - 1);
        match job_for(targets[n - 1], next + rest.len() + 1) {
            Some(job) => rest.push(job),
            None => rest,
        }
    }
}

/// Jobs with others put in their places.
pub open spec fn jobs_with(
    jobs: Map<File, DiagnosticTicket>,
    more: Seq<(File, DiagnosticTicket)>,
    n: int,
) -> Map<File, DiagnosticTicket>
    decreases n,
{
    if n <= 0 {
        jobs
    } else {
        jobs_with(jobs, more, n - 1).insert(more[n - 1].0, more[n - 1].1)
    }
}

/// Jobs that are put in places do not depend on those that follow.
proof fn jobs_with_first(
    jobs: Map<File, DiagnosticTicket>,
    more: Seq<(File, DiagnosticTicket)>,
    job: (File, DiagnosticTicket),
    n: int,
)
    requires
        0 <= n <= more.len(),
    ensures
        jobs_with(jobs, more.push(job), n) == jobs_with(jobs, more, n),
    decreases n,
{
    if n > 0 {
        jobs_with_first(jobs, more, job, n - 1);
        assert(more.push(job)[n - 1] == more[n - 1]);
    }
}

impl Server {
    /// Starts the diagnostic jobs for files.
    pub fn update_diagnostics(&mut self, targets: &Vec<DiagnosticTarget>) -> (r: Vec<
        (File, DiagnosticTicket),
    >)
        requires
            old(self).wf(),
            old(self).diagnostics_manager.next_job + targets@.len() <= u64::MAX,
        ensures
            final(self).wf(),
            r@ == jobs_for(targets@, old(self)@.next_job as int, targets@.len() as int),
            final(self)@ == (ServerView {
                jobs: jobs_with(old(self)@.jobs, r@, r@.len() as int),
                next_job: (old(self)@.next_job + r@.len()) as u64,
                ..old(self)@
            }),
    {
        let ghost start = self@;
        let mut r: Vec<(File, DiagnosticTicket)> = Vec::new();
        let mut i: usize = 0;
        while i < targets.len()
            invariant
                i <= targets@.len(),
                self.wf(),
                start.next_job + targets@.len() <= u64::MAX,
                r@.len() <= i,
                r@ == jobs_for(targets@, start.next_job as int, i as int),
                self@ == (ServerView {
                    jobs: jobs_with(start.jobs, r@, r@.len() as int),
                    next_job: (start.next_job + r@.len()) as u64,
                    ..start
                }),
            decreases targets@.len() - i,
        {
            let t = targets[i];
            let ghost before = r@;
            let job = self.diagnostics_manager.request(
                t.file,
                t.open,
                t.is_interface_root,
                t.document,
                t.revision,
            );
            match job {
                Some(job) => {
                    r.push(job);
                    proof {
                        jobs_with_first(start.jobs, before, job, before.len() as int);
                        assert(job_for(t, start.next_job + before.len() + 1) == Some(job));
                    }
                },
                None => {},
            }
            i = i + 1;
        }
        r
    }

    /// A server for a workspace, before anything is known of its configuration. A
    /// refresh of that starts at once.
    pub fn with_client(
        workspace: String,
        options: Session,
        inputs: NameMap<Option<Vec<u8>>>,
        out: &mut Vec<Action>,
    ) -> (r: Server)
        ensures
            r.wf(),
            r@ == refresh_started(first_state(workspace@, options, inputs@)),
            shown(final(out)@) == shown(old(out)@) + refresh_actions(
                first_state(workspace@, options, inputs@),
            ),
    {
        let loader = Loader::new(workspace.clone(), None, None, false).for_editor(0);
        let mut server = Server {
            session: Session {
                revision: 0,
                complete: false,
                refreshing: false,
                pending: true,
                needs_reopen: false,
                restart_required: false,
                watcher_id: 0,
                is_fetching_repos: false,
                is_resolving_repo_mappings: false,
                is_refreshing_all_workspace_targets: false,
                bzlmod_enabled: false,
                ..options
            },
            workspace,
            loader,
            pending_repos: Vec::new(),
            inputs,
            watched: Vec::new(),
            analysis_requested_for_files: None,
            diagnostics_manager: DiagnosticsManager::new(),
        };
        proof {
            assert(views(server.pending_repos@) =~= seq![]);
            assert(views(server.watched@) =~= seq![]);
            assert(server@.loader == first_loader(workspace@));
            assert(server@ == first_state(workspace@, options, inputs@));
        }
        server.start_configuration_refresh(out);
        server
    }
}

/// What is known of a workspace at first: where it is.
pub open spec fn first_loader(workspace: Seq<char>) -> LoaderView {
    LoaderView {
        workspace,
        workspace_name: None,
        external: None,
        bzlmod: false,
        repositories: Map::empty(),
        roots: seq![workspace],
        revision: Some(0),
        defer: false,
        fetches: Map::empty(),
        mappings: Map::empty(),
        paused: false,
    }
}

/// The state of a server at first: what its client can do, and that its
/// configuration is to be prepared.
pub open spec fn first_state(
    workspace: Seq<char>,
    options: Session,
    inputs: Map<Seq<char>, Option<Vec<u8>>>,
) -> ServerView {
    ServerView {
        session: Session {
            revision: 0,
            complete: false,
            refreshing: false,
            pending: true,
            needs_reopen: false,
            restart_required: false,
            watcher_id: 0,
            is_fetching_repos: false,
            is_resolving_repo_mappings: false,
            is_refreshing_all_workspace_targets: false,
            bzlmod_enabled: false,
            ..options
        },
        workspace,
        loader: first_loader(workspace),
        pending_repos: seq![],
        inputs,
        watched: seq![],
        requested: None,
        jobs: Map::empty(),
        next_job: 0,
    }
}

/// A startup configuration that changed is not loaded again: another server is asked
/// for, and no refresh is pending.
pub proof fn restart_is_asked_for(s: ServerView)
    requires
        s.session.restart_required,
    ensures
        !reloaded(s).session.pending,
        reloaded(s).session.refreshing == s.session.refreshing,
        reload_actions(s).last() == ActionView::ShowError(restart_message()),
{
    reveal(reloaded);
    reveal(reload_actions);
}

} // verus!
