//! The diagnostic jobs that are under way, and whose results still count.

use vstd::prelude::*;

use crate::common::File;
use crate::system::DocumentStamp;

verus! {

/// A job: its number, and what it looks at.
#[derive(Clone, Copy, Debug, PartialEq, Eq, Structural)]
pub struct DiagnosticTicket {
    pub job: u64,
    pub document: Option<DocumentStamp>,
    pub revision: u128,
}

/// The jobs that a list of entries stands for. Of two for one file the later
/// counts.
pub open spec fn jobs_of(entries: Seq<(File, DiagnosticTicket)>) -> Map<File, DiagnosticTicket>
    decreases entries.len(),
{
    if entries.len() == 0 {
        Map::empty()
    } else {
        jobs_of(entries.drop_last()).insert(entries.last().0, entries.last().1)
    }
}

/// The jobs that are under way, one for a file. A result is handed on at once;
/// none is kept that could outlive the state of the editor it describes.
#[derive(Debug)]
pub struct DiagnosticsManager {
    pub next_job: u64,
    pub requested: Vec<(File, DiagnosticTicket)>,
}

impl View for DiagnosticsManager {
    type V = Map<File, DiagnosticTicket>;

    open spec fn view(&self) -> Map<File, DiagnosticTicket> {
        jobs_of(self.requested@)
    }
}

/// Whether a result still counts: its job is the last one for the file, and the
/// file is what the job looked at.
pub open spec fn counts(
    jobs: Map<File, DiagnosticTicket>,
    file: File,
    ticket: DiagnosticTicket,
    document: Option<DocumentStamp>,
    revision: Option<u128>,
) -> bool {
    &&& document == ticket.document
    &&& revision == Some(ticket.revision)
    &&& jobs.contains_key(file)
    &&& jobs[file] == ticket
}

/// A result counts at most once: once it was handed on, nothing makes it count
/// again but a new request for it.
pub proof fn counts_once(
    jobs: Map<File, DiagnosticTicket>,
    file: File,
    ticket: DiagnosticTicket,
    document: Option<DocumentStamp>,
    revision: Option<u128>,
)
    ensures
        !counts(jobs.remove(file), file, ticket, document, revision),
{
}

/// A job that another one for its file replaced no longer counts.
pub proof fn replaced_does_not_count(
    jobs: Map<File, DiagnosticTicket>,
    file: File,
    earlier: DiagnosticTicket,
    later: DiagnosticTicket,
    document: Option<DocumentStamp>,
    revision: Option<u128>,
)
    requires
        earlier.job < later.job,
    ensures
        !counts(jobs.insert(file, later), file, earlier, document, revision),
{
}

impl DiagnosticsManager {
    /// No job that is under way has a number that is still to come.
    pub open spec fn wf(self) -> bool {
        forall|file: File| #[trigger]
            self@.contains_key(file) ==> self@[file].job <= self.next_job
    }

    pub fn new() -> (r: Self)
        ensures
            r.wf(),
            r.next_job == 0,
            r@ == Map::<File, DiagnosticTicket>::empty(),
    {
        DiagnosticsManager { next_job: 0, requested: Vec::new() }
    }

    /// Starts a job for a file: the one that the editor has open in place of it,
    /// or itself if it is the root of an interface. Another file gets none, nor
    /// one that cannot be read.
    pub fn request(
        &mut self,
        file: File,
        open: Option<File>,
        is_interface_root: bool,
        document: Option<DocumentStamp>,
        revision: Option<u128>,
    ) -> (r: Option<(File, DiagnosticTicket)>)
        requires
            old(self).wf(),
            old(self).next_job < u64::MAX,
        ensures
            final(self).wf(),
            match (
                if open is Some {
                    open
                } else if is_interface_root {
                    Some(file)
                } else {
                    None
                },
                revision,
            ) {
                (Some(target), Some(revision)) => {
                    let ticket = DiagnosticTicket {
                        job: final(self).next_job,
                        document,
                        revision,
                    };
                    &&& final(self).next_job == old(self).next_job + 1
                    &&& r == Some((target, ticket))
                    &&& final(self)@ == old(self)@.insert(target, ticket)
                },
                _ => r is None && *final(self) == *old(self),
            },
    {
        let target = match open {
            Some(open) => open,
            None => {
                if !is_interface_root {
                    return None;
                }
                file
            },
        };
        let revision = match revision {
            Some(revision) => revision,
            None => {
                return None;
            },
        };
        let ghost start = *self;
        self.next_job = self.next_job + 1;
        let ticket = DiagnosticTicket { job: self.next_job, document, revision };
        self.forget(target);
        let ghost before = self.requested@;
        self.requested.push((target, ticket));
        proof {
            assert(self.requested@.drop_last() =~= before);
            assert(self@ =~= start@.insert(target, ticket));
        }
        Some((target, ticket))
    }

    /// Takes the job of a file out.
    fn forget(&mut self, file: File)
        ensures
            final(self).next_job == old(self).next_job,
            final(self)@ == old(self)@.remove(file),
    {
        let mut kept: Vec<(File, DiagnosticTicket)> = Vec::new();
        let mut i: usize = 0;
        proof {
            assert(jobs_of(self.requested@.take(0)) =~= Map::empty());
            assert(jobs_of(kept@) =~= jobs_of(self.requested@.take(0)).remove(file));
        }
        while i < self.requested.len()
            invariant
                i <= self.requested@.len(),
                self.next_job == old(self).next_job,
                self.requested == old(self).requested,
                jobs_of(kept@) == jobs_of(self.requested@.take(i as int)).remove(file),
            decreases self.requested@.len() - i,
        {
            let entry = self.requested[i];
            let ghost before = kept@;
            if entry.0 != file {
                kept.push(entry);
            }
            proof {
                let taken = self.requested@.take(i + 1);
                assert(taken.drop_last() =~= self.requested@.take(i as int));
                assert(taken.last() == entry);
                if entry.0 != file {
                    assert(kept@.drop_last() =~= before);
                }
                assert(jobs_of(kept@) =~= jobs_of(taken).remove(file));
            }
            i = i + 1;
        }
        proof {
            assert(self.requested@.take(i as int) =~= self.requested@);
        }
        self.requested = kept;
    }

    /// Takes every job out. Open files may depend on what changed, though they
    /// did not change themselves.
    pub fn cancel_all(&mut self)
        requires
            old(self).wf(),
        ensures
            final(self).wf(),
            final(self).next_job == old(self).next_job,
            final(self)@ == Map::<File, DiagnosticTicket>::empty(),
    {
        self.requested = Vec::new();
    }

    /// Whether a result counts. The job is over then.
    pub fn complete(
        &mut self,
        file: File,
        ticket: DiagnosticTicket,
        document: Option<DocumentStamp>,
        revision: Option<u128>,
    ) -> (r: bool)
        requires
            old(self).wf(),
        ensures
            final(self).wf(),
            final(self).next_job == old(self).next_job,
            r == counts(old(self)@, file, ticket, document, revision),
            final(self)@ == if r {
                old(self)@.remove(file)
            } else {
                old(self)@
            },
    {
        if document != ticket.document || revision != Some(ticket.revision) {
            return false;
        }
        match self.job(file) {
            Some(current) => {
                if current != ticket {
                    return false;
                }
            },
            None => {
                return false;
            },
        }
        self.forget(file);
        true
    }

    /// The job of a file.
    fn job(&self, file: File) -> (r: Option<DiagnosticTicket>)
        ensures
            match r {
                Some(ticket) => self@.contains_key(file) && self@[file] == ticket,
                None => !self@.contains_key(file),
            },
    {
        let mut i: usize = self.requested.len();
        proof {
            assert(self.requested@.take(i as int) =~= self.requested@);
        }
        while i > 0
            invariant
                i <= self.requested@.len(),
                self@.contains_key(file) == jobs_of(self.requested@.take(i as int)).contains_key(
                    file,
                ),
                self@.contains_key(file) ==> self@[file] == jobs_of(
                    self.requested@.take(i as int),
                )[file],
            decreases i,
        {
            proof {
                let taken = self.requested@.take(i as int);
                assert(taken.drop_last() =~= self.requested@.take(i - 1));
                assert(taken.last() == self.requested@[i - 1]);
            }
            i = i - 1;
            if self.requested[i].0 == file {
                return Some(self.requested[i].1);
            }
        }
        None
    }
}

/// The files that wait to be looked at until nothing more comes.
#[derive(Debug)]
pub struct AnalysisDebouncer {
    pub active: bool,
    pub pending: Vec<File>,
}

impl AnalysisDebouncer {
    /// Nothing waits that was not asked for, and nothing waits twice.
    pub open spec fn wf(self) -> bool {
        &&& !self.active ==> self.pending@.len() == 0
        &&& self.pending@.no_duplicates()
    }

    pub fn new() -> (r: Self)
        ensures
            r.wf(),
            !r.active,
            r.pending@.len() == 0,
    {
        AnalysisDebouncer { active: false, pending: Vec::new() }
    }

    /// Files that are to be looked at, each once, whenever they are.
    pub fn received(&mut self, files: &Vec<File>)
        requires
            old(self).wf(),
        ensures
            final(self).wf(),
            final(self).active,
            forall|file: File|
                #[trigger] final(self).pending@.contains(file) <==> old(self).pending@.contains(file)
                    || files@.contains(file),
    {
        self.active = true;
        let ghost start = self.pending@;
        let mut i: usize = 0;
        while i < files.len()
            invariant
                i <= files@.len(),
                self.active,
                self.pending@.no_duplicates(),
                forall|file: File|
                    #[trigger] self.pending@.contains(file) <==> start.contains(file)
                        || files@.take(i as int).contains(file),
            decreases files@.len() - i,
        {
            let file = files[i];
            let ghost before = self.pending@;
            let known = has_file(&self.pending, file);
            if !known {
                self.pending.push(file);
            }
            proof {
                let taken = files@.take(i as int);
                let more = files@.take(i + 1);
                assert(more =~= taken.push(file));
                assert forall|f: File|
                    #[trigger] self.pending@.contains(f) <==> start.contains(f) || more.contains(
                        f,
                    ) by {
                    assert(before.contains(f) <==> start.contains(f) || taken.contains(f));
                    file_pushed(taken, file, f);
                    if !known {
                        file_pushed(before, file, f);
                    }
                }
            }
            i = i + 1;
        }
        proof {
            assert(files@.take(i as int) =~= files@);
        }
    }

    /// Nothing more came for a while: the files that wait are looked at.
    pub fn elapsed(&mut self) -> (r: Option<Vec<File>>)
        requires
            old(self).wf(),
        ensures
            final(self).wf(),
            !final(self).active,
            final(self).pending@.len() == 0,
            match r {
                Some(files) => old(self).active && files@ == old(self).pending@
                    && files@.no_duplicates(),
                None => !old(self).active,
            },
    {
        if !self.active {
            return None;
        }
        let mut files: Vec<File> = Vec::new();
        std::mem::swap(&mut self.pending, &mut files);
        self.active = false;
        Some(files)
    }
}

/// Whether a file is in a list.
fn has_file(files: &Vec<File>, file: File) -> (r: bool)
    ensures
        r == files@.contains(file),
{
    let mut i: usize = 0;
    while i < files.len()
        invariant
            i <= files@.len(),
            forall|k: int| 0 <= k < i ==> files@[k] != file,
        decreases files@.len() - i,
    {
        if files[i] == file {
            proof {
                assert(files@[i as int] == file);
            }
            return true;
        }
        i = i + 1;
    }
    false
}

/// A list with a file at its end holds that file, and what it held.
proof fn file_pushed(files: Seq<File>, file: File, f: File)
    ensures
        files.push(file).contains(f) <==> files.contains(f) || f == file,
{
    let more = files.push(file);
    if more.contains(f) {
        let k = choose|k: int| 0 <= k < more.len() && more[k] == f;
        if k < files.len() {
            assert(files[k] == f);
        }
    }
    if files.contains(f) {
        let k = choose|k: int| 0 <= k < files.len() && files[k] == f;
        assert(more[k] == f);
    }
    if f == file {
        assert(more[files.len() as int] == f);
    }
}

} // verus!
