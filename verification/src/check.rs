//! Checking files: what they load, and what is reported of them.

use std::hash::RandomState;

use indexmap::{IndexMap, IndexSet};

use vstd::prelude::*;

use crate::client::digits;
use crate::common::{Dialect, FileInfo};
use crate::paths::is_under;
use crate::protocol::Severity;
use crate::source_kind::{kind_of, source_kind};
use crate::text::{debug_path, path_in_quotes};

verus! {

/// A set that remembers the order in which its items came.
#[verifier::external_type_specification]
#[verifier::external_body]
#[verifier::reject_recursive_types(T)]
#[verifier::reject_recursive_types(S)]
pub struct ExIndexSet<T, S>(indexmap::IndexSet<T, S>);

/// A map that remembers the order in which its keys came.
#[verifier::external_type_specification]
#[verifier::external_body]
#[verifier::reject_recursive_types(K)]
#[verifier::reject_recursive_types(V)]
#[verifier::reject_recursive_types(S)]
pub struct ExIndexMap<K, V, S>(indexmap::IndexMap<K, V, S>);

/// The items of a set, in the order in which they came.
pub uninterp spec fn set_items(set: IndexSet<usize, RandomState>) -> Seq<usize>;

/// What a map has at its keys.
pub uninterp spec fn map_lists(map: IndexMap<usize, Vec<usize>, RandomState>) -> Map<
    usize,
    Seq<usize>,
>;

/// Nothing at any key.
pub open spec fn no_lists() -> Map<usize, Seq<usize>> {
    Map::empty()
}

/// `IndexSet::new` holds nothing.
#[verifier::external_body]
fn empty_set() -> (r: IndexSet<usize, RandomState>)
    ensures
        set_items(r) == Seq::<usize>::empty(),
{
    IndexSet::new()
}

/// `IndexSet::insert` adds an item behind the others, unless it is there.
#[verifier::external_body]
fn add_item(set: &mut IndexSet<usize, RandomState>, item: usize) -> (added: bool)
    ensures
        added == !set_items(*old(set)).contains(item),
        set_items(*final(set)) == if added {
            set_items(*old(set)).push(item)
        } else {
            set_items(*old(set))
        },
{
    set.insert(item)
}

/// `IndexSet::iter` hands the items out in the order in which they came.
#[verifier::external_body]
fn items_of(set: &IndexSet<usize, RandomState>) -> (items: Vec<usize>)
    ensures
        items@ == set_items(*set),
{
    set.iter().copied().collect()
}

/// `IndexMap::new` holds nothing.
#[verifier::external_body]
fn empty_map() -> (r: IndexMap<usize, Vec<usize>, RandomState>)
    ensures
        map_lists(r) == no_lists(),
{
    IndexMap::new()
}

/// `IndexMap::insert` puts a value at a key, in place of the one there.
#[verifier::external_body]
fn put_list(map: &mut IndexMap<usize, Vec<usize>, RandomState>, key: usize, list: Vec<usize>)
    ensures
        map_lists(*final(map)) == map_lists(*old(map)).insert(key, list@),
{
    map.insert(key, list);
}

/// `IndexMap::get` gives the value at a key, which is cloned.
#[verifier::external_body]
fn list_at(map: &IndexMap<usize, Vec<usize>, RandomState>, key: usize) -> (list: Option<Vec<usize>>)
    ensures
        match list {
            Some(list) => map_lists(*map).contains_key(key) && list@ == map_lists(*map)[key],
            None => !map_lists(*map).contains_key(key),
        },
{
    map.get(&key).cloned()
}

/// What a load of a file leads to.
#[derive(Clone, Copy, Debug, PartialEq, Eq, Structural)]
pub enum LoadResolution {
    Resolved(usize),
    Pending,
    Failed,
}

/// The files that are loaded from some files, as they are found. Files are known by
/// numbers.
pub struct LoadGraph {
    pub files: IndexSet<usize, RandomState>,
    pub unresolved: IndexMap<usize, Vec<usize>, RandomState>,
    pub frontier: Vec<usize>,
    pub pending: IndexSet<usize, RandomState>,
}

/// Some files, and those that the first loads lead to.
pub open spec fn files_after(files: Seq<usize>, loads: Seq<LoadResolution>, n: int) -> Seq<usize>
    decreases n,
{
    if n <= 0 {
        files
    } else {
        let before = files_after(files, loads, n - 1);
        match loads[n - 1] {
            LoadResolution::Resolved(file) if !before.contains(file) => before.push(file),
            _ => before,
        }
    }
}

/// The numbers of those of the first loads that lead nowhere yet.
pub open spec fn unresolved_in(loads: Seq<LoadResolution>, n: int) -> Seq<usize>
    decreases n,
{
    if n <= 0 {
        seq![]
    } else if loads[n - 1] is Resolved {
        unresolved_in(loads, n - 1)
    } else {
        unresolved_in(loads, n - 1).push((n - 1) as usize)
    }
}

/// Whether one of the first loads waits for something.
pub open spec fn waits(loads: Seq<LoadResolution>, n: int) -> bool {
    exists|k: int| 0 <= k < n && #[trigger] loads[k] is Pending
}

/// A list with an item behind it, unless it is there.
pub open spec fn with_item(items: Seq<usize>, item: usize) -> Seq<usize> {
    if items.contains(item) {
        items
    } else {
        items.push(item)
    }
}

/// Items with others behind them, each once.
pub open spec fn with_items(items: Seq<usize>, more: Seq<usize>, n: int) -> Seq<usize>
    decreases n,
{
    if n <= 0 {
        items
    } else {
        with_item(with_items(items, more, n - 1), more[n - 1])
    }
}

/// Adds items, each once.
fn add_items(set: &mut IndexSet<usize, RandomState>, more: &Vec<usize>)
    ensures
        set_items(*final(set)) == with_items(set_items(*old(set)), more@, more@.len() as int),
{
    let ghost start = set_items(*set);
    let mut i: usize = 0;
    while i < more.len()
        invariant
            i <= more@.len(),
            set_items(*set) == with_items(start, more@, i as int),
        decreases more@.len() - i,
    {
        add_item(set, more[i]);
        i = i + 1;
    }
}

impl LoadGraph {
    /// The files that were found.
    pub open spec fn found(self) -> Seq<usize> {
        set_items(self.files)
    }

    /// Every file that was found was visited, or is still to be.
    pub open spec fn wf(self) -> bool {
        forall|k: int|
            0 <= k < self.found().len() ==> self.frontier@.contains(#[trigger] self.found()[k])
                || map_lists(self.unresolved).contains_key(self.found()[k])
    }

    /// The graph of some files, before one is visited.
    pub fn new(files: &Vec<usize>, sources: &Vec<usize>) -> (r: Self)
        ensures
            r.wf(),
            r.found() == with_items(
                with_items(Seq::empty(), files@, files@.len() as int),
                sources@,
                sources@.len() as int,
            ),
            r.frontier@ == r.found(),
            map_lists(r.unresolved) == Map::<usize, Seq<usize>>::empty(),
            set_items(r.pending) == Seq::<usize>::empty(),
    {
        let mut set = empty_set();
        add_items(&mut set, files);
        add_items(&mut set, sources);
        let frontier = items_of(&set);
        let r = LoadGraph {
            files: set,
            unresolved: empty_map(),
            frontier,
            pending: empty_set(),
        };
        proof {
            assert forall|k: int| 0 <= k < r.found().len() implies r.frontier@.contains(
                #[trigger] r.found()[k],
            ) by {
                assert(r.frontier@[k] == r.found()[k]);
            }
        }
        r
    }

    /// The file that is visited next.
    pub fn next(&self) -> (r: Option<usize>)
        ensures
            r == if self.frontier@.len() > 0 {
                Some(self.frontier@.last())
            } else {
                None
            },
    {
        let n = self.frontier.len();
        if n > 0 {
            Some(self.frontier[n - 1])
        } else {
            None
        }
    }

    /// Visits the next file, given what its loads lead to. Those that were not
    /// found before are visited later; those that lead nowhere yet are noted.
    pub fn visit(&mut self, loads: &Vec<LoadResolution>)
        requires
            old(self).wf(),
            old(self).frontier@.len() > 0,
        ensures
            final(self).wf(),
            ({
                let file = old(self).frontier@.last();
                let n = loads@.len() as int;
                let files = files_after(old(self).found(), loads@, n);
                &&& final(self).found() == files
                &&& final(self).frontier@ == old(self).frontier@.drop_last() + files.skip(
                    old(self).found().len() as int,
                )
                &&& map_lists(final(self).unresolved) == map_lists(old(self).unresolved).insert(
                    file,
                    unresolved_in(loads@, n),
                )
                &&& set_items(final(self).pending) == if waits(loads@, n) {
                    with_item(set_items(old(self).pending), file)
                } else {
                    set_items(old(self).pending)
                }
            }),
    {
        let ghost start = *self;
        let ghost before = self.found();
        let ghost rest = self.frontier@.drop_last();
        let file = match self.frontier.pop() {
            Some(file) => file,
            None => {
                return;
            },
        };
        let mut unresolved: Vec<usize> = Vec::new();
        let mut waiting = false;
        let mut i: usize = 0;
        proof {
            assert(rest =~= rest + before.skip(before.len() as int));
        }
        while i < loads.len()
            invariant
                i <= loads@.len(),
                before == start.found(),
                self.unresolved == start.unresolved,
                self.pending == start.pending,
                self.found() == files_after(before, loads@, i as int),
                before.len() <= self.found().len(),
                self.found().take(before.len() as int) == before,
                self.frontier@ == rest + self.found().skip(before.len() as int),
                unresolved@ == unresolved_in(loads@, i as int),
                waiting == waits(loads@, i as int),
            decreases loads@.len() - i,
        {
            let ghost found = self.found();
            match loads[i] {
                LoadResolution::Resolved(loaded) => {
                    if add_item(&mut self.files, loaded) {
                        self.frontier.push(loaded);
                        proof {
                            let now = self.found();
                            assert(now =~= found.push(loaded));
                            assert(now.take(before.len() as int) =~= found.take(
                                before.len() as int,
                            ));
                            assert(now.skip(before.len() as int) =~= found.skip(
                                before.len() as int,
                            ).push(loaded));
                            assert(self.frontier@ =~= rest + now.skip(before.len() as int));
                        }
                    }
                },
                LoadResolution::Pending => {
                    waiting = true;
                    unresolved.push(i);
                    proof {
                        assert(loads@[i as int] is Pending);
                    }
                },
                LoadResolution::Failed => {
                    unresolved.push(i);
                },
            }
            proof {
                if waits(loads@, i + 1) {
                    let k = choose|k: int| 0 <= k < i + 1 && #[trigger] loads@[k] is Pending;
                    if k < i {
                        assert(waits(loads@, i as int));
                    }
                }
                if waits(loads@, i as int) {
                    let k = choose|k: int| 0 <= k < i && #[trigger] loads@[k] is Pending;
                    assert(loads@[k] is Pending);
                }
            }
            i = i + 1;
        }
        if waiting {
            add_item(&mut self.pending, file);
        }
        put_list(&mut self.unresolved, file, unresolved);
        proof {
            let now = self.found();
            assert forall|k: int| 0 <= k < now.len() implies self.frontier@.contains(
                #[trigger] now[k],
            ) || map_lists(self.unresolved).contains_key(now[k]) by {
                if k < before.len() {
                    assert(now.take(before.len() as int)[k] == now[k]);
                    assert(before[k] == now[k]);
                    assert(start.frontier@.contains(start.found()[k])
                        || map_lists(start.unresolved).contains_key(start.found()[k]));
                    if start.frontier@.contains(now[k]) {
                        let j = choose|j: int|
                            0 <= j < start.frontier@.len() && start.frontier@[j] == now[k];
                        if j < start.frontier@.len() - 1 {
                            assert(rest[j] == now[k]);
                            assert(self.frontier@[j] == now[k]);
                        }
                    }
                } else {
                    let at = rest.len() + (k - before.len());
                    assert(self.frontier@[at] == now[k]);
                }
            }
        }
    }

    /// Visits those files again that wait for something.
    pub fn retry(&mut self)
        requires
            old(self).wf(),
        ensures
            final(self).wf(),
            final(self).found() == old(self).found(),
            map_lists(final(self).unresolved) == map_lists(old(self).unresolved),
            final(self).frontier@ == old(self).frontier@ + set_items(old(self).pending),
            set_items(final(self).pending) == Seq::<usize>::empty(),
    {
        let ghost start = *self;
        let items = items_of(&self.pending);
        let mut i: usize = 0;
        proof {
            assert(self.frontier@ =~= start.frontier@ + items@.take(0));
        }
        while i < items.len()
            invariant
                i <= items@.len(),
                self.files == start.files,
                self.unresolved == start.unresolved,
                self.frontier@ == start.frontier@ + items@.take(i as int),
            decreases items@.len() - i,
        {
            self.frontier.push(items[i]);
            proof {
                assert(self.frontier@ =~= start.frontier@ + items@.take(i + 1));
            }
            i = i + 1;
        }
        self.pending = empty_set();
        proof {
            assert(items@.take(i as int) =~= items@);
            let now = self.found();
            assert forall|k: int| 0 <= k < now.len() implies self.frontier@.contains(
                #[trigger] now[k],
            ) || map_lists(self.unresolved).contains_key(now[k]) by {
                assert(start.found()[k] == now[k]);
                if start.frontier@.contains(now[k]) {
                    let j = choose|j: int|
                        0 <= j < start.frontier@.len() && start.frontier@[j] == now[k];
                    assert(self.frontier@[j] == now[k]);
                }
            }
        }
    }

    /// The files that were found, in the order in which they were.
    pub fn files(&self) -> (r: Vec<usize>)
        ensures
            r@ == self.found(),
    {
        items_of(&self.files)
    }

    /// The numbers of the loads of a visited file that lead nowhere.
    pub fn unresolved(&self, file: usize) -> (r: Option<Vec<usize>>)
        ensures
            match r {
                Some(list) => map_lists(self.unresolved).contains_key(file) && list@ == map_lists(
                    self.unresolved,
                )[file],
                None => !map_lists(self.unresolved).contains_key(file),
            },
    {
        list_at(&self.unresolved, file)
    }

    /// Whether a load of the first files that were found leads nowhere.
    pub open spec fn lacks_within(self, n: int) -> bool {
        exists|k: int|
            0 <= k < n && map_lists(self.unresolved).contains_key(#[trigger] self.found()[k])
                && map_lists(self.unresolved)[self.found()[k]].len() > 0
    }

    /// Whether a load of a file that was found leads nowhere.
    pub open spec fn lacks(self) -> bool {
        self.lacks_within(self.found().len() as int)
    }

    /// Whether a load of a file that was found leads nowhere.
    pub fn has_unresolved(&self) -> (r: bool)
        ensures
            r == self.lacks(),
    {
        let files = self.files();
        let mut i: usize = 0;
        while i < files.len()
            invariant
                i <= files@.len(),
                files@ == self.found(),
                !self.lacks_within(i as int),
            decreases files@.len() - i,
        {
            match self.unresolved(files[i]) {
                Some(loads) => {
                    if loads.len() > 0 {
                        proof {
                            assert(self.found()[i as int] == files@[i as int]);
                        }
                        return true;
                    }
                },
                None => {},
            }
            i = i + 1;
        }
        false
    }

    /// Once no file is left to visit, every file that was found was visited.
    pub proof fn all_are_visited(self, file: usize)
        requires
            self.wf(),
            self.frontier@.len() == 0,
            self.found().contains(file),
        ensures
            map_lists(self.unresolved).contains_key(file),
    {
        let k = choose|k: int| 0 <= k < self.found().len() && self.found()[k] == file;
        assert(self.frontier@.contains(self.found()[k]) || map_lists(self.unresolved).contains_key(
            self.found()[k],
        ));
    }
}

/// How many diagnostics there are of each kind.
#[derive(Clone, Copy, Debug, PartialEq, Eq, Structural)]
pub struct Counts {
    pub errors: usize,
    pub warnings: usize,
    pub infos: usize,
}

/// How many of the first of some diagnostics are of a kind.
pub open spec fn count_of(severities: Seq<Severity>, kind: Severity, n: int) -> nat
    decreases n,
{
    if n <= 0 {
        0
    } else {
        count_of(severities, kind, n - 1) + if severities[n - 1] == kind {
            1nat
        } else {
            0nat
        }
    }
}

/// A file, and how bad its diagnostics are.
#[derive(Debug)]
pub struct CheckedFile {
    pub file: usize,
    pub severities: Vec<Severity>,
}

/// How many diagnostics of a kind the first of some files have, but for those in
/// `left_out`.
pub open spec fn total_of(
    files: Seq<CheckedFile>,
    left_out: Seq<CheckedFile>,
    kind: Severity,
    n: int,
) -> nat
    decreases n,
{
    if n <= 0 {
        0
    } else {
        let list = files[n - 1].severities@;
        total_of(files, left_out, kind, n - 1) + if is_listed(left_out, files[n - 1].file) {
            0nat
        } else {
            count_of(list, kind, list.len() as int)
        }
    }
}

/// Whether a file is one of a list.
pub open spec fn is_listed(files: Seq<CheckedFile>, file: usize) -> bool {
    exists|k: int| 0 <= k < files.len() && (#[trigger] files[k]).file == file
}

/// Adds the diagnostics of a file. There are never as many as memory has
/// addresses.
pub fn report_diagnostics_for_file(severities: &Vec<Severity>, counts: Counts) -> (r: Counts)
    requires
        counts.errors + severities@.len() <= usize::MAX,
        counts.warnings + severities@.len() <= usize::MAX,
        counts.infos + severities@.len() <= usize::MAX,
    ensures
        ({
            let n = severities@.len() as int;
            &&& r.errors == counts.errors + count_of(severities@, Severity::Error, n) + count_of(
                severities@,
                Severity::Fatal,
                n,
            )
            &&& r.warnings == counts.warnings + count_of(severities@, Severity::Warning, n)
            &&& r.infos == counts.infos + count_of(severities@, Severity::Info, n)
        }),
{
    let mut r = counts;
    let mut i: usize = 0;
    while i < severities.len()
        invariant
            i <= severities@.len(),
            counts.errors + severities@.len() <= usize::MAX,
            counts.warnings + severities@.len() <= usize::MAX,
            counts.infos + severities@.len() <= usize::MAX,
            r.errors <= counts.errors + i,
            r.warnings <= counts.warnings + i,
            r.infos <= counts.infos + i,
            r.errors == counts.errors + count_of(severities@, Severity::Error, i as int) + count_of(
                severities@,
                Severity::Fatal,
                i as int,
            ),
            r.warnings == counts.warnings + count_of(severities@, Severity::Warning, i as int),
            r.infos == counts.infos + count_of(severities@, Severity::Info, i as int),
        decreases severities@.len() - i,
    {
        match severities[i] {
            Severity::Info => {
                r = Counts { infos: r.infos + 1, ..r };
            },
            Severity::Warning => {
                r = Counts { warnings: r.warnings + 1, ..r };
            },
            Severity::Error => {
                r = Counts { errors: r.errors + 1, ..r };
            },
            Severity::Fatal => {
                r = Counts { errors: r.errors + 1, ..r };
            },
        }
        i = i + 1;
    }
    r
}

/// What is said at the end, and whether the check failed: for an error, or for a
/// load that stayed unresolved.
pub open spec fn summary_of(counts: Counts, unresolved: bool) -> (bool, Option<Seq<char>>) {
    if counts.errors > 0 || unresolved {
        (
            true,
            Some(
                if counts.warnings > 0 {
                    "failed with "@ + digits(counts.errors as nat) + " errors and "@ + (digits(
                        counts.warnings as nat,
                    ) + " warnings"@)
                } else {
                    "failed with "@ + digits(counts.errors as nat) + " errors"@
                },
            ),
        )
    } else if counts.warnings > 0 {
        (false, Some("passed with "@ + digits(counts.warnings as nat) + " warnings"@))
    } else {
        (false, None)
    }
}

/// What is said at the end, and whether the check failed.
pub fn summary(counts: Counts, unresolved: bool) -> (r: (bool, Option<String>))
    ensures
        r.0 == summary_of(counts, unresolved).0,
        match r.1 {
            Some(text) => summary_of(counts, unresolved).1 == Some(text@),
            None => summary_of(counts, unresolved).1 is None,
        },
{
    let errors = crate::client::decimal(counts.errors);
    let warnings = crate::client::decimal(counts.warnings);
    if counts.errors > 0 || unresolved {
        if counts.warnings > 0 {
            let start = crate::text::join3("failed with ", errors.as_str(), " errors and ");
            let end = crate::text::join(warnings.as_str(), " warnings");
            (true, Some(crate::text::join(start.as_str(), end.as_str())))
        } else {
            (true, Some(crate::text::join3("failed with ", errors.as_str(), " errors")))
        }
    } else if counts.warnings > 0 {
        (false, Some(crate::text::join3("passed with ", warnings.as_str(), " warnings")))
    } else {
        (false, None)
    }
}

/// What is reported of a check.
#[derive(Debug)]
pub struct Report {
    pub ignored: Vec<String>,
    pub shown: Vec<usize>,
    pub counts: Counts,
    pub failed: bool,
    pub summary: Option<String>,
}

/// The files that are shown: those of the first ones that were not validated.
pub open spec fn shown_files(
    files: Seq<CheckedFile>,
    validated: Seq<CheckedFile>,
    n: int,
) -> Seq<usize>
    decreases n,
{
    if n <= 0 {
        seq![]
    } else if is_listed(validated, files[n - 1].file) {
        shown_files(files, validated, n - 1)
    } else {
        shown_files(files, validated, n - 1).push(files[n - 1].file)
    }
}

/// The message for a file that is not checked.
pub open spec fn ignored_message(path: Seq<char>) -> Seq<char> {
    "non-Starlark file "@ + debug_path(path) + " was ignored"@
}

/// How many diagnostics files have.
pub open spec fn diagnostics_in(files: Seq<CheckedFile>, n: int) -> nat
    decreases n,
{
    if n <= 0 {
        0
    } else {
        diagnostics_in(files, n - 1) + files[n - 1].severities@.len()
    }
}

/// Whether a file is one of a list.
fn listed(files: &Vec<CheckedFile>, file: usize) -> (r: bool)
    ensures
        r == is_listed(files@, file),
{
    let mut k: usize = 0;
    while k < files.len()
        invariant
            k <= files@.len(),
            forall|j: int| 0 <= j < k ==> (#[trigger] files@[j]).file != file,
        decreases files@.len() - k,
    {
        if files[k].file == file {
            return true;
        }
        k = k + 1;
    }
    false
}

/// The counts of some files, but for those that are left out.
pub open spec fn are_counts(
    start: Counts,
    files: Seq<CheckedFile>,
    left_out: Seq<CheckedFile>,
    n: int,
    r: Counts,
) -> bool {
    &&& r.errors == start.errors + total_of(files, left_out, Severity::Error, n) + total_of(
        files,
        left_out,
        Severity::Fatal,
        n,
    )
    &&& r.warnings == start.warnings + total_of(files, left_out, Severity::Warning, n)
    &&& r.infos == start.infos + total_of(files, left_out, Severity::Info, n)
}

/// Counts the diagnostics of files, but for those that are left out.
fn count_files(files: &Vec<CheckedFile>, left_out: &Vec<CheckedFile>, start: Counts) -> (r: (
    Counts,
    Vec<usize>,
))
    requires
        start.errors + diagnostics_in(files@, files@.len() as int) <= usize::MAX,
        start.warnings + diagnostics_in(files@, files@.len() as int) <= usize::MAX,
        start.infos + diagnostics_in(files@, files@.len() as int) <= usize::MAX,
    ensures
        are_counts(start, files@, left_out@, files@.len() as int, r.0),
        r.1@ == shown_files(files@, left_out@, files@.len() as int),
        r.0.errors <= start.errors + diagnostics_in(files@, files@.len() as int),
        r.0.warnings <= start.warnings + diagnostics_in(files@, files@.len() as int),
        r.0.infos <= start.infos + diagnostics_in(files@, files@.len() as int),
{
    let mut counts = start;
    let mut shown: Vec<usize> = Vec::new();
    let mut i: usize = 0;
    while i < files.len()
        invariant
            i <= files@.len(),
            start.errors + diagnostics_in(files@, files@.len() as int) <= usize::MAX,
            start.warnings + diagnostics_in(files@, files@.len() as int) <= usize::MAX,
            start.infos + diagnostics_in(files@, files@.len() as int) <= usize::MAX,
            counts.errors <= start.errors + diagnostics_in(files@, i as int),
            counts.warnings <= start.warnings + diagnostics_in(files@, i as int),
            counts.infos <= start.infos + diagnostics_in(files@, i as int),
            are_counts(start, files@, left_out@, i as int, counts),
            shown@ == shown_files(files@, left_out@, i as int),
        decreases files@.len() - i,
    {
        proof {
            diagnostics_rise(files@, i + 1, files@.len() as int);
        }
        if !listed(left_out, files[i].file) {
            shown.push(files[i].file);
            let list = &files[i].severities;
            counts = report_diagnostics_for_file(list, counts);
            proof {
                kinds_are_bounded(list@, list@.len() as int);
            }
        }
        i = i + 1;
    }
    (counts, shown)
}

/// More files have more diagnostics.
proof fn diagnostics_rise(files: Seq<CheckedFile>, i: int, j: int)
    requires
        0 <= i <= j <= files.len(),
    ensures
        diagnostics_in(files, i) <= diagnostics_in(files, j),
    decreases j - i,
{
    if i < j {
        diagnostics_rise(files, i, j - 1);
    }
}

/// The diagnostics of all kinds are all of them.
proof fn kinds_are_bounded(severities: Seq<Severity>, n: int)
    requires
        0 <= n <= severities.len(),
    ensures
        count_of(severities, Severity::Error, n) + count_of(severities, Severity::Fatal, n)
            + count_of(severities, Severity::Warning, n) + count_of(severities, Severity::Info, n)
            == n,
    decreases n,
{
    if n > 0 {
        kinds_are_bounded(severities, n - 1);
    }
}

/// What is reported of a check: a warning for each file that was named and is none
/// to check, the diagnostics of the files that were not validated, and those of the
/// files that were. The check fails for an error, and for a load that stayed
/// unresolved.
pub fn report_diagnostics(
    graph: &LoadGraph,
    ignored: &Vec<String>,
    files: &Vec<CheckedFile>,
    validated: &Vec<CheckedFile>,
) -> (r: Report)
    requires
        ignored@.len() + diagnostics_in(files@, files@.len() as int) + diagnostics_in(
            validated@,
            validated@.len() as int,
        ) <= usize::MAX,
    ensures
        r.ignored@.len() == ignored@.len(),
        forall|k: int|
            0 <= k < ignored@.len() ==> (#[trigger] r.ignored@[k])@ == ignored_message(ignored@[k]@),
        r.shown@ == shown_files(files@, validated@, files@.len() as int),
        exists|middle: Counts| #[trigger]
            are_counts(
                (Counts { errors: 0, warnings: ignored@.len() as usize, infos: 0 }),
                files@,
                validated@,
                files@.len() as int,
                middle,
            ) && are_counts(
                middle,
                validated@,
                Seq::empty(),
                validated@.len() as int,
                r.counts,
            ),
        r.failed == (r.counts.errors > 0 || graph.lacks()),
        match r.summary {
            Some(text) => summary_of(r.counts, graph.lacks()).1 == Some(text@),
            None => summary_of(r.counts, graph.lacks()).1 is None,
        },
{
    let mut messages: Vec<String> = Vec::new();
    let mut i: usize = 0;
    while i < ignored.len()
        invariant
            i <= ignored@.len(),
            messages@.len() == i,
            forall|k: int|
                0 <= k < i ==> (#[trigger] messages@[k])@ == ignored_message(ignored@[k]@),
        decreases ignored@.len() - i,
    {
        let quoted = path_in_quotes(ignored[i].as_str());
        messages.push(
            crate::text::join3("non-Starlark file ", quoted.as_str(), " was ignored"),
        );
        i = i + 1;
    }
    let start = Counts { errors: 0, warnings: ignored.len(), infos: 0 };
    let (middle, shown) = count_files(files, validated, start);
    let none: Vec<CheckedFile> = Vec::new();
    let (counts, _) = count_files(validated, &none, middle);
    let (failed, summary) = summary(counts, graph.has_unresolved());
    proof {
        assert(none@ =~= Seq::empty());
        assert(are_counts(start, files@, validated@, files@.len() as int, middle));
    }
    Report { ignored: messages, shown, counts, failed, summary }
}

/// Extensions without the dot that they may start with, and those of Starlark.
pub fn checked_extensions(extensions: &Vec<String>) -> (r: Vec<String>)
    ensures
        r@.len() == extensions@.len() + 2,
        forall|k: int|
            0 <= k < extensions@.len() ==> (#[trigger] r@[k])@ == without_dot(extensions@[k]@),
        r@[extensions@.len() as int]@ == "star"@,
        r@[extensions@.len() as int + 1]@ == "sky"@,
{
    let mut r: Vec<String> = Vec::new();
    let mut i: usize = 0;
    while i < extensions.len()
        invariant
            i <= extensions@.len(),
            r@.len() == i,
            forall|k: int| 0 <= k < i ==> (#[trigger] r@[k])@ == without_dot(extensions@[k]@),
        decreases extensions@.len() - i,
    {
        let chars = crate::text::chars_of(extensions[i].as_str());
        if chars.len() > 0 && chars[0] == '.' {
            r.push(crate::text::string_of(chars.as_slice(), 1, chars.len()));
            proof {
                let text = extensions@[i as int]@;
                assert(text.subrange(1, text.len() as int) =~= text.skip(1));
            }
        } else {
            r.push(extensions[i].clone());
        }
        i = i + 1;
    }
    r.push("star".to_owned());
    r.push("sky".to_owned());
    r
}

/// An extension without the dot that it may start with.
pub open spec fn without_dot(extension: Seq<char>) -> Seq<char> {
    if extension.len() > 0 && extension[0] == '.' {
        extension.skip(1)
    } else {
        extension
    }
}

/// What is done with a file that is to be checked.
#[derive(Clone, Copy, Debug, PartialEq, Eq, Structural)]
pub enum Checked {
    Check { dialect: Dialect, info: Option<FileInfo> },
    Ignore,
    Skip,
}

/// What is done with a file: it is checked if it is a source, and else ignored with
/// a warning if it was named.
pub fn check_as(
    workspace: &str,
    output_base: &str,
    path: &str,
    extensions: &Vec<String>,
    is_explicit: bool,
) -> (r: Checked)
    ensures
        ({
            let checked = match kind_of(workspace@, path@) {
                Some((Dialect::Standard, context)) => match crate::paths::extension_of(path@) {
                    Some(extension) => if crate::builtin_tables::lists(extensions@, extension) {
                        Some((Dialect::Standard, context))
                    } else {
                        None
                    },
                    None => None,
                },
                other => other,
            };
            r == match checked {
                Some((dialect, context)) => Checked::Check {
                    dialect,
                    info: match context {
                        Some(api_context) => Some(
                            FileInfo::Bazel {
                                api_context,
                                is_external: is_under(path@, output_base@),
                            },
                        ),
                        None => None,
                    },
                },
                None => if is_explicit {
                    Checked::Ignore
                } else {
                    Checked::Skip
                },
            }
        }),
{
    match source_kind(workspace, path, extensions) {
        Some((dialect, context)) => {
            let is_external = crate::paths::starts_with(path, output_base);
            let info = match context {
                Some(api_context) => Some(FileInfo::Bazel { api_context, is_external }),
                None => None,
            };
            Checked::Check { dialect, info }
        },
        None => {
            if is_explicit {
                Checked::Ignore
            } else {
                Checked::Skip
            }
        },
    }
}

/// Characters, each as a text.
pub fn make_trigger_characters(chars: &[char]) -> (r: Vec<String>)
    ensures
        r@.len() == chars@.len(),
        forall|k: int| 0 <= k < chars@.len() ==> (#[trigger] r@[k])@ == seq![chars@[k]],
{
    let mut r: Vec<String> = Vec::new();
    let mut i: usize = 0;
    while i < chars.len()
        invariant
            i <= chars@.len(),
            r@.len() == i,
            forall|k: int| 0 <= k < i ==> (#[trigger] r@[k])@ == seq![chars@[k]],
        decreases chars@.len() - i,
    {
        let mut text = String::new();
        text.push(chars[i]);
        proof {
            assert(text@ =~= seq![chars@[i as int]]);
        }
        r.push(text);
        i = i + 1;
    }
    r
}

} // verus!
