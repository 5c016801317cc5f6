//! Lists of names in order, and how many of them fit into one command.

use vstd::prelude::*;
use vstd::string::StringSliceAdditionalSpecFns;

use crate::client::{byte_len, BazelClient};
use crate::text::views;

verus! {

/// Whether `a` comes before `b`, byte by byte.
pub open spec fn comes_before(a: Seq<u8>, b: Seq<u8>) -> bool
    decreases a.len(),
{
    if b.len() == 0 {
        false
    } else if a.len() == 0 {
        true
    } else if a[0] != b[0] {
        a[0] < b[0]
    } else {
        comes_before(a.drop_first(), b.drop_first())
    }
}

/// Of two different texts one comes before the other.
pub proof fn one_comes_first(a: Seq<u8>, b: Seq<u8>)
    requires
        a != b,
    ensures
        comes_before(a, b) || comes_before(b, a),
    decreases a.len(),
{
    if a.len() > 0 && b.len() > 0 && a[0] == b[0] {
        if a.drop_first() == b.drop_first() {
            assert(a =~= seq![a[0]] + a.drop_first());
            assert(b =~= seq![b[0]] + b.drop_first());
        }
        one_comes_first(a.drop_first(), b.drop_first());
    } else if a.len() == 0 && b.len() == 0 {
        assert(a =~= b);
    }
}

/// Whether one name comes before another.
pub open spec fn name_before(a: Seq<char>, b: Seq<char>) -> bool {
    comes_before(vstd::utf8::encode_utf8(a), vstd::utf8::encode_utf8(b))
}

/// Whether names are in order, each before the next.
pub open spec fn in_order(names: Seq<Seq<char>>) -> bool {
    forall|i: int| 0 <= i < names.len() - 1 ==> #[trigger] is_next(names, i)
}

/// Whether a name comes before the one behind it.
pub open spec fn is_next(names: Seq<Seq<char>>, i: int) -> bool {
    name_before(names[i], names[i + 1])
}

/// Whether one name comes before another.
pub fn is_before(a: &str, b: &str) -> (r: bool)
    ensures
        r == name_before(a@, b@),
{
    let x = a.as_bytes();
    let y = b.as_bytes();
    let mut i: usize = 0;
    proof {
        assert(x@.skip(0) =~= x@);
        assert(y@.skip(0) =~= y@);
    }
    while i < x.len() && i < y.len()
        invariant
            i <= x@.len(),
            i <= y@.len(),
            comes_before(x@.skip(i as int), y@.skip(i as int)) == comes_before(x@, y@),
            x@ == a.spec_bytes(),
            y@ == b.spec_bytes(),
        decreases x@.len() - i,
    {
        if x[i] != y[i] {
            return x[i] < y[i];
        }
        proof {
            assert(x@.skip(i as int).drop_first() =~= x@.skip(i + 1));
            assert(y@.skip(i as int).drop_first() =~= y@.skip(i + 1));
        }
        i = i + 1;
    }
    i < y.len()
}

/// Puts a name into a list in order, unless it is there.
pub fn insert_name(names: &mut Vec<String>, name: &str)
    requires
        in_order(views(old(names)@)),
    ensures
        in_order(views(final(names)@)),
        forall|n: Seq<char>|
            #[trigger] views(final(names)@).contains(n) <==> views(old(names)@).contains(n) || n
                == name@,
{
    let ghost before = views(names@);
    let mut at: usize = names.len();
    while at > 0 && is_before(name, names[at - 1].as_str())
        invariant
            at <= names@.len(),
            before == views(names@),
            at < names@.len() ==> name_before(name@, before[at as int]),
        decreases at,
    {
        at = at - 1;
        proof {
            assert(before[at as int] == names@[at as int]@);
        }
    }
    if at > 0 && crate::text::same(names[at - 1].as_str(), name) {
        proof {
            assert(before[at - 1] == name@);
        }
        return;
    }
    proof {
        if at > 0 {
            assert(before[at - 1] == names@[at - 1]@);
            if vstd::utf8::encode_utf8(before[at - 1]) == vstd::utf8::encode_utf8(name@) {
                vstd::utf8::encode_utf8_decode_utf8(before[at - 1]);
                vstd::utf8::encode_utf8_decode_utf8(name@);
            }
            one_comes_first(
                vstd::utf8::encode_utf8(before[at - 1]),
                vstd::utf8::encode_utf8(name@),
            );
        }
    }
    names.insert(at, name.to_owned());
    proof {
        assert(views(names@) =~= before.insert(at as int, name@));
        inserted_in_order(before, at as int, name@);
    }
}

/// A name between one before it and one behind it keeps a list in order.
proof fn inserted_in_order(before: Seq<Seq<char>>, at: int, name: Seq<char>)
    requires
        in_order(before),
        0 <= at <= before.len(),
        at > 0 ==> name_before(before[at - 1], name),
        at < before.len() ==> name_before(name, before[at]),
    ensures
        in_order(before.insert(at, name)),
        forall|n: Seq<char>|
            #[trigger] before.insert(at, name).contains(n) <==> before.contains(n) || n == name,
{
    let now = before.insert(at, name);
    assert forall|i: int| 0 <= i < now.len() - 1 implies #[trigger] is_next(now, i) by {
        if i + 1 < at {
            assert(now[i] == before[i] && now[i + 1] == before[i + 1]);
            assert(is_next(before, i));
        } else if i + 1 == at {
            assert(now[i] == before[at - 1] && now[i + 1] == name);
        } else if i == at {
            assert(now[i] == name && now[i + 1] == before[at]);
        } else {
            assert(now[i] == before[i - 1] && now[i + 1] == before[i]);
            assert(is_next(before, i - 1));
        }
    }
    assert forall|n: Seq<char>| #[trigger] now.contains(n) <==> before.contains(n) || n == name by {
        if now.contains(n) {
            let i = choose|i: int| 0 <= i < now.len() && now[i] == n;
            if i < at {
                assert(before[i] == n);
            } else if i > at {
                assert(before[i - 1] == n);
            }
        }
        if before.contains(n) {
            let i = choose|i: int| 0 <= i < before.len() && before[i] == n;
            if i < at {
                assert(now[i] == n);
            } else {
                assert(now[i + 1] == n);
            }
        }
        if n == name {
            assert(now[at] == n);
        }
    }
}

/// The bytes that the first `k` names take in a command, with `extra` for each.
pub open spec fn command_len(names: Seq<Seq<char>>, extra: nat, k: nat) -> nat
    decreases k,
{
    if k == 0 {
        0
    } else {
        command_len(names, extra, (k - 1) as nat) + byte_len(names[k - 1]) + extra
    }
}

/// The number of names, from the `k`-th on, up to which all fit into `limit`.
pub open spec fn fitting(names: Seq<Seq<char>>, extra: nat, limit: nat, k: nat) -> nat
    decreases names.len() - k,
{
    if k >= names.len() || command_len(names, extra, k + 1) > limit {
        k
    } else {
        fitting(names, extra, limit, k + 1)
    }
}

/// The size of the first batch of names: as many as fit, and at least one.
pub open spec fn batch_size(names: Seq<Seq<char>>, extra: nat, limit: nat) -> nat {
    let n = fitting(names, extra, limit, 0);
    if n == 0 && names.len() > 0 {
        1
    } else {
        n
    }
}

/// A batch holds a name unless there is none, fits unless it is a single name,
/// and could not take another one.
pub proof fn batches_are_bounded(names: Seq<Seq<char>>, extra: nat, limit: nat)
    ensures
        batch_size(names, extra, limit) <= names.len(),
        names.len() > 0 ==> batch_size(names, extra, limit) > 0,
        batch_size(names, extra, limit) > 1 ==> command_len(
            names,
            extra,
            batch_size(names, extra, limit),
        ) <= limit,
        batch_size(names, extra, limit) < names.len() ==> command_len(
            names,
            extra,
            batch_size(names, extra, limit) + 1,
        ) > limit,
{
    fitting_fits(names, extra, limit, 0);
    let n = fitting(names, extra, limit, 0);
    if n == 0 && names.len() > 1 {
        assert(command_len(names, extra, 2) >= command_len(names, extra, 1));
    }
}

proof fn fitting_fits(names: Seq<Seq<char>>, extra: nat, limit: nat, k: nat)
    requires
        k <= names.len(),
        k > 0 ==> command_len(names, extra, k) <= limit,
    ensures
        k <= fitting(names, extra, limit, k) <= names.len(),
        fitting(names, extra, limit, k) > 0 ==> command_len(
            names,
            extra,
            fitting(names, extra, limit, k),
        ) <= limit,
        fitting(names, extra, limit, k) < names.len() ==> command_len(
            names,
            extra,
            fitting(names, extra, limit, k) + 1,
        ) > limit,
    decreases names.len() - k,
{
    if k < names.len() && command_len(names, extra, k + 1) <= limit {
        fitting_fits(names, extra, limit, k + 1);
    }
}

/// The size of the first batch of the names from `from` on.
pub fn first_batch(names: &Vec<String>, from: usize, extra: usize, limit: usize) -> (r: usize)
    requires
        from <= names@.len(),
        extra <= limit,
    ensures
        r == batch_size(views(names@).skip(from as int), extra as nat, limit as nat),
        r <= names@.len() - from,
        from < names@.len() ==> r > 0,
{
    let ghost rest = views(names@).skip(from as int);
    let mut used: usize = 0;
    let mut k: usize = 0;
    proof {
        batches_are_bounded(rest, extra as nat, limit as nat);
    }
    while k < names.len() - from
        invariant
            from + k <= names@.len(),
            extra <= limit,
            rest == views(names@).skip(from as int),
            used == command_len(rest, extra as nat, k as nat),
            used <= limit,
            fitting(rest, extra as nat, limit as nat, k as nat) == fitting(
                rest,
                extra as nat,
                limit as nat,
                0,
            ),
        decreases names@.len() - from - k,
    {
        let size: usize = names[from + k].as_str().as_bytes().len();
        proof {
            assert(rest[k as int] == names@[from + k]@);
        }
        if size > limit - extra || size + extra > limit - used {
            if k == 0 {
                return 1;
            }
            return k;
        }
        used = used + size + extra;
        k = k + 1;
    }
    k
}

/// The bytes that a fetch may take.
pub const FETCH_LIMIT: usize = 262144;

/// The bytes that a repository takes in a fetch besides its name: the option
/// and the end of the argument.
pub const FETCH_EXTRA: usize = 10;

/// The bytes that the names of a mapping query may take, which leaves room for
/// the command and the environment on every platform.
pub const MAPPING_LIMIT: usize = 16384;

/// The bytes that a repository takes in a mapping query besides its name.
pub const MAPPING_EXTRA: usize = 1;

/// The number of repositories, from `from` on, that one fetch takes.
pub fn repository_fetch_batch_len(repositories: &Vec<String>, from: usize) -> (r: usize)
    requires
        from <= repositories@.len(),
    ensures
        r == batch_size(
            views(repositories@).skip(from as int),
            FETCH_EXTRA as nat,
            FETCH_LIMIT as nat,
        ),
        r <= repositories@.len() - from,
        from < repositories@.len() ==> r > 0,
{
    first_batch(repositories, from, FETCH_EXTRA, FETCH_LIMIT)
}

/// What came of fetching a repository; an error is a message.
#[derive(Debug)]
pub struct RepositoryFetchResult {
    pub name: String,
    pub result: Result<(), String>,
}

/// The same outcome again.
fn dup_outcome(result: &Result<(), String>) -> (r: Result<(), String>)
    ensures
        r == *result,
{
    match result {
        Ok(done) => Ok(*done),
        Err(error) => Err(error.clone()),
    }
}

/// Whether a batch of repositories has to be fetched one by one: several failed
/// together.
pub open spec fn goes_alone(count: int, outcome: Result<(), String>) -> bool {
    count > 1 && outcome is Err
}

/// What came of fetching a batch of repositories, given the outcome for all of
/// them, and the outcome for each where several failed together.
pub fn batch_results(
    names: &Vec<String>,
    outcome: Result<(), String>,
    alone: Vec<Result<(), String>>,
) -> (r: Vec<RepositoryFetchResult>)
    requires
        goes_alone(names@.len() as int, outcome) ==> alone@.len() == names@.len(),
    ensures
        are_results(views(names@), outcome, alone@, r@),
{
    let together = names.len() <= 1 || outcome.is_ok();
    let mut r: Vec<RepositoryFetchResult> = Vec::new();
    let mut i: usize = 0;
    while i < names.len()
        invariant
            i <= names@.len(),
            together == !goes_alone(names@.len() as int, outcome),
            !together ==> alone@.len() == names@.len(),
            r@.len() == i,
            forall|k: int|
                0 <= k < i ==> (#[trigger] r@[k]).name@ == names@[k]@ && r@[k].result == (
                if together {
                    outcome
                } else {
                    alone@[k]
                }),
        decreases names@.len() - i,
    {
        let result = if together {
            dup_outcome(&outcome)
        } else {
            dup_outcome(&alone[i])
        };
        r.push(RepositoryFetchResult { name: names[i].clone(), result });
        i = i + 1;
    }
    r
}

/// Whether `r` has the names of a batch, each with the outcome for all of them,
/// or with its own where several failed together.
pub open spec fn are_results(
    names: Seq<Seq<char>>,
    outcome: Result<(), String>,
    alone: Seq<Result<(), String>>,
    r: Seq<RepositoryFetchResult>,
) -> bool {
    &&& r.len() == names.len()
    &&& forall|i: int|
        0 <= i < names.len() ==> (#[trigger] r[i]).name@ == names[i] && r[i].result == (
        if goes_alone(names.len() as int, outcome) {
            alone[i]
        } else {
            outcome
        })
}

/// Whether a client answered a fetch of repositories, all in one command.
pub open spec fn fetched_together<C: BazelClient>(
    client: C,
    names: Seq<Seq<char>>,
    outcome: Result<(), String>,
) -> bool {
    exists|batch: Vec<String>|
        views(batch@) == names && #[trigger] call_ensures(
            C::fetch_repos,
            (&client, &batch),
            outcome,
        )
}

/// Whether a client answered a fetch of one repository.
pub open spec fn fetched_alone<C: BazelClient>(
    client: C,
    name: Seq<char>,
    outcome: Result<(), String>,
) -> bool {
    exists|repo: &str|
        repo@ == name && #[trigger] call_ensures(C::fetch_repo, (&client, repo), outcome)
}

/// Whether a client answered a query for a repository.
pub open spec fn queried<C: BazelClient>(
    client: C,
    name: Seq<char>,
    outcome: Result<(), String>,
) -> bool {
    exists|repo: &str|
        repo@ == name && #[trigger] call_ensures(
            C::null_query_external_repo_targets,
            (&client, repo),
            outcome,
        )
}

/// Whether a client answered for a batch of repositories: with modules a fetch of
/// all of them, otherwise a query for the one.
pub open spec fn asked<C: BazelClient>(
    client: C,
    names: Seq<Seq<char>>,
    bzlmod: bool,
    outcome: Result<(), String>,
) -> bool {
    if bzlmod {
        fetched_together(client, names, outcome)
    } else {
        queried(client, names[0], outcome)
    }
}

/// Whether a client answered for each repository of a batch on its own.
pub open spec fn asked_alone<C: BazelClient>(
    client: C,
    names: Seq<Seq<char>>,
    alone: Seq<Result<(), String>>,
) -> bool {
    &&& alone.len() == names.len()
    &&& forall|i: int|
        0 <= i < names.len() ==> fetched_alone(client, names[i], #[trigger] alone[i])
}

/// Whether `r` is what a client answered for a batch of repositories: for all
/// together, and for each on its own where several failed together.
pub open spec fn is_batch<C: BazelClient>(
    client: C,
    names: Seq<Seq<char>>,
    bzlmod: bool,
    r: Seq<RepositoryFetchResult>,
) -> bool {
    exists|outcome: Result<(), String>, alone: Seq<Result<(), String>>|
        {
            &&& asked(client, names, bzlmod, outcome)
            &&& goes_alone(names.len() as int, outcome) ==> asked_alone(client, names, alone)
            &&& #[trigger] are_results(names, outcome, alone, r)
        }
}

/// Fetches the `count` repositories from `from` on with one command. Where a
/// batch of several fails, each is fetched on its own.
pub fn fetch_batch<C: BazelClient>(
    client: &C,
    repositories: &Vec<String>,
    from: usize,
    count: usize,
    bzlmod: bool,
) -> (r: Vec<RepositoryFetchResult>)
    requires
        count > 0,
        from + count <= repositories@.len(),
        bzlmod || count == 1,
    ensures
        is_batch(
            *client,
            views(repositories@).subrange(from as int, from + count),
            bzlmod,
            r@,
        ),
{
    let total: usize = repositories.len();
    let ghost names = views(repositories@).subrange(from as int, from + count);
    let mut batch: Vec<String> = Vec::new();
    let mut i: usize = 0;
    while i < count
        invariant
            i <= count,
            from + count <= total == repositories@.len(),
            batch@.len() == i,
            forall|k: int| 0 <= k < i ==> (#[trigger] batch@[k])@ == repositories@[from + k]@,
        decreases count - i,
    {
        batch.push(repositories[from + i].clone());
        i = i + 1;
    }
    proof {
        assert(views(batch@) =~= names);
        assert(names[0] == repositories@[from as int]@);
    }
    let outcome = if bzlmod {
        client.fetch_repos(&batch)
    } else {
        client.null_query_external_repo_targets(repositories[from].as_str())
    };
    let mut alone: Vec<Result<(), String>> = Vec::new();
    if count > 1 && outcome.is_err() {
        let mut i: usize = 0;
        while i < count
            invariant
                i <= count == batch@.len() == names.len(),
                views(batch@) == names,
                alone@.len() == i,
                forall|k: int|
                    0 <= k < i ==> fetched_alone(*client, names[k], #[trigger] alone@[k]),
            decreases count - i,
        {
            let result = client.fetch_repo(batch[i].as_str());
            proof {
                assert(names[i as int] == batch@[i as int]@);
                assert(fetched_alone(*client, names[i as int], result));
            }
            alone.push(result);
            i = i + 1;
        }
    }
    let ghost kept = alone@;
    proof {
        assert(asked(*client, names, bzlmod, outcome));
    }
    let r = batch_results(&batch, outcome, alone);
    proof {
        assert(are_results(names, outcome, kept, r@));
    }
    r
}

/// The size of the next batch: with modules as many as fit into a command.
pub open spec fn next_batch(names: Seq<Seq<char>>, bzlmod: bool) -> nat {
    if bzlmod {
        batch_size(names, FETCH_EXTRA as nat, FETCH_LIMIT as nat)
    } else if names.len() > 0 {
        1
    } else {
        0
    }
}

/// Whether `results` is what a client answered for repositories, batch by batch.
pub open spec fn are_fetched<C: BazelClient>(
    client: C,
    names: Seq<Seq<char>>,
    bzlmod: bool,
    results: Seq<RepositoryFetchResult>,
) -> bool
    decreases names.len(),
{
    let count = next_batch(names, bzlmod) as int;
    if names.len() == 0 {
        results.len() == 0
    } else {
        &&& 0 < count <= names.len()
        &&& count <= results.len()
        &&& is_batch(client, names.take(count), bzlmod, results.take(count))
        &&& are_fetched(client, names.skip(count), bzlmod, results.skip(count))
    }
}

/// Every repository gets a result under its own name, in order.
pub proof fn results_have_the_names<C: BazelClient>(
    client: C,
    names: Seq<Seq<char>>,
    bzlmod: bool,
    results: Seq<RepositoryFetchResult>,
)
    requires
        are_fetched(client, names, bzlmod, results),
    ensures
        results.len() == names.len(),
        forall|i: int| 0 <= i < names.len() ==> (#[trigger] results[i]).name@ == names[i],
    decreases names.len(),
{
    if names.len() > 0 {
        let count = next_batch(names, bzlmod) as int;
        results_have_the_names(client, names.skip(count), bzlmod, results.skip(count));
        assert forall|i: int| 0 <= i < names.len() implies (#[trigger] results[i]).name@
            == names[i] by {
            if i < count {
                assert(results.take(count)[i] == results[i]);
                assert(names.take(count)[i] == names[i]);
            } else {
                assert(results.skip(count)[i - count] == results[i]);
                assert(names.skip(count)[i - count] == names[i]);
            }
        }
    }
}

/// Where every fetch of a client succeeds, every repository is fetched.
pub proof fn all_are_fetched<C: BazelClient>(
    client: C,
    names: Seq<Seq<char>>,
    results: Seq<RepositoryFetchResult>,
)
    requires
        are_fetched(client, names, true, results),
        forall|batch: Vec<String>, outcome: Result<(), String>| #[trigger]
            call_ensures(C::fetch_repos, (&client, &batch), outcome) ==> outcome is Ok,
    ensures
        forall|i: int| 0 <= i < results.len() ==> (#[trigger] results[i]).result is Ok,
    decreases names.len(),
{
    if names.len() > 0 {
        let count = next_batch(names, true) as int;
        all_are_fetched(client, names.skip(count), results.skip(count));
        results_have_the_names(client, names.skip(count), true, results.skip(count));
        assert forall|i: int| 0 <= i < results.len() implies (
        #[trigger] results[i]).result is Ok by {
            if i < count {
                assert(results.take(count)[i] == results[i]);
            } else {
                assert(results.skip(count)[i - count] == results[i]);
            }
        }
    }
}

/// The batches in which repositories are fetched.
pub open spec fn batches_of(names: Seq<Seq<char>>, bzlmod: bool) -> Seq<Seq<Seq<char>>>
    decreases names.len(),
{
    let count = next_batch(names, bzlmod) as int;
    if names.len() == 0 || count <= 0 || count > names.len() {
        seq![]
    } else {
        seq![names.take(count)] + batches_of(names.skip(count), bzlmod)
    }
}

/// The batches, one after the other, are the repositories. None is empty, and each
/// fits into a command unless it is a single name.
pub proof fn batches_make_up_the_list(names: Seq<Seq<char>>, bzlmod: bool)
    ensures
        batches_of(names, bzlmod).flatten() == names,
        forall|k: int|
            #![trigger batches_of(names, bzlmod)[k]]
            0 <= k < batches_of(names, bzlmod).len() ==> {
                let batch = batches_of(names, bzlmod)[k];
                &&& batch.len() > 0
                &&& batch.len() > 1 ==> command_len(
                    batch,
                    FETCH_EXTRA as nat,
                    batch.len(),
                ) <= FETCH_LIMIT
            },
    decreases names.len(),
{
    let all = batches_of(names, bzlmod);
    batches_are_bounded(names, FETCH_EXTRA as nat, FETCH_LIMIT as nat);
    if names.len() == 0 {
        assert(all.flatten() =~= names);
    } else {
        let count = next_batch(names, bzlmod);
        let rest = batches_of(names.skip(count as int), bzlmod);
        batches_make_up_the_list(names.skip(count as int), bzlmod);
        assert(all.drop_first() =~= rest);
        assert(all.first() == names.take(count as int));
        assert(names.take(count as int) + names.skip(count as int) =~= names);
        same_length(names, names.take(count as int), FETCH_EXTRA as nat, count);
        assert forall|k: int| 0 <= k < all.len() implies {
            let batch = #[trigger] all[k];
            &&& batch.len() > 0
            &&& batch.len() > 1 ==> command_len(batch, FETCH_EXTRA as nat, batch.len())
                <= FETCH_LIMIT
        } by {
            if k > 0 {
                assert(all[k] == rest[k - 1]);
            }
        }
    }
}

/// The first names take what they take in a longer list.
proof fn same_length(a: Seq<Seq<char>>, b: Seq<Seq<char>>, extra: nat, k: nat)
    requires
        k <= a.len(),
        k <= b.len(),
        forall|i: int| 0 <= i < k ==> a[i] == b[i],
    ensures
        command_len(a, extra, k) == command_len(b, extra, k),
    decreases k,
{
    if k > 0 {
        same_length(a, b, extra, (k - 1) as nat);
    }
}

/// Obtains the outcome for each repository, in order, without publishing it.
/// With modules the repositories are fetched in batches that fit into a command,
/// otherwise one by one.
pub fn fetch_repositories<C: BazelClient>(
    client: &C,
    repositories: &Vec<String>,
    bzlmod: bool,
) -> (results: Vec<RepositoryFetchResult>)
    ensures
        are_fetched(*client, views(repositories@), bzlmod, results@),
        results@.len() == repositories@.len(),
        forall|i: int|
            0 <= i < results@.len() ==> (#[trigger] results@[i]).name@ == repositories@[i]@,
{
    let ghost names = views(repositories@);
    let mut results: Vec<RepositoryFetchResult> = Vec::new();
    let mut from: usize = 0;
    proof {
        assert(names.skip(0) =~= names);
        assert forall|tail: Seq<RepositoryFetchResult>| #[trigger]
            are_fetched(*client, names.skip(0), bzlmod, tail) implies are_fetched(
            *client,
            names,
            bzlmod,
            results@ + tail,
        ) by {
            assert(results@ + tail =~= tail);
        }
    }
    while from < repositories.len()
        invariant
            from <= repositories@.len(),
            names == views(repositories@),
            forall|tail: Seq<RepositoryFetchResult>| #[trigger]
                are_fetched(*client, names.skip(from as int), bzlmod, tail) ==> are_fetched(
                    *client,
                    names,
                    bzlmod,
                    results@ + tail,
                ),
        decreases repositories@.len() - from,
    {
        let count: usize = if bzlmod {
            repository_fetch_batch_len(repositories, from)
        } else {
            1
        };
        let ghost before = results@;
        let ghost left = names.skip(from as int);
        let mut batch = fetch_batch(client, repositories, from, count, bzlmod);
        let ghost added = batch@;
        results.append(&mut batch);
        proof {
            assert(results@ =~= before + added);
            assert(left.take(count as int) =~= names.subrange(from as int, from + count));
            assert(left.skip(count as int) =~= names.skip(from + count));
            assert forall|tail: Seq<RepositoryFetchResult>| #[trigger]
                are_fetched(*client, names.skip(from + count), bzlmod, tail) implies are_fetched(
                *client,
                names,
                bzlmod,
                results@ + tail,
            ) by {
                let more = added + tail;
                assert(more.take(count as int) =~= added);
                assert(more.skip(count as int) =~= tail);
                assert(are_fetched(*client, left, bzlmod, more));
                assert(before + more =~= results@ + tail);
            }
        }
        from = from + count;
    }
    proof {
        let none = Seq::<RepositoryFetchResult>::empty();
        assert(are_fetched(*client, names.skip(from as int), bzlmod, none));
        assert(results@ + none =~= results@);
        results_have_the_names(*client, names, bzlmod, results@);
    }
    results
}

} // verus!
