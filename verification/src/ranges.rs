//! Sharing work out in ranges, and putting results back in order.

use crate::order::stable_sort;
use vstd::prelude::*;

verus! {

/// The ranges are not empty and follow one another without a gap from 0 to `total`.
pub open spec fn tiles(ranges: Seq<(usize, usize)>, total: nat) -> bool {
    &&& forall|i: int| 0 <= i < ranges.len() ==> (#[trigger] ranges[i]).0 < ranges[i].1
    &&& ranges.len() == 0 ==> total == 0
    &&& ranges.len() > 0 ==> ranges[0].0 == 0 && ranges.last().1 == total
    &&& forall|i: int|
        0 < i < ranges.len() ==> (#[trigger] ranges[i]).0 == ranges[i - 1].1
}

/// `x` lies in the range `r`.
pub open spec fn in_range(r: (usize, usize), x: int) -> bool {
    r.0 <= x < r.1
}

proof fn lemma_tiles_order(ranges: Seq<(usize, usize)>, total: nat, i: int, j: int)
    requires
        tiles(ranges, total),
        0 <= i < j < ranges.len(),
    ensures
        ranges[i].1 <= ranges[j].0,
    decreases j - i,
{
    assert(ranges[j].0 == ranges[j - 1].1);
    if i < j - 1 {
        lemma_tiles_order(ranges, total, i, j - 1);
        assert(ranges[j - 1].0 < ranges[j - 1].1);
    }
}

proof fn lemma_tiles_find(ranges: Seq<(usize, usize)>, total: nat, x: int, n: int) -> (i: int)
    requires
        tiles(ranges, total),
        0 < n <= ranges.len(),
        0 <= x < ranges[n - 1].1,
    ensures
        0 <= i < ranges.len(),
        in_range(ranges[i], x),
    decreases n,
{
    if ranges[n - 1].0 <= x {
        n - 1
    } else {
        assert(ranges[n - 1].0 == if n > 1 {
            ranges[n - 2].1
        } else {
            0
        });
        lemma_tiles_find(ranges, total, x, n - 1)
    }
}

/// Ranges that follow one another without a gap hold every number once: none is left out and
/// none is in two of them.
pub proof fn law_tiles_hold_each_once(ranges: Seq<(usize, usize)>, total: nat, x: int)
    requires
        tiles(ranges, total),
    ensures
        0 <= x < total <==> exists|i: int|
            0 <= i < ranges.len() && in_range(#[trigger] ranges[i], x),
        forall|i: int, j: int|
            0 <= i < ranges.len() && 0 <= j < ranges.len() && in_range(#[trigger] ranges[i], x)
                && in_range(#[trigger] ranges[j], x) ==> i == j,
{
    if 0 <= x < total {
        let i = lemma_tiles_find(ranges, total, x, ranges.len() as int);
        assert(in_range(ranges[i], x));
    }
    assert forall|i: int| 0 <= i < ranges.len() && in_range(#[trigger] ranges[i], x) implies 0 <= x
        < total by {
        if i < ranges.len() - 1 {
            lemma_tiles_order(ranges, total, i, ranges.len() - 1);
            assert(ranges[ranges.len() - 1].0 < ranges[ranges.len() - 1].1);
        }
    }
    assert forall|i: int, j: int|
        0 <= i < ranges.len() && 0 <= j < ranges.len() && in_range(#[trigger] ranges[i], x)
            && in_range(#[trigger] ranges[j], x) implies i == j by {
        if i < j {
            lemma_tiles_order(ranges, total, i, j);
        } else if j < i {
            lemma_tiles_order(ranges, total, j, i);
        }
    }
}

// ---------------------------------------------------------------------------
// Batches
// ---------------------------------------------------------------------------

/// The number of batches.
pub open spec fn batch_count(total: nat, batch: nat) -> nat {
    ((total + batch - 1) / batch as int) as nat
}

/// `total` things in batches of `batch`, the last one smaller where it does not come out even.
pub open spec fn batches(total: nat, batch: nat) -> Seq<(usize, usize)> {
    Seq::new(
        batch_count(total, batch),
        |i: int|
            (
                (i * batch) as usize,
                if (i + 1) * batch <= total {
                    ((i + 1) * batch) as usize
                } else {
                    total as usize
                },
            ),
    )
}

proof fn lemma_batch_count(total: nat, batch: nat, i: int)
    requires
        batch > 0,
    ensures
        i < batch_count(total, batch) <==> i * batch < total,
{
    let c = (total + batch - 1) / batch as int;
    let r = (total + batch - 1) % batch as int;
    vstd::arithmetic::div_mod::lemma_fundamental_div_mod(total + batch - 1, batch as int);
    vstd::arithmetic::div_mod::lemma_mod_bound(total + batch - 1, batch as int);
    vstd::arithmetic::div_mod::lemma_div_pos_is_pos(total + batch - 1, batch as int);
    assert(i < c <==> i * batch < total) by (nonlinear_arith)
        requires
            total + batch - 1 == batch * c + r,
            0 <= r < batch,
            batch > 0,
    ;
}

/// Batches of at most `batch` that follow one another without a gap up to `total`.
pub proof fn law_batches_tile(total: nat, batch: nat)
    requires
        batch > 0,
        total <= usize::MAX,
    ensures
        tiles(batches(total, batch), total),
        forall|i: int|
            0 <= i < batches(total, batch).len() ==> (#[trigger] batches(total, batch)[i]).1
                - batches(total, batch)[i].0 <= batch,
        forall|i: int|
            0 <= i < batches(total, batch).len() - 1 ==> (#[trigger] batches(total, batch)[i]).1
                - batches(total, batch)[i].0 == batch,
{
    let all = batches(total, batch);
    let n = all.len() as int;
    assert forall|i: int| 0 <= i < n implies {
        &&& (#[trigger] all[i]).0 == i * batch
        &&& all[i].0 < all[i].1
        &&& all[i].1 - all[i].0 <= batch
        &&& i < n - 1 ==> all[i].1 == (i + 1) * batch
        &&& i == n - 1 ==> all[i].1 == total
    } by {
        lemma_batch_count(total, batch, i);
        lemma_batch_count(total, batch, i + 1);
        assert(0 <= i * batch && (i + 1) * batch == i * batch + batch) by (nonlinear_arith)
            requires
                i >= 0,
                batch > 0,
        ;
    }
    lemma_batch_count(total, batch, 0);
    if n > 0 {
        assert(all[0].0 == 0 * batch);
        assert(all[n - 1].1 == total);
    }
    assert forall|i: int| 0 < i < n implies (#[trigger] all[i]).0 == all[i - 1].1 by {
        assert(all[i - 1].1 == (i - 1 + 1) * batch);
    }
    assert forall|i: int| 0 <= i < n - 1 implies (#[trigger] all[i]).1 - all[i].0 == batch by {
        assert((i + 1) * batch == i * batch + batch) by (nonlinear_arith);
    }
}

/// `total` things in batches of `batch`, the last one smaller where it does not come out even.
pub fn batch_ranges(total: usize, batch: usize) -> (res: Vec<(usize, usize)>)
    requires
        batch > 0,
    ensures
        res@ == batches(total as nat, batch as nat),
        tiles(res@, total as nat),
{
    let mut out: Vec<(usize, usize)> = Vec::new();
    let mut start: usize = 0;
    let ghost all = batches(total as nat, batch as nat);
    proof {
        lemma_batch_count(total as nat, batch as nat, 0);
    }
    while start < total
        invariant
            batch > 0,
            all == batches(total as nat, batch as nat),
            out@.len() <= all.len(),
            out@ == all.take(out@.len() as int),
            start <= total,
            start < total ==> start == out@.len() * batch,
            start == total ==> out@.len() == all.len(),
        decreases total - start,
    {
        let end: usize = if total - start > batch {
            start + batch
        } else {
            total
        };
        let ghost k = out@.len() as int;
        proof {
            lemma_batch_count(total as nat, batch as nat, k);
            lemma_batch_count(total as nat, batch as nat, k + 1);
            assert((k + 1) * batch == k * batch + batch) by (nonlinear_arith);
        }
        out.push((start, end));
        assert(all[k] == (start, end));
        assert(out@ =~= all.take(k + 1));
        start = end;
    }
    proof {
        assert(all.take(all.len() as int) =~= all);
        law_batches_tile(total as nat, batch as nat);
    }
    out
}

/// The rows that are read at a time: a batch for each worker, and at least one batch.
pub open spec fn rows_at_a_time(batch: nat, workers: nat) -> nat {
    let all = if batch * workers <= usize::MAX {
        batch * workers
    } else {
        usize::MAX as nat
    };
    if all < batch {
        batch
    } else {
        all
    }
}

/// Every worker has a batch of what is read at a time, where that many rows can be counted; and
/// it is never less than one batch, however many workers there are.
pub proof fn law_a_batch_for_each_worker(batch: nat, workers: nat)
    requires
        batch <= usize::MAX,
    ensures
        rows_at_a_time(batch, workers) >= batch,
        rows_at_a_time(batch, workers) <= usize::MAX,
        workers > 0 && batch * workers <= usize::MAX ==> rows_at_a_time(batch, workers) == batch
            * workers,
        workers == 0 ==> rows_at_a_time(batch, workers) == batch,
        batch * workers > usize::MAX ==> rows_at_a_time(batch, workers) == usize::MAX,
{
    assert(workers > 0 ==> batch * workers >= batch) by (nonlinear_arith);
    assert(workers == 0 ==> batch * workers == 0) by (nonlinear_arith);
}

/// The rows that are read at a time: a batch for each worker, and at least one batch.
pub fn block_rows(batch: usize, workers: usize) -> (res: usize)
    ensures
        res == rows_at_a_time(batch as nat, workers as nat),
        batch > 0 ==> res > 0,
{
    let all: usize = match batch.checked_mul(workers) {
        Some(n) => n,
        None => usize::MAX,
    };
    if all < batch {
        batch
    } else {
        all
    }
}

// ---------------------------------------------------------------------------
// Workers
// ---------------------------------------------------------------------------

/// The number of workers for `n` queries: one for each client, at least one, and none idle.
pub open spec fn worker_count(n: nat, clients: nat) -> nat {
    let wanted = if clients < 1 {
        1
    } else {
        clients
    };
    if wanted < n {
        wanted
    } else {
        n
    }
}

/// There are no more workers than clients or queries, and no fewer than that allows; where there
/// is a query there is a worker, even without a client.
pub proof fn law_number_of_workers(n: nat, clients: nat)
    ensures
        worker_count(n, clients) <= n,
        clients > 0 ==> worker_count(n, clients) <= clients,
        clients > 0 ==> worker_count(n, clients) == n || worker_count(n, clients) == clients,
        clients == 0 && n > 0 ==> worker_count(n, clients) == 1,
        n > 0 ==> worker_count(n, clients) > 0,
{
}

/// Where the `i`-th of `workers` workers starts among `n` queries; the first `n % workers`
/// workers take one query more than the others.
pub open spec fn worker_start(n: nat, workers: nat, i: int) -> int {
    i * (n / workers) + (if i < n % workers {
        i
    } else {
        (n % workers) as int
    })
}

/// The ranges of queries of the workers.
pub open spec fn shares(n: nat, clients: nat) -> Seq<(usize, usize)> {
    let workers = worker_count(n, clients);
    Seq::new(
        workers,
        |i: int| (worker_start(n, workers, i) as usize, worker_start(n, workers, i + 1) as usize),
    )
}

proof fn lemma_worker_starts(n: nat, workers: nat, i: int)
    requires
        0 < workers <= n,
        0 <= i < workers,
    ensures
        0 <= worker_start(n, workers, i) < worker_start(n, workers, i + 1) <= n,
        worker_start(n, workers, 0) == 0,
        worker_start(n, workers, workers as int) == n,
        worker_start(n, workers, i + 1) - worker_start(n, workers, i) == n / workers + (if i < n
            % workers {
            1int
        } else {
            0
        }),
{
    let base = (n / workers) as int;
    let rem = (n % workers) as int;
    let w = workers as int;
    vstd::arithmetic::div_mod::lemma_fundamental_div_mod(n as int, w);
    vstd::arithmetic::div_mod::lemma_mod_bound(n as int, w);
    vstd::arithmetic::div_mod::lemma_div_is_ordered(w, n as int, w);
    vstd::arithmetic::div_mod::lemma_div_basics(w);
    assert(base >= 1);
    assert(w * base == base * w && (i + 1) * base == i * base + base && 0 <= i * base && (i + 1)
        * base <= w * base && 0 * base == 0) by (nonlinear_arith)
        requires
            0 <= i < w,
            base >= 1,
    ;
}

/// The workers' ranges follow one another without a gap over all queries, there are as many as
/// clients but no idle one, and their lengths differ by at most one, the longer ones first.
pub proof fn law_shares_tile(n: nat, clients: nat)
    requires
        n <= usize::MAX,
    ensures
        tiles(shares(n, clients), n),
        shares(n, clients).len() == worker_count(n, clients),
        forall|i: int, j: int|
            0 <= i <= j < shares(n, clients).len() ==> {
                let a = (#[trigger] shares(n, clients)[i]).1 - shares(n, clients)[i].0;
                let b = (#[trigger] shares(n, clients)[j]).1 - shares(n, clients)[j].0;
                b <= a <= b + 1
            },
{
    let workers = worker_count(n, clients);
    let all = shares(n, clients);
    if n > 0 {
        assert forall|i: int| 0 <= i < workers implies {
            &&& (#[trigger] all[i]).0 == worker_start(n, workers, i)
            &&& all[i].1 == worker_start(n, workers, i + 1)
            &&& all[i].0 < all[i].1
        } by {
            lemma_worker_starts(n, workers, i);
        }
        lemma_worker_starts(n, workers, 0);
        assert forall|i: int| 0 < i < workers implies (#[trigger] all[i]).0 == all[i - 1].1 by {}
        assert forall|i: int, j: int| 0 <= i <= j < all.len() implies {
            let a = (#[trigger] all[i]).1 - all[i].0;
            let b = (#[trigger] all[j]).1 - all[j].0;
            b <= a <= b + 1
        } by {
            lemma_worker_starts(n, workers, i);
            lemma_worker_starts(n, workers, j);
        }
    }
}

/// The ranges of `n` queries for `clients` clients: contiguous, the larger remainders to the
/// first workers.
pub fn worker_ranges(n: usize, clients: usize) -> (res: Vec<(usize, usize)>)
    ensures
        res@ == shares(n as nat, clients as nat),
        tiles(res@, n as nat),
{
    let mut ranges: Vec<(usize, usize)> = Vec::new();
    proof {
        law_shares_tile(n as nat, clients as nat);
    }
    if n == 0 {
        assert(ranges@ =~= shares(n as nat, clients as nat));
        return ranges;
    }
    let wanted: usize = if clients < 1 {
        1
    } else {
        clients
    };
    let workers: usize = if wanted < n {
        wanted
    } else {
        n
    };
    let base: usize = n / workers;
    let rem: usize = n % workers;
    let mut start: usize = 0;
    let ghost all = shares(n as nat, clients as nat);
    proof {
        lemma_worker_starts(n as nat, workers as nat, 0);
    }
    for w in 0..workers
        invariant
            0 < workers <= n,
            workers == worker_count(n as nat, clients as nat),
            base == n / workers,
            rem == n % workers,
            all == shares(n as nat, clients as nat),
            start == worker_start(n as nat, workers as nat, w as int),
            ranges@ == all.take(w as int),
    {
        proof {
            lemma_worker_starts(n as nat, workers as nat, w as int);
        }
        let len: usize = if w < rem {
            base + 1
        } else {
            base
        };
        ranges.push((start, start + len));
        start = start + len;
        assert(ranges@ =~= all.take(w + 1));
    }
    assert(ranges@ =~= all);
    ranges
}

// ---------------------------------------------------------------------------
// Putting results back in order
// ---------------------------------------------------------------------------

/// The items of the first `n` parts, one part after the other.
pub open spec fn gathered<T>(parts: Seq<Vec<T>>, n: nat) -> Seq<T>
    decreases n,
{
    if n == 0 {
        Seq::empty()
    } else {
        gathered(parts, (n - 1) as nat) + parts[n - 1]@
    }
}

/// The results in the order of their numbers.
pub open spec fn merged<T>(parts: Seq<Vec<(u64, T)>>) -> Seq<T> {
    crate::order::in_order(gathered(parts, parts.len())).map_values(|x: (u64, T)| x.1)
}

/// The results of several workers, each with the number of its query, in the order of the
/// queries.
pub fn merge_results<T>(parts: Vec<Vec<(u64, T)>>) -> (res: Vec<T>)
    ensures
        res@ == merged(parts@),
{
    let mut all: Vec<(u64, T)> = Vec::new();
    for part in it: parts
        invariant
            it.seq() == parts@,
            all@ == gathered(parts@, it.index() as nat),
    {
        let ghost before = all@;
        for item in inner: part
            invariant
                inner.seq() == part@,
                all@ == before + part@.take(inner.index() as int),
        {
            all.push(item);
            assert(all@ =~= before + part@.take(inner.index() + 1));
        }
        assert(part@.take(part@.len() as int) =~= part@);
    }
    let sorted = stable_sort(all);
    let ghost order = sorted@;
    let mut out: Vec<T> = Vec::new();
    for item in it: sorted
        invariant
            it.seq() == order,
            out@ == order.map_values(|x: (u64, T)| x.1).take(it.index() as int),
    {
        out.push(item.1);
        assert(out@ =~= order.map_values(|x: (u64, T)| x.1).take(it.index() + 1));
    }
    assert(out@ =~= order.map_values(|x: (u64, T)| x.1));
    out
}

/// What the workers returned that did not fail.
pub open spec fn successes<T, E>(parts: Seq<Result<Vec<(u64, T)>, E>>) -> Seq<Vec<(u64, T)>> {
    parts.map_values(|p: Result<Vec<(u64, T)>, E>| p->Ok_0)
}

/// The results of several workers in the order of the queries; where a worker failed, the error
/// of the first that did.
pub fn collect_results<T, E>(parts: Vec<Result<Vec<(u64, T)>, E>>) -> (res: Result<Vec<T>, E>)
    ensures
        match res {
            Ok(out) => {
                &&& forall|w: int| 0 <= w < parts@.len() ==> (#[trigger] parts@[w]) is Ok
                &&& out@ == merged(successes(parts@))
            },
            Err(e) => exists|w: int|
                0 <= w < parts@.len() && #[trigger] parts@[w] == Err::<Vec<(u64, T)>, E>(e) && (
                forall|v: int| 0 <= v < w ==> (#[trigger] parts@[v]) is Ok),
        },
{
    let mut done: Vec<Vec<(u64, T)>> = Vec::new();
    for part in it: parts
        invariant
            it.seq() == parts@,
            done@ == successes(parts@).take(it.index() as int),
            forall|w: int| 0 <= w < it.index() ==> (#[trigger] parts@[w]) is Ok,
    {
        let ghost w = it.index() as int;
        assert(part == parts@[w]);
        match part {
            Ok(list) => {
                done.push(list);
                assert(done@ =~= successes(parts@).take(w + 1));
            },
            Err(e) => {
                return Err(e);
            },
        }
    }
    assert(done@ =~= successes(parts@));
    Ok(merge_results(done))
}

/// Worker `w` returned the results of the queries of its range, with their numbers.
pub open spec fn worker_did<T>(part: Seq<(u64, T)>, range: (usize, usize), results: Seq<T>) -> bool {
    part == Seq::new(
        (range.1 - range.0) as nat,
        |j: int| ((range.0 + j) as u64, results[range.0 + j]),
    )
}

proof fn lemma_gathered<T>(
    parts: Seq<Vec<(u64, T)>>,
    ranges: Seq<(usize, usize)>,
    results: Seq<T>,
    n: nat,
)
    requires
        tiles(ranges, results.len()),
        parts.len() == ranges.len(),
        n <= parts.len(),
        forall|w: int|
            0 <= w < parts.len() ==> worker_did((#[trigger] parts[w])@, ranges[w], results),
    ensures
        gathered(parts, n) == Seq::new(
            if n == 0 {
                0
            } else {
                ranges[n - 1].1 as nat
            },
            |i: int| (i as u64, results[i]),
        ),
    decreases n,
{
    if n == 0 {
        assert(gathered(parts, n) =~= Seq::new(0, |i: int| (i as u64, results[i])));
    } else {
        lemma_gathered(parts, ranges, results, (n - 1) as nat);
        assert(worker_did(parts[n - 1]@, ranges[n - 1], results));
        let start = if n == 1 {
            0
        } else {
            ranges[n - 2].1 as nat
        };
        assert(ranges[n - 1].0 == start);
        assert(gathered(parts, n) =~= Seq::new(
            ranges[n - 1].1 as nat,
            |i: int| (i as u64, results[i]),
        ));
    }
}

/// Where each worker returned the results of the queries of its range, the merged results are
/// those of all queries, in the order of the queries.
pub proof fn law_merge_restores_query_order<T>(
    parts: Seq<Vec<(u64, T)>>,
    clients: nat,
    results: Seq<T>,
)
    requires
        results.len() <= usize::MAX,
        parts.len() == shares(results.len(), clients).len(),
        forall|w: int|
            0 <= w < parts.len() ==> worker_did(
                (#[trigger] parts[w])@,
                shares(results.len(), clients)[w],
                results,
            ),
    ensures
        merged(parts) == results,
{
    let ranges = shares(results.len(), clients);
    law_shares_tile(results.len(), clients);
    lemma_gathered(parts, ranges, results, parts.len());
    let all = gathered(parts, parts.len());
    assert(all.len() == results.len());
    assert(crate::order::ascends(all));
    crate::order::law_in_order_keeps(all);
    assert(merged(parts) =~= results);
}

/// An ascending list with the items of one whose keys are the positions is that list.
proof fn lemma_positions_decide<T>(a: Seq<(u64, T)>, b: Seq<(u64, T)>)
    requires
        crate::order::ascends(a),
        a.to_multiset() == b.to_multiset(),
        forall|i: int| 0 <= i < b.len() ==> (#[trigger] b[i]).0 == i,
    ensures
        a == b,
    decreases b.len(),
{
    broadcast use vstd::seq_lib::group_to_multiset_ensures;

    assert(a.len() == a.to_multiset().len() && b.len() == b.to_multiset().len());
    if b.len() == 0 {
        assert(a =~= b);
    } else {
        let n = b.len() - 1;
        let x = b[n];
        assert(b.contains(x));
        assert(b.to_multiset().contains(x));
        assert(a.contains(x));
        let k = choose|k: int| 0 <= k < a.len() && a[k] == x;
        let y = a[n];
        assert(a.contains(y));
        assert(a.to_multiset().contains(y));
        assert(b.contains(y));
        let m = choose|m: int| 0 <= m < b.len() && b[m] == y;
        assert(b[m].0 == m && b[n].0 == n);
        assert(a[k].0 <= a[n].0);
        assert(m == n);
        let c = a.drop_last();
        let d = b.drop_last();
        assert(c.push(x) =~= a && d.push(x) =~= b);
        assert(c.to_multiset() =~= a.to_multiset().remove(x));
        assert(d.to_multiset() =~= b.to_multiset().remove(x));
        assert forall|i: int, j: int| 0 <= i <= j < c.len() implies (#[trigger] c[i]).0 <= (
        #[trigger] c[j]).0 by {
            assert(a[i].0 <= a[j].0);
        }
        assert forall|i: int| 0 <= i < d.len() implies (#[trigger] d[i]).0 == i by {
            assert(d[i] == b[i]);
        }
        lemma_positions_decide(c, d);
    }
}

/// However the results of the queries are spread over the workers, and in whatever order they
/// come, the merged results are those of all queries, in the order of the queries.
pub proof fn law_merge_ignores_the_order_of_arrival<T>(
    parts: Seq<Vec<(u64, T)>>,
    results: Seq<T>,
)
    requires
        results.len() <= u64::MAX,
        gathered(parts, parts.len()).to_multiset() == Seq::new(
            results.len(),
            |i: int| (i as u64, results[i]),
        ).to_multiset(),
    ensures
        merged(parts) == results,
{
    let all = gathered(parts, parts.len());
    let numbered = Seq::new(results.len(), |i: int| (i as u64, results[i]));
    crate::order::law_in_order(all);
    lemma_positions_decide(crate::order::in_order(all), numbered);
    assert(merged(parts) =~= results);
}

/// What is gathered is what each of the parts holds, one part after the other.
pub proof fn law_gathered<T>(parts: Seq<Vec<T>>, part: Vec<T>)
    ensures
        gathered(parts.push(part), parts.len() + 1) == gathered(parts, parts.len()) + part@,
        gathered(Seq::<Vec<T>>::empty(), 0) == Seq::<T>::empty(),
{
    lemma_gathered_prefix(parts, part, parts.len());
}

proof fn lemma_gathered_prefix<T>(parts: Seq<Vec<T>>, part: Vec<T>, n: nat)
    requires
        n <= parts.len(),
    ensures
        gathered(parts.push(part), n) == gathered(parts, n),
    decreases n,
{
    if n > 0 {
        lemma_gathered_prefix(parts, part, (n - 1) as nat);
    }
}

} // verus!
