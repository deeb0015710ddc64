//! What is measured: recall, score gaps, latencies, and how queries are shared out.

use crate::args::BenchMode;
use crate::decimal::{parse_decimal, parse_double, Decimal};
use crate::double::reach_limit;
use crate::metric::Metric;
use crate::order::stable_sort;
use vstd::prelude::*;
use vstd::string::*;

verus! {

// ---------------------------------------------------------------------------
// Recall
// ---------------------------------------------------------------------------

/// The ids of a list of neighbors.
pub open spec fn ids<S>(list: Seq<(i64, S)>) -> Seq<i64> {
    list.map_values(|n: (i64, S)| n.0)
}

/// The first `k` items of a list, or all of them where there are fewer.
pub open spec fn top<T>(list: Seq<T>, k: nat) -> Seq<T> {
    if k <= list.len() {
        list.take(k as int)
    } else {
        list
    }
}

/// The number of items of `found` that `truth` holds.
pub open spec fn hits(truth: Seq<i64>, found: Seq<i64>) -> nat
    decreases found.len(),
{
    if found.len() == 0 {
        0
    } else {
        hits(truth, found.drop_last()) + (if truth.contains(found.last()) {
            1nat
        } else {
            0
        })
    }
}

/// A recall: `hits` of `denom` true neighbors were found. It is 0 where `denom` is 0.
#[derive(Copy, Clone, Debug, PartialEq, Eq, Structural)]
pub struct Recall {
    pub hits: usize,
    pub denom: usize,
}

/// The number of the true top-`k` neighbors, where the source has at least `k`, else of all.
pub open spec fn top_len(len: nat, k: nat) -> nat {
    if k <= len {
        k
    } else {
        len
    }
}

/// How many of the first `k` found ids are among the first `k` true ones.
pub open spec fn recall_hits(truth: Seq<i64>, approx: Seq<i64>, k: nat) -> nat {
    hits(top(truth, k), top(approx, k))
}

/// The recall of the top `k`: how many of the first `k` found ids are among the first `k` true
/// ones, out of `k`, or out of all true ones where there are fewer.
pub fn recall_at_k<S, T>(truth: &[(i64, S)], approx: &[(i64, T)], k: usize) -> (res: Recall)
    ensures
        res.hits == hits(top(ids(truth@), k as nat), top(ids(approx@), k as nat)),
        res.denom == top_len(truth@.len(), k as nat),
        res.hits == recall_hits(ids(truth@), ids(approx@), k as nat),
{
    broadcast use vstd::std_specs::hash::group_hash_axioms;

    let denom: usize = if k <= truth.len() {
        k
    } else {
        truth.len()
    };
    let take: usize = if k <= approx.len() {
        k
    } else {
        approx.len()
    };
    let ghost wanted = top(ids(truth@), k as nat);
    let ghost found = top(ids(approx@), k as nat);
    let mut known: std::collections::HashSet<i64> = std::collections::HashSet::new();
    assert(wanted.take(0).to_set() =~= Set::empty());
    for i in 0..denom
        invariant
            denom == top_len(truth@.len(), k as nat),
            wanted == top(ids(truth@), k as nat),
            known@ == wanted.take(i as int).to_set(),
    {
        known.insert(truth[i].0);
        proof {
            let id = wanted[i as int];
            assert(wanted.take(i + 1) =~= wanted.take(i as int).push(id));
            assert forall|x: i64| #[trigger] wanted.take(i + 1).to_set().contains(x)
                <==> wanted.take(i as int).to_set().insert(id).contains(x) by {
                let a = wanted.take(i as int);
                if a.contains(x) {
                    let m = choose|m: int| 0 <= m < a.len() && a[m] == x;
                    assert(a.push(id)[m] == x);
                }
                assert(a.push(id)[a.len() as int] == id);
            }
            assert(wanted.take(i + 1).to_set() =~= wanted.take(i as int).to_set().insert(id));
        }
    }
    assert(wanted.take(denom as int) =~= wanted);
    let mut n: usize = 0;
    for i in 0..take
        invariant
            take == top_len(approx@.len(), k as nat),
            found == top(ids(approx@), k as nat),
            known@ == wanted.to_set(),
            n == hits(wanted, found.take(i as int)),
            n <= i,
    {
        assert(found.take(i + 1).drop_last() =~= found.take(i as int));
        assert(found.take(i + 1).last() == approx@[i as int].0);
        if known.contains(&approx[i].0) {
            n += 1;
        }
    }
    assert(found.take(take as int) =~= found);
    Recall { hits: n, denom }
}

/// No item of the list occurs twice.
pub open spec fn distinct(list: Seq<i64>) -> bool {
    forall|i: int, j: int| 0 <= i < j < list.len() ==> list[i] != list[j]
}

/// The items of `found` that `truth` holds.
spec fn hit_set(truth: Seq<i64>, found: Seq<i64>) -> Set<i64> {
    found.to_set().intersect(truth.to_set())
}

proof fn lemma_hits_count(truth: Seq<i64>, found: Seq<i64>)
    requires
        distinct(found),
    ensures
        hits(truth, found) == hit_set(truth, found).len(),
        hit_set(truth, found).finite(),
    decreases found.len(),
{
    if found.len() == 0 {
        assert(hit_set(truth, found) =~= Set::empty());
    } else {
        let rest = found.drop_last();
        let x = found.last();
        lemma_hits_count(truth, rest);
        assert forall|y: i64| #[trigger] found.contains(y) <==> rest.contains(y) || y == x by {
            if found.contains(y) && y != x {
                let i = choose|i: int| 0 <= i < found.len() && found[i] == y;
                assert(rest[i] == y);
            }
            if rest.contains(y) {
                let i = choose|i: int| 0 <= i < rest.len() && rest[i] == y;
                assert(found[i] == y);
            }
            assert(found[found.len() - 1] == x);
        }
        if truth.contains(x) {
            assert(hit_set(truth, found) =~= hit_set(truth, rest).insert(x));
            assert(!rest.contains(x)) by {
                if rest.contains(x) {
                    let i = choose|i: int| 0 <= i < rest.len() && rest[i] == x;
                    assert(found[i] == found[found.len() - 1]);
                }
            }
        } else {
            assert(hit_set(truth, found) =~= hit_set(truth, rest));
        }
    }
}

/// The hits at `k` are the ids that stand both among the first `k` true ones and among the first
/// `k` found ones, where none is found twice there; what stands behind makes no difference. They
/// are counted out of `k`, or of all true ones where there are fewer.
pub proof fn law_recall_counts_common_ids(
    truth: Seq<i64>,
    approx: Seq<i64>,
    more_truth: Seq<i64>,
    more_found: Seq<i64>,
    k: nat,
)
    requires
        distinct(top(approx, k)),
    ensures
        recall_hits(truth, approx, k) == top(truth, k).to_set().intersect(
            top(approx, k).to_set(),
        ).len(),
        truth.len() >= k && approx.len() >= k ==> recall_hits(
            truth + more_truth,
            approx + more_found,
            k,
        ) == recall_hits(truth, approx, k),
        top_len(truth.len(), k) <= k,
        top_len(truth.len(), k) <= truth.len(),
        top_len(truth.len(), k) == k || top_len(truth.len(), k) == truth.len(),
        top(truth, k).len() == top_len(truth.len(), k),
        forall|i: int| 0 <= i < top(truth, k).len() ==> #[trigger] top(truth, k)[i] == truth[i],
{
    let wanted = top(truth, k);
    let found = top(approx, k);
    lemma_hits_count(wanted, found);
    assert(hit_set(wanted, found) =~= wanted.to_set().intersect(found.to_set()));
    if truth.len() >= k && approx.len() >= k {
        assert(top(truth + more_truth, k) =~= wanted);
        assert(top(approx + more_found, k) =~= found);
    }
}

/// A recall never exceeds 1 where no id is found twice among the first `k`.
pub proof fn law_recall_at_most_one(truth: Seq<i64>, approx: Seq<i64>, k: nat)
    requires
        distinct(top(approx, k)),
    ensures
        hits(top(truth, k), top(approx, k)) <= top_len(truth.len(), k),
{
    let wanted = top(truth, k);
    let found = top(approx, k);
    lemma_hits_count(wanted, found);
    wanted.lemma_cardinality_of_set();
    vstd::set_lib::lemma_len_subset(hit_set(wanted, found), wanted.to_set());
}

/// The recall is 1 just where every one of the true top `k` is among the first `k` found. There
/// is nothing to find, and nothing found, where `k` is 0 or there are no true neighbors.
pub proof fn law_full_recall(truth: Seq<i64>, approx: Seq<i64>, k: nat)
    requires
        distinct(top(truth, k)),
        distinct(top(approx, k)),
    ensures
        hits(top(truth, k), top(approx, k)) == top_len(truth.len(), k) <==> forall|i: int|
            0 <= i < top(truth, k).len() ==> top(approx, k).contains(#[trigger] top(truth, k)[i]),
        k == 0 || truth.len() == 0 ==> top_len(truth.len(), k) == 0 && hits(
            top(truth, k),
            top(approx, k),
        ) == 0,
{
    let wanted = top(truth, k);
    let found = top(approx, k);
    law_recall_at_most_one(truth, approx, k);
    lemma_hits_count(wanted, found);
    wanted.unique_seq_to_set();
    let both = hit_set(wanted, found);
    if hits(wanted, found) == wanted.len() {
        vstd::set_lib::lemma_subset_equality(both, wanted.to_set());
        assert forall|i: int| 0 <= i < wanted.len() implies found.contains(
            #[trigger] wanted[i],
        ) by {
            assert(wanted.to_set().contains(wanted[i]));
            assert(both.contains(wanted[i]));
        }
    }
    if forall|i: int| 0 <= i < wanted.len() ==> found.contains(#[trigger] wanted[i]) {
        assert forall|x: i64| #[trigger] wanted.to_set().contains(x) implies both.contains(x) by {
            let i = choose|i: int| 0 <= i < wanted.len() && wanted[i] == x;
            assert(found.contains(wanted[i]));
        }
        assert(both =~= wanted.to_set());
    }
}

proof fn lemma_hits_same_items(truth: Seq<i64>, a: Seq<i64>, b: Seq<i64>)
    requires
        a.to_multiset() == b.to_multiset(),
    ensures
        hits(truth, a) == hits(truth, b),
    decreases a.len(),
{
    broadcast use vstd::seq_lib::group_to_multiset_ensures;

    assert(a.len() == a.to_multiset().len() && b.len() == b.to_multiset().len());
    if a.len() == 0 {
        assert(a =~= b);
    } else {
        let x = a.last();
        assert(a[a.len() - 1] == x);
        assert(a.contains(x));
        assert(a.to_multiset().contains(x));
        assert(b.contains(x));
        let i = choose|i: int| 0 <= i < b.len() && b[i] == x;
        let rest = a.drop_last();
        let others = b.remove(i);
        assert(rest.push(x) =~= a);
        assert(rest.to_multiset() =~= a.to_multiset().remove(x));
        assert(others.to_multiset() =~= b.to_multiset().remove(x));
        lemma_hits_same_items(truth, rest, others);
        lemma_hits_without(truth, b, i);
    }
}

/// An item counts wherever it stands.
proof fn lemma_hits_without(truth: Seq<i64>, found: Seq<i64>, i: int)
    requires
        0 <= i < found.len(),
    ensures
        hits(truth, found) == hits(truth, found.remove(i)) + (if truth.contains(found[i]) {
            1nat
        } else {
            0
        }),
    decreases found.len(),
{
    if i == found.len() - 1 {
        assert(found.remove(i) =~= found.drop_last());
    } else {
        lemma_hits_without(truth, found.drop_last(), i);
        assert(found.remove(i).drop_last() =~= found.drop_last().remove(i));
        assert(found.remove(i).last() == found.last());
    }
}

proof fn lemma_hits_same_truth(a: Seq<i64>, b: Seq<i64>, found: Seq<i64>)
    requires
        forall|x: i64| #[trigger] a.contains(x) <==> b.contains(x),
    ensures
        hits(a, found) == hits(b, found),
    decreases found.len(),
{
    if found.len() > 0 {
        lemma_hits_same_truth(a, b, found.drop_last());
        assert(a.contains(found.last()) <==> b.contains(found.last()));
    }
}

/// A recall depends on which ids are among the first `k` of either list alone: not on their
/// order there, not on the scores, and not on what stands behind the first `k`.
pub proof fn law_recall_ignores_order<A, B, C, D>(
    truth: Seq<(i64, A)>,
    approx: Seq<(i64, B)>,
    other_truth: Seq<(i64, C)>,
    other_approx: Seq<(i64, D)>,
    k: nat,
)
    requires
        top(ids(truth), k).to_multiset() == top(ids(other_truth), k).to_multiset(),
        top(ids(approx), k).to_multiset() == top(ids(other_approx), k).to_multiset(),
    ensures
        hits(top(ids(truth), k), top(ids(approx), k)) == hits(
            top(ids(other_truth), k),
            top(ids(other_approx), k),
        ),
        top_len(truth.len(), k) == top_len(other_truth.len(), k),
{
    broadcast use vstd::seq_lib::group_to_multiset_ensures;

    let a = top(ids(truth), k);
    let b = top(ids(other_truth), k);
    assert forall|x: i64| #[trigger] a.contains(x) <==> b.contains(x) by {
        assert(a.contains(x) <==> a.to_multiset().count(x) > 0);
        assert(b.contains(x) <==> b.to_multiset().count(x) > 0);
    }
    assert(a.len() == a.to_multiset().len() && b.len() == b.to_multiset().len());
    lemma_hits_same_truth(a, b, top(ids(approx), k));
    lemma_hits_same_items(b, top(ids(approx), k), top(ids(other_approx), k));
}

/// Where the search finds the true neighbors themselves, the recall is 1.
pub proof fn law_exact_search_has_full_recall(truth: Seq<i64>, k: nat)
    ensures
        hits(top(truth, k), top(truth, k)) == top_len(truth.len(), k),
{
    lemma_all_hits(top(truth, k), top(truth, k));
}

proof fn lemma_all_hits(truth: Seq<i64>, found: Seq<i64>)
    requires
        forall|i: int| 0 <= i < found.len() ==> truth.contains(#[trigger] found[i]),
    ensures
        hits(truth, found) == found.len(),
    decreases found.len(),
{
    if found.len() > 0 {
        let rest = found.drop_last();
        assert forall|i: int| 0 <= i < rest.len() implies truth.contains(#[trigger] rest[i]) by {
            assert(found[i] == rest[i]);
        }
        lemma_all_hits(truth, rest);
        assert(truth.contains(found[found.len() - 1]));
    }
}

// ---------------------------------------------------------------------------
// Score gap
// ---------------------------------------------------------------------------

/// Two lists of scores of one length; the score gap is the mean of the first less the mean of
/// the second.
pub struct ScoreGap<S> {
    pub from: Vec<S>,
    pub less: Vec<S>,
}

/// The number of scores that are compared at `k`.
pub open spec fn compared(truth_len: nat, approx_len: nat, k: nat) -> nat {
    top_len(approx_len, top_len(truth_len, k))
}

/// Whether the first `n` true neighbors all have a score.
pub open spec fn all_scored<S>(truth: Seq<(i64, Option<S>)>, n: nat) -> bool {
    forall|i: int| 0 <= i < n ==> (#[trigger] truth[i]).1 is Some
}

/// The scores of the first `n` true neighbors.
pub open spec fn true_scores<S>(truth: Seq<(i64, Option<S>)>, n: nat) -> Seq<S> {
    Seq::new(n, |i: int| truth[i].1->0)
}

/// The scores of the first `n` found neighbors.
pub open spec fn found_scores<S>(approx: Seq<(i64, S)>, n: nat) -> Seq<S> {
    Seq::new(n, |i: int| approx[i].1)
}

/// The scores whose means make the gap at `k`, those from which first: for a similarity the
/// true ones less the found ones, for a distance the found ones less the true ones. There are
/// none where nothing is compared or a true neighbor that counts has no score.
pub open spec fn gap_scores<S>(
    truth: Seq<(i64, Option<S>)>,
    approx: Seq<(i64, S)>,
    k: nat,
    metric: Metric,
) -> Option<(Seq<S>, Seq<S>)> {
    let n = compared(truth.len(), approx.len(), k);
    if n == 0 || !all_scored(truth, n) {
        None
    } else {
        match metric {
            Metric::Cosine => Some((true_scores(truth, n), found_scores(approx, n))),
            Metric::L2 => Some((found_scores(approx, n), true_scores(truth, n))),
        }
    }
}

/// The scores whose means make the gap between the exact and the approximate top `k`, which is
/// not negative when the approximation is imperfect: for a similarity (higher is nearer) the
/// true ones less the found ones, for a distance (lower is nearer) the found ones less the true
/// ones. There is none where nothing is compared or a true neighbor that counts has no score.
pub fn sim_loss_at_k<S: Copy>(
    truth: &[(i64, Option<S>)],
    approx: &[(i64, S)],
    k: usize,
    metric: Metric,
) -> (res: Option<ScoreGap<S>>)
    ensures
        match res {
            Some(gap) => gap_scores(truth@, approx@, k as nat, metric) == Some(
                (gap.from@, gap.less@),
            ),
            None => gap_scores(truth@, approx@, k as nat, metric) is None,
        },
{
    let mut n: usize = k;
    if truth.len() < n {
        n = truth.len();
    }
    if approx.len() < n {
        n = approx.len();
    }
    if n == 0 {
        return None;
    }
    let mut wanted: Vec<S> = Vec::new();
    let mut found: Vec<S> = Vec::new();
    for i in 0..n
        invariant
            n == compared(truth@.len(), approx@.len(), k as nat),
            all_scored(truth@, i as nat),
            wanted@ == true_scores(truth@, i as nat),
            found@ == found_scores(approx@, i as nat),
    {
        match truth[i].1 {
            Some(score) => {
                wanted.push(score);
            },
            None => {
                return None;
            },
        }
        found.push(approx[i].1);
        assert(wanted@ =~= true_scores(truth@, (i + 1) as nat));
        assert(found@ =~= found_scores(approx@, (i + 1) as nat));
    }
    Some(
        if metric.is_similarity() {
            ScoreGap { from: wanted, less: found }
        } else {
            ScoreGap { from: found, less: wanted }
        },
    )
}

/// `wanted` are the true scores and `found` the found ones, place by place, as far as both lists
/// reach and no further than `k`.
pub open spec fn are_compared<S>(
    truth: Seq<(i64, Option<S>)>,
    approx: Seq<(i64, S)>,
    k: nat,
    wanted: Seq<S>,
    found: Seq<S>,
) -> bool {
    &&& 0 < wanted.len() == found.len()
    &&& wanted.len() <= k && wanted.len() <= truth.len() && wanted.len() <= approx.len()
    &&& wanted.len() == k || wanted.len() == truth.len() || wanted.len() == approx.len()
    &&& forall|i: int| 0 <= i < wanted.len() ==> truth[i].1 == Some(#[trigger] wanted[i])
    &&& forall|i: int| 0 <= i < found.len() ==> approx[i].1 == #[trigger] found[i]
}

/// The gap compares the lists place by place, as far as both reach and no further than `k`, with
/// the true score of a place on the one side and the found score of that place on the other: of
/// a similarity the true scores come first. There is a gap exactly where something is compared
/// and every true neighbor that is compared has a score.
pub proof fn law_gap_compares_place_by_place<S>(
    truth: Seq<(i64, Option<S>)>,
    approx: Seq<(i64, S)>,
    k: nat,
    metric: Metric,
)
    ensures
        match gap_scores(truth, approx, k, metric) {
            Some((from, less)) => {
                &&& crate::metric::higher_is_nearer(metric) ==> are_compared(
                    truth,
                    approx,
                    k,
                    from,
                    less,
                )
                &&& !crate::metric::higher_is_nearer(metric) ==> are_compared(
                    truth,
                    approx,
                    k,
                    less,
                    from,
                )
            },
            None => k == 0 || truth.len() == 0 || approx.len() == 0 || exists|i: int|
                0 <= i < k && i < truth.len() && i < approx.len() && (#[trigger] truth[i]).1 is None,
        },
        k == 0 || truth.len() == 0 || approx.len() == 0 ==> gap_scores(
            truth,
            approx,
            k,
            metric,
        ) is None,
{
    let n = compared(truth.len(), approx.len(), k);
    if let Some((from, less)) = gap_scores(truth, approx, k, metric) {
        let wanted = true_scores(truth, n);
        let found = found_scores(approx, n);
        assert forall|i: int| 0 <= i < n implies truth[i].1 == Some(#[trigger] wanted[i]) by {
            assert(truth[i].1 is Some);
        }
        assert(are_compared(truth, approx, k, wanted, found));
    }
}

/// The metric only turns the gap round: the list from which a gap of similarities is taken is
/// the one that is taken off in a gap of distances, and the other way.
pub proof fn law_metric_turns_the_gap<S>(
    truth: Seq<(i64, Option<S>)>,
    approx: Seq<(i64, S)>,
    k: nat,
)
    ensures
        gap_scores(truth, approx, k, Metric::L2) == (match gap_scores(
            truth,
            approx,
            k,
            Metric::Cosine,
        ) {
            Some((from, less)) => Some((less, from)),
            None => None,
        }),
{
}

/// The sum of a list of scores, each read as a whole number of some unit.
pub open spec fn summed<S>(scores: Seq<S>, value: spec_fn(S) -> int) -> int
    decreases scores.len(),
{
    if scores.len() == 0 {
        0
    } else {
        summed(scores.drop_last(), value) + value(scores.last())
    }
}

/// A found score is no nearer than the true one: no greater as a similarity, no less as a
/// distance.
pub open spec fn no_nearer(metric: Metric, found: int, wanted: int) -> bool {
    match metric {
        Metric::Cosine => found <= wanted,
        Metric::L2 => found >= wanted,
    }
}

proof fn lemma_sums_keep_order<S>(a: Seq<S>, b: Seq<S>, value: spec_fn(S) -> int)
    requires
        a.len() == b.len(),
        forall|i: int| 0 <= i < a.len() ==> value(#[trigger] a[i]) <= value(b[i]),
    ensures
        summed(a, value) <= summed(b, value),
    decreases a.len(),
{
    if a.len() > 0 {
        assert forall|i: int| 0 <= i < a.len() - 1 implies value(#[trigger] a.drop_last()[i])
            <= value(b.drop_last()[i]) by {
            assert(value(a[i]) <= value(b[i]));
        }
        lemma_sums_keep_order(a.drop_last(), b.drop_last(), value);
        assert(value(a[a.len() - 1]) <= value(b[a.len() - 1]));
    }
}

/// The gap is not negative where each found score is no nearer than the true one in its place:
/// the two lists have one length, and the first has the sum that is not less, in every unit in
/// which the scores are whole.
pub proof fn law_gap_is_not_negative<S>(
    truth: Seq<(i64, Option<S>)>,
    approx: Seq<(i64, S)>,
    k: nat,
    metric: Metric,
    value: spec_fn(S) -> int,
)
    requires
        gap_scores(truth, approx, k, metric) is Some,
        forall|i: int|
            0 <= i < compared(truth.len(), approx.len(), k) ==> no_nearer(
                metric,
                value((#[trigger] approx[i]).1),
                value(truth[i].1->0),
            ),
    ensures
        gap_scores(truth, approx, k, metric) matches Some((from, less)) && from.len() == less.len()
            && from.len() > 0 && summed(from, value) >= summed(less, value),
{
    let n = compared(truth.len(), approx.len(), k);
    let wanted = true_scores(truth, n);
    let found = found_scores(approx, n);
    assert forall|i: int| 0 <= i < n implies no_nearer(
        metric,
        value(#[trigger] found[i]),
        value(wanted[i]),
    ) by {
        assert(found[i] == approx[i].1);
    }
    match metric {
        Metric::Cosine => {
            lemma_sums_keep_order(found, wanted, value);
        },
        Metric::L2 => {
            assert forall|i: int| 0 <= i < n implies value(#[trigger] wanted[i]) <= value(
                found[i],
            ) by {
                assert(no_nearer(metric, value(found[i]), value(wanted[i])));
            }
            lemma_sums_keep_order(wanted, found, value);
        },
    }
}

// ---------------------------------------------------------------------------
// Percentiles
// ---------------------------------------------------------------------------

/// The numbers ascend.
pub open spec fn sorted(list: Seq<u64>) -> bool {
    forall|i: int, j: int| 0 <= i <= j < list.len() ==> list[i] <= list[j]
}

/// The list read at `rank` hundredths of a place, linearly between its samples, in hundredths.
pub open spec fn interpolated(list: Seq<u64>, rank: int) -> int {
    let low = rank / 100;
    let part = rank % 100;
    if part == 0 {
        100 * list[low]
    } else {
        (100 - part) * list[low] + part * list[low + 1]
    }
}

/// The `p`-th percentile of an ascending list, in hundredths: the list read at the place
/// `(p / 100) * (n - 1)`.
pub open spec fn percentile_of(list: Seq<u64>, p: nat) -> int {
    interpolated(list, p * (list.len() - 1))
}

/// Linear-interpolation percentile of an ascending list, in hundredths of its unit. This
/// matches `numpy.percentile`'s default method, which is what ann-benchmarks uses. The rank is
/// `(p/100) * (n - 1)` and the result interpolates between the two bracketing samples.
pub fn percentile(list: &[u64], p: u8) -> (res: u128)
    requires
        list@.len() > 0,
        p <= 100,
    ensures
        res == percentile_of(list@, p as nat),
{
    let last: u128 = (list.len() - 1) as u128;
    assert(0 <= p * last <= 100 * last) by (nonlinear_arith)
        requires
            0 <= p <= 100,
            last >= 0,
    ;
    let rank: u128 = p as u128 * last;
    let low: usize = (rank / 100) as usize;
    let part: u128 = rank % 100;
    assert(low <= last);
    if part == 0 {
        100 * list[low] as u128
    } else {
        assert(low < last);
        let a: u128 = list[low] as u128;
        let b: u128 = list[low + 1] as u128;
        assert(0 <= (100 - part) * a <= 100 * a) by (nonlinear_arith)
            requires
                0 <= part <= 100,
                a >= 0,
        ;
        assert(0 <= part * b <= 100 * b) by (nonlinear_arith)
            requires
                0 <= part <= 100,
                b >= 0,
        ;
        (100 - part) * a + part * b
    }
}

proof fn lemma_interpolated_steps(list: Seq<u64>, rank: int, further: int)
    requires
        sorted(list),
        0 <= rank <= further <= 100 * (list.len() - 1),
    ensures
        interpolated(list, rank) <= interpolated(list, further),
    decreases further - rank,
{
    if rank < further {
        lemma_interpolated_steps(list, rank, further - 1);
        let r = further - 1;
        let low = r / 100;
        let part = r % 100;
        let a = list[low] as int;
        let b = list[low + 1] as int;
        assert(a <= b);
        let here = (100 - part) * a + part * b;
        let next = (100 - (part + 1)) * a + (part + 1) * b;
        assert(here + (b - a) == next) by (nonlinear_arith)
            requires
                here == (100 - part) * a + part * b,
                next == (100 - (part + 1)) * a + (part + 1) * b,
        ;
        assert(part == 0 ==> here == 100 * a) by (nonlinear_arith)
            requires
                here == (100 - part) * a + part * b,
        ;
        assert(part == 99 ==> next == 100 * b) by (nonlinear_arith)
            requires
                next == (100 - (part + 1)) * a + (part + 1) * b,
        ;
        if part == 99 {
            assert(further / 100 == low + 1 && further % 100 == 0);
        } else {
            assert(further / 100 == low && further % 100 == part + 1);
        }
    }
}

/// A higher percentile is not smaller; the lowest is the first sample, the highest the last.
pub proof fn law_percentiles_ascend(list: Seq<u64>, p: nat, q: nat)
    requires
        sorted(list),
        list.len() > 0,
        p <= q <= 100,
    ensures
        percentile_of(list, p) <= percentile_of(list, q),
        percentile_of(list, 0) == 100 * list[0],
        percentile_of(list, 100) == 100 * list.last(),
        100 * list[0] <= percentile_of(list, p) <= 100 * list.last(),
{
    let n = list.len() - 1;
    assert(0 <= p * n <= q * n <= 100 * n) by (nonlinear_arith)
        requires
            0 <= p <= q <= 100,
            n >= 0,
    ;
    lemma_interpolated_steps(list, p * n, q * n);
    lemma_interpolated_steps(list, 0, p * n);
    lemma_interpolated_steps(list, p * n, 100 * n);
}

/// A percentile lies between the two samples that bracket its place, as far behind the lower one
/// as its place is, and is a sample where its place is one. The fiftieth is the median: the
/// middle sample of an odd number, the mean of the two middle ones of an even number.
#[verifier::rlimit(40)]
pub proof fn law_percentile_is_linear(list: Seq<u64>, p: nat, low: int, part: int)
    requires
        sorted(list),
        list.len() > 0,
        p <= 100,
        0 <= low < list.len(),
        0 <= part < 100,
        100 * low + part == p * (list.len() - 1),
    ensures
        part == 0 ==> percentile_of(list, p) == 100 * list[low],
        part > 0 ==> low + 1 < list.len(),
        part > 0 ==> percentile_of(list, p) - 100 * list[low] == part * (list[low + 1] - list[low]),
        100 * list[low] <= percentile_of(list, p),
        low + 1 < list.len() ==> percentile_of(list, p) <= 100 * list[low + 1],
{
    let rank = p * (list.len() - 1);
    assert(rank / 100 == low && rank % 100 == part);
    let n = list.len() - 1;
    assert(p * n <= 100 * n) by (nonlinear_arith)
        requires
            0 <= p <= 100,
            n >= 0,
    ;
    if part > 0 {
        let a = list[low] as int;
        let b = list[low + 1] as int;
        assert(low + 1 < list.len());
        assert(a <= b);
        assert((100 - part) * a + part * b - 100 * a == part * (b - a)) by (nonlinear_arith);
        assert(0 <= part * (b - a) <= 100 * (b - a)) by (nonlinear_arith)
            requires
                0 <= part < 100,
                a <= b,
        ;
    }
}

/// The fiftieth percentile is the median: the middle sample of an odd number of them, the mean of
/// the two middle ones of an even number.
pub proof fn law_median(list: Seq<u64>, half: int)
    requires
        sorted(list),
    ensures
        half >= 0 && list.len() == 2 * half + 1 ==> percentile_of(list, 50) == 100 * list[half],
        half > 0 && list.len() == 2 * half ==> percentile_of(list, 50) == 50 * (list[half - 1]
            + list[half]),
{
    if half >= 0 && list.len() == 2 * half + 1 {
        law_percentile_is_linear(list, 50, half, 0);
    }
    if half > 0 && list.len() == 2 * half {
        law_percentile_is_linear(list, 50, half - 1, 50);
    }
}

// ---------------------------------------------------------------------------
// Timing
// ---------------------------------------------------------------------------

/// The latencies with the queries they belong to.
pub open spec fn numbered(latencies: Seq<u64>) -> Seq<(u64, usize)> {
    Seq::new(latencies.len(), |i: int| (latencies[i], i as usize))
}

/// The queries in ascending order of their latencies; equally slow ones keep their order.
pub open spec fn by_latency(latencies: Seq<u64>) -> Seq<(u64, usize)> {
    crate::order::in_order(numbered(latencies))
}

/// The latencies in ascending order.
pub open spec fn sorted_latencies(latencies: Seq<u64>) -> Seq<u64> {
    by_latency(latencies).map_values(|x: (u64, usize)| x.0)
}

/// The sum of the latencies.
pub open spec fn total(latencies: Seq<u64>) -> nat
    decreases latencies.len(),
{
    if latencies.len() == 0 {
        0
    } else {
        total(latencies.drop_last()) + latencies.last() as nat
    }
}

/// The queries in ascending order of their latencies.
fn order_by_latency(latencies: &[u64]) -> (res: Vec<(u64, usize)>)
    ensures
        res@ == by_latency(latencies@),
        res@.len() == latencies@.len(),
{
    let mut items: Vec<(u64, usize)> = Vec::new();
    for i in 0..latencies.len()
        invariant
            items@ == numbered(latencies@).take(i as int),
    {
        items.push((latencies[i], i));
        assert(items@ =~= numbered(latencies@).take(i + 1));
    }
    assert(items@ =~= numbered(latencies@));
    proof {
        crate::order::law_in_order(numbered(latencies@));
    }
    stable_sort(items)
}

/// Timing summary for one measurement pass, in nanoseconds; the percentiles are in hundredths of
/// a nanosecond. The mean latency is `total_ns / count`; the throughput is `count` queries in
/// `span_ns`, and 0 where `span_ns` is 0.
#[derive(Copy, Clone, Debug, PartialEq, Eq, Structural)]
pub struct QueryTiming {
    pub count: usize,
    pub total_ns: u128,
    pub p50: u128,
    pub p90: u128,
    pub p95: u128,
    pub p99: u128,
    pub span_ns: u128,
}

/// The summary of `latencies`, with `span` the time in which the queries ran.
pub open spec fn is_timing_of(t: QueryTiming, latencies: Seq<u64>, span: nat) -> bool {
    let list = sorted_latencies(latencies);
    &&& t.count == latencies.len()
    &&& t.total_ns == total(latencies)
    &&& t.span_ns == span
    &&& t.p50 == percentile_of(list, 50)
    &&& t.p90 == percentile_of(list, 90)
    &&& t.p95 == percentile_of(list, 95)
    &&& t.p99 == percentile_of(list, 99)
}

/// The time over which throughput is taken.
pub open spec fn span_of(mode: BenchMode, latencies: Seq<u64>, wall: nat) -> nat {
    match mode {
        BenchMode::Latency => total(latencies),
        BenchMode::Qps => wall,
    }
}

impl QueryTiming {
    /// The summary of no queries: all zeros.
    pub open spec fn nothing() -> QueryTiming {
        QueryTiming { count: 0, total_ns: 0, p50: 0, p90: 0, p95: 0, p99: 0, span_ns: 0 }
    }

    /// The summary of no queries: all zeros.
    pub fn empty() -> (res: QueryTiming)
        ensures
            res == QueryTiming::nothing(),
    {
        QueryTiming { count: 0, total_ns: 0, p50: 0, p90: 0, p95: 0, p99: 0, span_ns: 0 }
    }

    /// Summarize per-query latencies. `mode` says over which time throughput is taken: with a
    /// single client over the time of the queries themselves, with concurrent clients over the
    /// wall-clock time `wall_ns`.
    pub fn from_latencies(latencies: &[u64], mode: BenchMode, wall_ns: u128) -> (res: QueryTiming)
        ensures
            latencies@.len() == 0 ==> res == QueryTiming::nothing(),
            latencies@.len() > 0 ==> is_timing_of(
                res,
                latencies@,
                span_of(mode, latencies@, wall_ns as nat),
            ),
    {
        if latencies.len() == 0 {
            return Self::empty();
        }
        let mut total_ns: u128 = 0;
        for i in 0..latencies.len()
            invariant
                total_ns == total(latencies@.take(i as int)),
                total_ns <= i * u64::MAX,
                latencies@.len() <= u64::MAX,
        {
            assert(latencies@.take(i + 1).drop_last() =~= latencies@.take(i as int));
            assert(i * u64::MAX <= u64::MAX * u64::MAX) by (nonlinear_arith)
                requires
                    0 <= i <= u64::MAX,
            ;
            total_ns = total_ns + latencies[i] as u128;
        }
        assert(latencies@.take(latencies@.len() as int) =~= latencies@);
        let order = order_by_latency(latencies);
        let mut list: Vec<u64> = Vec::new();
        for i in 0..order.len()
            invariant
                list@.len() == i,
                forall|k: int| 0 <= k < i ==> list@[k] == order@[k].0,
        {
            list.push(order[i].0);
        }
        assert(list@ =~= sorted_latencies(latencies@));
        QueryTiming {
            count: latencies.len(),
            total_ns,
            p50: percentile(&list, 50),
            p90: percentile(&list, 90),
            p95: percentile(&list, 95),
            p99: percentile(&list, 99),
            span_ns: match mode {
                BenchMode::Latency => total_ns,
                BenchMode::Qps => wall_ns,
            },
        }
    }
}

/// The latencies of a pass come one after the other: the sum of two passes is the sum of theirs.
pub proof fn law_total_adds(a: Seq<u64>, b: Seq<u64>, x: u64)
    ensures
        total(seq![x]) == x,
        total(a + b) == total(a) + total(b),
    decreases b.len(),
{
    assert(seq![x].drop_last() =~= Seq::empty());
    assert(total(Seq::empty()) == 0);
    if b.len() == 0 {
        assert(a + b =~= a);
    } else {
        law_total_adds(a, b.drop_last(), x);
        assert((a + b).drop_last() =~= a + b.drop_last());
    }
}

/// The latencies in order are the latencies that were measured, each as often, and ascend.
pub proof fn law_latencies_in_order(latencies: Seq<u64>)
    ensures
        sorted(sorted_latencies(latencies)),
        sorted_latencies(latencies).to_multiset() == latencies.to_multiset(),
        sorted_latencies(latencies).len() == latencies.len(),
{
    let items = numbered(latencies);
    let order = by_latency(latencies);
    let list = sorted_latencies(latencies);
    crate::order::law_in_order(items);
    assert forall|i: int, j: int| 0 <= i <= j < list.len() implies list[i] <= list[j] by {
        assert(order[i].0 <= order[j].0);
    }
    lemma_keys_same(order, items);
    assert(items.map_values(|x: (u64, usize)| x.0) =~= latencies);
}

proof fn lemma_keys_same(a: Seq<(u64, usize)>, b: Seq<(u64, usize)>)
    requires
        a.to_multiset() == b.to_multiset(),
    ensures
        a.map_values(|x: (u64, usize)| x.0).to_multiset() == b.map_values(
            |x: (u64, usize)| x.0,
        ).to_multiset(),
    decreases a.len(),
{
    broadcast use vstd::seq_lib::group_to_multiset_ensures;

    let key = |x: (u64, usize)| x.0;
    assert(a.len() == a.to_multiset().len() && b.len() == b.to_multiset().len());
    if a.len() == 0 {
        assert(a =~= b);
    } else {
        let x = a.last();
        let rest = a.drop_last();
        assert(a[a.len() - 1] == x);
        assert(a.contains(x));
        assert(a.to_multiset().contains(x));
        assert(b.contains(x));
        let i = choose|i: int| 0 <= i < b.len() && b[i] == x;
        let others = b.remove(i);
        assert(rest.push(x) =~= a);
        assert(rest.to_multiset() =~= a.to_multiset().remove(x));
        assert(others.to_multiset() =~= b.to_multiset().remove(x));
        lemma_keys_same(rest, others);
        let p = a.map_values(key);
        let q = b.map_values(key);
        assert(p =~= rest.map_values(key).push(x.0));
        assert(q.remove(i) =~= others.map_values(key));
        assert(q[i] == x.0);
        assert(q.contains(x.0));
        assert(q.remove(i).to_multiset() =~= q.to_multiset().remove(x.0));
        assert(p.to_multiset() =~= rest.map_values(key).to_multiset().insert(x.0));
        assert(q.to_multiset().count(x.0) > 0);
        assert(p.to_multiset() =~= q.to_multiset());
    }
}

/// Throughput is over the time of the queries themselves with a single client, whatever the
/// clock showed, and over the clock's time with concurrent ones, whatever the queries took.
pub proof fn law_span_of_the_mode(a: Seq<u64>, b: Seq<u64>, wall: nat, other: nat)
    ensures
        span_of(BenchMode::Latency, a, wall) == span_of(BenchMode::Latency, a, other),
        span_of(BenchMode::Qps, a, wall) == span_of(BenchMode::Qps, b, wall),
        span_of(BenchMode::Qps, a, wall) == wall,
        span_of(BenchMode::Latency, a + b, wall) == span_of(BenchMode::Latency, a, wall) + span_of(
            BenchMode::Latency,
            b,
            wall,
        ),
{
    law_total_adds(a, b, 0);
}

/// `value` is the `p`-th percentile of an ascending list, in hundredths: between the samples that
/// bracket the place `p (n - 1) / 100`, and as far behind the lower as the place is.
pub open spec fn stands_at_percent(list: Seq<u64>, p: int, value: int) -> bool {
    forall|low: int, part: int|
        0 <= low < list.len() && 0 <= part < 100 && #[trigger] (100 * low + part) == p * (list.len()
            - 1) ==> {
            &&& part == 0 ==> value == 100 * list[low]
            &&& part > 0 ==> value - 100 * list[low] == part * (list[low + 1] - list[low])
        }
}

/// Each percentile of a summary is the one that it is named for.
pub proof fn law_percentiles_are_those_named(t: QueryTiming, latencies: Seq<u64>, span: nat)
    requires
        latencies.len() > 0,
        is_timing_of(t, latencies, span),
    ensures
        stands_at_percent(sorted_latencies(latencies), 50, t.p50 as int),
        stands_at_percent(sorted_latencies(latencies), 90, t.p90 as int),
        stands_at_percent(sorted_latencies(latencies), 95, t.p95 as int),
        stands_at_percent(sorted_latencies(latencies), 99, t.p99 as int),
        t.count == latencies.len(),
        t.total_ns == total(latencies),
        t.span_ns == span,
{
    law_timing_percentiles(t, latencies, span);
    crate::order::law_in_order(numbered(latencies));
    let list = sorted_latencies(latencies);
    lemma_stands_at_percent(list, 50);
    lemma_stands_at_percent(list, 90);
    lemma_stands_at_percent(list, 95);
    lemma_stands_at_percent(list, 99);
}

proof fn lemma_stands_at_percent(list: Seq<u64>, p: nat)
    requires
        sorted(list),
        list.len() > 0,
        p <= 100,
    ensures
        stands_at_percent(list, p as int, percentile_of(list, p)),
{
    assert forall|low: int, part: int|
        0 <= low < list.len() && 0 <= part < 100 && #[trigger] (100 * low + part) == p * (list.len()
            - 1) implies {
        &&& part == 0 ==> percentile_of(list, p) == 100 * list[low]
        &&& part > 0 ==> percentile_of(list, p) - 100 * list[low] == part * (list[low + 1]
            - list[low])
    } by {
        law_percentile_is_linear(list, p, low, part);
    }
}

/// The percentiles of a summary ascend and lie between the fastest and the slowest query.
pub proof fn law_timing_percentiles(t: QueryTiming, latencies: Seq<u64>, span: nat)
    requires
        latencies.len() > 0,
        is_timing_of(t, latencies, span),
    ensures
        sorted(sorted_latencies(latencies)),
        100 * sorted_latencies(latencies)[0] <= t.p50 <= t.p90 <= t.p95 <= t.p99 <= 100
            * sorted_latencies(latencies).last(),
{
    let order = by_latency(latencies);
    let list = sorted_latencies(latencies);
    crate::order::law_in_order(numbered(latencies));
    assert forall|i: int, j: int| 0 <= i <= j < list.len() implies list[i] <= list[j] by {
        assert(order[i].0 <= order[j].0);
    }
    law_percentiles_ascend(list, 50, 90);
    law_percentiles_ascend(list, 90, 95);
    law_percentiles_ascend(list, 95, 99);
    law_percentiles_ascend(list, 99, 99);
}

// ---------------------------------------------------------------------------
// Latency bands
// ---------------------------------------------------------------------------

/// The number of latency bands.
pub const BAND_COUNT: usize = 5;

/// The percentile at the upper edge of the `i`-th band; the lower edge of the first is 0.
pub open spec fn band_edge(i: int) -> nat {
    if i < 0 {
        0
    } else if i == 0 {
        50
    } else if i == 1 {
        90
    } else if i == 2 {
        95
    } else if i == 3 {
        99
    } else {
        100
    }
}

/// The label of the `i`-th band.
pub open spec fn band_label(i: int) -> Seq<char> {
    if i == 0 {
        "p50"@
    } else if i == 1 {
        "p90"@
    } else if i == 2 {
        "p95"@
    } else if i == 3 {
        "p99"@
    } else {
        "p100"@
    }
}

/// The number of `n` queries up to the `p`-th percentile: `p` hundredths of `n`, rounded to the
/// nearest whole number, halves upwards.
pub open spec fn band_place(p: nat, n: nat) -> nat {
    (p * n + 50) / 100
}

/// Where the `i`-th band of `n` queries starts.
pub open spec fn band_start(i: int, n: nat) -> int {
    band_place(band_edge(i - 1), n) as int
}

/// The bands are labelled by the percentiles at their upper edges, which are these five, and a
/// band reaches as many of `n` queries as its percentile says, to the nearest whole number.
#[verifier::rlimit(40)]
pub proof fn law_bands_reach_their_percentiles(i: int, n: nat)
    requires
        0 <= i < BAND_COUNT,
    ensures
        band_label(i) == "p"@ + crate::text::dec(band_edge(i)),
        seq![50nat, 90, 95, 99, 100][i] == band_edge(i),
        band_start(0, n) == 0,
        -50 <= 100 * band_start(i + 1, n) - band_edge(i) * n <= 50,
        band_start(BAND_COUNT as int, n) == n,
{
    reveal_strlit("p");
    reveal_strlit("p50");
    reveal_strlit("p90");
    reveal_strlit("p95");
    reveal_strlit("p99");
    reveal_strlit("p100");
    reveal_with_fuel(crate::text::dec, 4);
    assert("p"@ + crate::text::dec(50) =~= "p50"@);
    assert("p"@ + crate::text::dec(90) =~= "p90"@);
    assert("p"@ + crate::text::dec(95) =~= "p95"@);
    assert("p"@ + crate::text::dec(99) =~= "p99"@);
    assert("p"@ + crate::text::dec(100) =~= "p100"@);
    let x = band_edge(i) * n;
    assert(band_start(i + 1, n) == (x + 50) / 100);
    lemma_band_places(n);
}

/// A band of queries, with texts and numbers as mathematics.
pub struct BucketView {
    pub label: Seq<char>,
    pub edge_ns: u64,
    pub members: Seq<usize>,
}

/// The queries whose latency fell in one percentile band. Reveals whether the slowest queries
/// also recall worse.
pub struct LatencyBucket {
    /// Upper edge of the band, e.g. "p95".
    pub label: &'static str,
    /// Latency at the upper edge of this band.
    pub edge_ns: u64,
    /// The queries in the band, by their numbers, fastest first.
    pub members: Vec<usize>,
}

impl View for LatencyBucket {
    type V = BucketView;

    open spec fn view(&self) -> BucketView {
        BucketView { label: self.label@, edge_ns: self.edge_ns, members: self.members@ }
    }
}

/// The views of a list of bands.
pub open spec fn bucket_views(list: Seq<LatencyBucket>) -> Seq<BucketView> {
    list.map_values(|b: LatencyBucket| b@)
}

/// The queries of a stretch of the order.
pub open spec fn query_numbers(order: Seq<(u64, usize)>) -> Seq<usize> {
    order.map_values(|x: (u64, usize)| x.1)
}

/// The stretch of the order that the `i`-th band takes.
pub open spec fn band_of(order: Seq<(u64, usize)>, i: int) -> Seq<(u64, usize)> {
    order.subrange(band_start(i, order.len()), band_start(i + 1, order.len()))
}

/// The first `n` bands, without the empty ones.
pub open spec fn filled_bands(order: Seq<(u64, usize)>, n: nat) -> Seq<BucketView>
    decreases n,
{
    if n == 0 {
        Seq::empty()
    } else {
        let front = filled_bands(order, (n - 1) as nat);
        let band = band_of(order, n - 1);
        if band.len() == 0 {
            front
        } else {
            front.push(
                BucketView {
                    label: band_label(n - 1),
                    edge_ns: band.last().0,
                    members: query_numbers(band),
                },
            )
        }
    }
}

proof fn lemma_band_places(n: nat)
    ensures
        band_place(0, n) == 0,
        band_place(100, n) == n,
        forall|i: int|
            0 <= i <= BAND_COUNT ==> 0 <= #[trigger] band_start(i, n) <= band_start(i + 1, n) <= n,
{
    assert forall|i: int| 0 <= i <= BAND_COUNT implies 0 <= #[trigger] band_start(i, n)
        <= band_start(i + 1, n) <= n by {
        let p = band_edge(i - 1);
        let q = band_edge(i);
        assert(p * n <= q * n <= 100 * n) by (nonlinear_arith)
            requires
                0 <= p <= q <= 100,
                n >= 0,
        ;
    }
}

/// The percentile and the label of the `i`-th band.
fn band(i: usize) -> (res: (&'static str, u8))
    requires
        i < BAND_COUNT,
    ensures
        res.0@ == band_label(i as int),
        res.1 == band_edge(i as int),
        res.1 <= 100,
{
    if i == 0 {
        ("p50", 50)
    } else if i == 1 {
        ("p90", 90)
    } else if i == 2 {
        ("p95", 95)
    } else if i == 3 {
        ("p99", 99)
    } else {
        ("p100", 100)
    }
}

/// Partition queries into latency percentile bands: `latencies[i]` is that of query `i`. Empty
/// bands are omitted.
pub fn latency_buckets(latencies: &[u64]) -> (res: Vec<LatencyBucket>)
    ensures
        bucket_views(res@) == filled_bands(by_latency(latencies@), BAND_COUNT as nat),
{
    let order = order_by_latency(latencies);
    let n: usize = order.len();
    let mut buckets: Vec<LatencyBucket> = Vec::new();
    let mut start: usize = 0;
    proof {
        lemma_band_places(n as nat);
        assert(bucket_views(buckets@) =~= filled_bands(order@, 0));
    }
    for i in 0..BAND_COUNT
        invariant
            n == order@.len(),
            start == band_start(i as int, n as nat),
            bucket_views(buckets@) == filled_bands(order@, i as nat),
    {
        let (label, p) = band(i);
        proof {
            lemma_band_places(n as nat);
            assert(band_start(i + 1, n as nat) <= n);
            assert(p * n <= 100 * n) by (nonlinear_arith)
                requires
                    p <= 100,
                    n >= 0,
            ;
            assert(p * n >= 0) by (nonlinear_arith)
                requires
                    p >= 0,
                    n >= 0,
            ;
        }
        let end: usize = ((p as u128 * n as u128 + 50) / 100) as usize;
        let ghost before = bucket_views(buckets@);
        let ghost stretch = band_of(order@, i as int);
        assert(end == band_start(i + 1, n as nat));
        if start < end {
            let mut members: Vec<usize> = Vec::new();
            for j in start..end
                invariant
                    start <= end <= order@.len(),
                    members@ == query_numbers(order@.subrange(start as int, j as int)),
            {
                members.push(order[j].1);
                assert(members@ =~= query_numbers(order@.subrange(start as int, j + 1)));
            }
            assert(stretch.last() == order@[end - 1]);
            buckets.push(LatencyBucket { label, edge_ns: order[end - 1].0, members });
            assert(bucket_views(buckets@) =~= before.push(buckets@.last()@));
        } else {
            assert(stretch.len() == 0);
        }
        start = end;
    }
    buckets
}

/// The members of all bands of a list, one after the other.
pub open spec fn all_members(list: Seq<BucketView>) -> Seq<usize>
    decreases list.len(),
{
    if list.len() == 0 {
        Seq::empty()
    } else {
        all_members(list.drop_last()) + list.last().members
    }
}

proof fn lemma_bands_cover(order: Seq<(u64, usize)>, n: nat)
    requires
        n <= BAND_COUNT,
    ensures
        all_members(filled_bands(order, n)) == query_numbers(
            order.take(band_start(n as int, order.len())),
        ),
    decreases n,
{
    lemma_band_places(order.len());
    let end = band_start(n as int, order.len());
    if n == 0 {
        assert(order.take(end) =~= Seq::empty());
        assert(all_members(filled_bands(order, n)) =~= query_numbers(order.take(end)));
    } else {
        lemma_bands_cover(order, (n - 1) as nat);
        let front = filled_bands(order, (n - 1) as nat);
        let whole = filled_bands(order, n);
        let start = band_start(n - 1, order.len());
        let stretch = band_of(order, n - 1);
        assert(start <= end <= order.len());
        assert(order.take(end) =~= order.take(start) + stretch);
        assert(query_numbers(order.take(end)) =~= query_numbers(order.take(start))
            + query_numbers(stretch));
        if stretch.len() == 0 {
            assert(query_numbers(stretch) =~= Seq::empty());
        } else {
            assert(whole.drop_last() =~= front);
        }
        assert(all_members(whole) =~= query_numbers(order.take(end)));
    }
}

/// The queries in ascending order of their latencies are all queries, each once.
proof fn lemma_by_latency_numbers(latencies: Seq<u64>)
    requires
        latencies.len() <= usize::MAX,
    ensures
        query_numbers(by_latency(latencies)).to_multiset() == Seq::new(
            latencies.len(),
            |i: int| i as usize,
        ).to_multiset(),
{
    let items = numbered(latencies);
    crate::order::law_in_order(items);
    lemma_numbers_keep_multiset(by_latency(latencies), items);
    assert(query_numbers(items) =~= Seq::new(latencies.len(), |i: int| i as usize));
}

/// Lists with the same items have the same query numbers.
proof fn lemma_numbers_keep_multiset(a: Seq<(u64, usize)>, b: Seq<(u64, usize)>)
    requires
        a.to_multiset() == b.to_multiset(),
    ensures
        query_numbers(a).to_multiset() == query_numbers(b).to_multiset(),
    decreases a.len(),
{
    broadcast use vstd::seq_lib::group_to_multiset_ensures;

    assert(a.len() == a.to_multiset().len() && b.len() == b.to_multiset().len());
    if a.len() == 0 {
        assert(a =~= b);
    } else {
        let x = a.last();
        assert(a.to_multiset().contains(x)) by {
            assert(a[a.len() - 1] == x);
            assert(a.contains(x));
        }
        assert(b.contains(x));
        let i = choose|i: int| 0 <= i < b.len() && b[i] == x;
        let rest = a.drop_last();
        let others = b.remove(i);
        assert(rest.push(x) =~= a);
        assert(rest.to_multiset() =~= a.to_multiset().remove(x));
        assert(others.to_multiset() =~= b.to_multiset().remove(x));
        lemma_numbers_keep_multiset(rest, others);
        assert(query_numbers(a) =~= query_numbers(rest).push(x.1));
        assert(query_numbers(others) =~= query_numbers(b).remove(i));
        assert(query_numbers(b)[i] == x.1);
        let m = query_numbers(b).to_multiset();
        assert(query_numbers(b).contains(x.1));
        assert(query_numbers(others).to_multiset() =~= m.remove(x.1));
        assert(m.remove(x.1).insert(x.1) =~= m);
    }
}

/// The bands partition the queries: together they hold every query exactly once, the faster
/// ones first.
pub proof fn law_bands_partition(latencies: Seq<u64>)
    requires
        latencies.len() <= usize::MAX,
    ensures
        all_members(filled_bands(by_latency(latencies), BAND_COUNT as nat)) == query_numbers(
            by_latency(latencies),
        ),
        query_numbers(by_latency(latencies)).to_multiset() == Seq::new(
            latencies.len(),
            |i: int| i as usize,
        ).to_multiset(),
        crate::order::ascends(by_latency(latencies)),
{
    let order = by_latency(latencies);
    lemma_bands_cover(order, BAND_COUNT as nat);
    lemma_band_places(order.len());
    assert(order.take(order.len() as int) =~= order);
    lemma_by_latency_numbers(latencies);
    crate::order::law_in_order(numbered(latencies));
}

/// The band labelled `a` lies before the band labelled `b`.
pub open spec fn label_before(a: Seq<char>, b: Seq<char>) -> bool {
    exists|p: int, q: int|
        0 <= p < q < BAND_COUNT && a == #[trigger] band_label(p) && b == #[trigger] band_label(q)
}

/// What is shown of the first `n` bands, and where each band of the list comes from.
proof fn lemma_filled_bands(order: Seq<(u64, usize)>, n: nat)
    requires
        n <= BAND_COUNT,
        crate::order::ascends(order),
    ensures
        ({
            let list = filled_bands(order, n);
            let end = band_start(n as int, order.len());
            &&& forall|i: int| 0 <= i < list.len() ==> (#[trigger] list[i]).members.len() > 0
            &&& forall|i: int|
                0 <= i < list.len() ==> exists|p: int|
                    0 <= p < n && (#[trigger] list[i]).label == #[trigger] band_label(p)
            &&& forall|i: int, j: int|
                0 <= i < j < list.len() ==> label_before(
                    (#[trigger] list[i]).label,
                    (#[trigger] list[j]).label,
                )
            &&& forall|i: int, j: int|
                0 <= i < j < list.len() ==> (#[trigger] list[i]).edge_ns <= (
                #[trigger] list[j]).edge_ns
            &&& end > 0 ==> list.len() > 0 && list.last().edge_ns == order[end - 1].0
            &&& end == 0 ==> list.len() == 0
        }),
    decreases n,
{
    lemma_band_places(order.len());
    if n > 0 {
        let m = (n - 1) as nat;
        lemma_filled_bands(order, m);
        let front = filled_bands(order, m);
        let list = filled_bands(order, n);
        let start = band_start(m as int, order.len());
        let end = band_start(n as int, order.len());
        let stretch = band_of(order, m as int);
        assert(start <= end <= order.len());
        if stretch.len() > 0 {
            let new = list.last();
            assert(list =~= front.push(new));
            assert(stretch.last() == order[end - 1]);
            assert(new.label == band_label(m as int));
            assert forall|i: int| 0 <= i < front.len() implies label_before(
                (#[trigger] list[i]).label,
                new.label,
            ) && list[i].edge_ns <= new.edge_ns by {
                assert(list[i] == front[i]);
                let p = choose|p: int| 0 <= p < m && front[i].label == #[trigger] band_label(p);
                assert(front[i].label == band_label(p) && new.label == band_label(m as int));
                assert(front[i].edge_ns <= front.last().edge_ns) by {
                    if i < front.len() - 1 {
                        assert(front[i].edge_ns <= front[front.len() - 1].edge_ns);
                    }
                }
                assert(order[start - 1].0 <= order[end - 1].0);
            }
            assert forall|i: int| 0 <= i < list.len() implies exists|p: int|
                0 <= p < n && (#[trigger] list[i]).label == #[trigger] band_label(p) by {
                if i < front.len() {
                    assert(list[i] == front[i]);
                    let p = choose|p: int| 0 <= p < m && front[i].label == #[trigger] band_label(p);
                    assert(list[i].label == band_label(p));
                } else {
                    assert(list[i].label == band_label(m as int));
                }
            }
            assert forall|i: int, j: int| 0 <= i < j < list.len() implies label_before(
                (#[trigger] list[i]).label,
                (#[trigger] list[j]).label,
            ) && list[i].edge_ns <= list[j].edge_ns by {
                if j < front.len() {
                    assert(list[i] == front[i] && list[j] == front[j]);
                }
            }
        } else {
            assert(start == end);
            assert forall|i: int| 0 <= i < list.len() implies exists|p: int|
                0 <= p < n && (#[trigger] list[i]).label == #[trigger] band_label(p) by {
                let p = choose|p: int| 0 <= p < m && front[i].label == #[trigger] band_label(p);
                assert(list[i].label == band_label(p));
            }
        }
    }
}

/// The bands that are shown are not empty, their labels keep the order of the bands, their upper
/// edges never decrease, and the last one is the greatest latency of all.
pub proof fn law_bands_ascend(latencies: Seq<u64>)
    requires
        latencies.len() <= usize::MAX,
    ensures
        ({
            let list = filled_bands(by_latency(latencies), BAND_COUNT as nat);
            &&& forall|i: int| 0 <= i < list.len() ==> (#[trigger] list[i]).members.len() > 0
            &&& forall|i: int|
                0 <= i < list.len() ==> exists|p: int|
                    0 <= p < BAND_COUNT && (#[trigger] list[i]).label == #[trigger] band_label(p)
            &&& forall|i: int, j: int|
                0 <= i < j < list.len() ==> label_before(
                    (#[trigger] list[i]).label,
                    (#[trigger] list[j]).label,
                )
            &&& forall|i: int, j: int|
                0 <= i < j < list.len() ==> (#[trigger] list[i]).edge_ns <= (
                #[trigger] list[j]).edge_ns
            &&& latencies.len() > 0 ==> {
                &&& list.len() > 0
                &&& latencies.contains(list.last().edge_ns)
                &&& forall|i: int|
                    0 <= i < latencies.len() ==> #[trigger] latencies[i] <= list.last().edge_ns
            }
        }),
{
    broadcast use vstd::seq_lib::group_to_multiset_ensures;

    let items = numbered(latencies);
    let order = by_latency(latencies);
    crate::order::law_in_order(items);
    lemma_filled_bands(order, BAND_COUNT as nat);
    lemma_band_places(order.len());
    assert(items.len() == items.to_multiset().len());
    assert(order.len() == order.to_multiset().len());
    if latencies.len() > 0 {
        let last = order[order.len() - 1];
        assert(order.contains(last));
        assert(order.to_multiset().contains(last));
        assert(items.contains(last));
        let m = choose|m: int| 0 <= m < items.len() && items[m] == last;
        assert(latencies[m] == last.0);
        assert forall|i: int| 0 <= i < latencies.len() implies #[trigger] latencies[i]
            <= last.0 by {
            let item = items[i];
            assert(items.contains(item));
            assert(items.to_multiset().contains(item));
            assert(order.contains(item));
            let k = choose|k: int| 0 <= k < order.len() && order[k] == item;
            assert(order[k].0 <= last.0);
        }
    }
}

proof fn lemma_bucket_edges(order: Seq<(u64, usize)>, latencies: Seq<u64>, n: nat)
    requires
        n <= BAND_COUNT,
        crate::order::ascends(order),
        forall|j: int|
            0 <= j < order.len() ==> (#[trigger] order[j]).1 < latencies.len()
                && latencies[order[j].1 as int] == order[j].0,
    ensures
        forall|i: int|
            0 <= i < filled_bands(order, n).len() ==> edge_is_slowest(
                #[trigger] filled_bands(order, n)[i],
                latencies,
            ),
    decreases n,
{
    lemma_band_places(order.len());
    if n > 0 {
        let front = filled_bands(order, (n - 1) as nat);
        let list = filled_bands(order, n);
        let band = band_of(order, n - 1);
        lemma_bucket_edges(order, latencies, (n - 1) as nat);
        let start = band_start(n - 1, order.len());
        let end = band_start(n as int, order.len());
        assert(0 <= start <= end <= order.len());
        if band.len() > 0 {
            let new = list.last();
            let last = band.len() - 1;
            assert(band[last] == order[start + last]);
            assert(new.members[last] == band[last].1);
            assert(latencies[new.members[last] as int] == new.edge_ns);
            assert forall|m: int| 0 <= m < new.members.len() implies (#[trigger] new.members[m])
                < latencies.len() && latencies[new.members[m] as int] <= new.edge_ns by {
                assert(new.members[m] == band[m].1);
                assert(band[m] == order[start + m]);
                assert(order[start + m].0 <= order[start + last].0);
            }
            assert(edge_is_slowest(new, latencies));
            assert forall|i: int| 0 <= i < list.len() implies edge_is_slowest(
                #[trigger] list[i],
                latencies,
            ) by {
                if i < front.len() {
                    assert(list[i] == front[i]);
                }
            }
        }
    }
}

/// No query of the band is slower than its edge, and one is as slow.
pub open spec fn edge_is_slowest(band: BucketView, latencies: Seq<u64>) -> bool {
    &&& forall|m: int|
        0 <= m < band.members.len() ==> (#[trigger] band.members[m]) < latencies.len()
            && latencies[band.members[m] as int] <= band.edge_ns
    &&& exists|m: int|
        0 <= m < band.members.len() && latencies[(#[trigger] band.members[m]) as int]
            == band.edge_ns
}

/// The edge of a band is the latency of its slowest query.
pub proof fn law_band_edges(latencies: Seq<u64>, i: int)
    requires
        latencies.len() <= usize::MAX,
        0 <= i < filled_bands(by_latency(latencies), BAND_COUNT as nat).len(),
    ensures
        edge_is_slowest(filled_bands(by_latency(latencies), BAND_COUNT as nat)[i], latencies),
{
    broadcast use vstd::seq_lib::group_to_multiset_ensures;

    let items = numbered(latencies);
    let order = by_latency(latencies);
    crate::order::law_in_order(items);
    assert forall|j: int| 0 <= j < order.len() implies (#[trigger] order[j]).1 < latencies.len()
        && latencies[order[j].1 as int] == order[j].0 by {
        assert(order.contains(order[j]));
        assert(order.to_multiset().contains(order[j]));
        assert(items.contains(order[j]));
        let m = choose|m: int| 0 <= m < items.len() && items[m] == order[j];
        assert(order[j] == (latencies[m], m as usize));
    }
    lemma_bucket_edges(order, latencies, BAND_COUNT as nat);
}

/// What the queries of a band measured at the `k`-th cutoff, of all that was measured.
pub fn band_values<R: Copy>(members: &Vec<usize>, per_query: &Vec<Vec<R>>, k: usize) -> (res: Vec<
    R,
>)
    requires
        forall|i: int|
            0 <= i < members@.len() ==> (#[trigger] members@[i]) < per_query@.len() && k
                < per_query@[members@[i] as int]@.len(),
    ensures
        res@ == members@.map_values(|m: usize| per_query@[m as int]@[k as int]),
{
    let mut out: Vec<R> = Vec::new();
    for i in 0..members.len()
        invariant
            forall|j: int|
                0 <= j < members@.len() ==> (#[trigger] members@[j]) < per_query@.len() && k
                    < per_query@[members@[j] as int]@.len(),
            out@.len() == i,
            forall|j: int|
                0 <= j < i ==> out@[j] == per_query@[members@[j] as int]@[k as int],
    {
        assert(members@[i as int] < per_query@.len());
        out.push(per_query[members[i]][k]);
    }
    assert(out@ =~= members@.map_values(|m: usize| per_query@[m as int]@[k as int]));
    out
}

/// The values that are there, in their order.
pub open spec fn present<S>(values: Seq<Option<S>>) -> Seq<S>
    decreases values.len(),
{
    if values.len() == 0 {
        Seq::empty()
    } else {
        match values.last() {
            Some(x) => present(values.drop_last()).push(x),
            None => present(values.drop_last()),
        }
    }
}

/// What is there is kept, in its order, and nothing else: a value that is missing makes no
/// difference.
pub proof fn law_present<S>(a: Seq<Option<S>>, b: Seq<Option<S>>, x: S)
    ensures
        present(seq![Some(x)]) == seq![x],
        present(seq![None::<S>]) == Seq::<S>::empty(),
        present(a + b) == present(a) + present(b),
    decreases b.len(),
{
    assert(seq![Some(x)].drop_last() =~= Seq::empty());
    assert(seq![None::<S>].drop_last() =~= Seq::empty());
    assert(present(Seq::<Option<S>>::empty()) =~= Seq::empty());
    assert(present(seq![Some(x)]) =~= seq![x]);
    if b.len() == 0 {
        assert(a + b =~= a);
        assert(present(a) + present(b) =~= present(a));
    } else {
        law_present(a, b.drop_last(), x);
        assert((a + b).drop_last() =~= a + b.drop_last());
        assert(present(a + b) =~= present(a) + present(b));
    }
}

/// The values to average: those that are there; `None` where none is.
pub fn scored<S: Copy>(values: &[Option<S>]) -> (res: Option<Vec<S>>)
    ensures
        match res {
            Some(list) => list@ == present(values@) && list@.len() > 0,
            None => present(values@).len() == 0,
        },
{
    let mut out: Vec<S> = Vec::new();
    for i in 0..values.len()
        invariant
            out@ == present(values@.take(i as int)),
    {
        assert(values@.take(i + 1).drop_last() =~= values@.take(i as int));
        if let Some(x) = values[i] {
            out.push(x);
        }
    }
    assert(values@.take(values@.len() as int) =~= values@);
    if out.len() == 0 {
        None
    } else {
        Some(out)
    }
}

// ---------------------------------------------------------------------------
// Recalls against a target
// ---------------------------------------------------------------------------

/// The number that a text writes in decimal; zero where it writes none.
pub open spec fn number(text: Seq<char>) -> crate::decimal::DecimalView {
    match crate::decimal::read_decimal(text) {
        Some(d) => d,
        None => crate::decimal::DecimalView { negative: false, digits: seq!['0'], exponent: 0 },
    }
}

/// The number that a text writes in decimal; zero where it writes none.
fn read_number(text: &str) -> (res: Decimal)
    ensures
        res@ == number(text@),
        res.wf(),
{
    match parse_decimal(text) {
        Some(d) => d,
        None => {
            let zero = Decimal { negative: false, digits: vec!['0'], exponent: 0 };
            assert(zero@.digits =~= seq!['0']);
            zero
        },
    }
}

/// A recall, in decimal, falls short of `target`: as doubles, it is less than the target less
/// 1e-9.
pub open spec fn falls_short(recall: Seq<char>, target: Seq<char>) -> bool {
    crate::decimal::read_double(recall) matches Some(r) && crate::decimal::read_double(target)
        matches Some(t) && !crate::double::reaches(r, t)
}

/// The number of recalls, given in decimal, that fall short of `target`.
pub open spec fn below(recalls: Seq<Seq<char>>, target: Seq<char>) -> nat
    decreases recalls.len(),
{
    if recalls.len() == 0 {
        0
    } else {
        below(recalls.drop_last(), target) + (if falls_short(recalls.last(), target) {
            1nat
        } else {
            0
        })
    }
}

/// Each recall that falls short counts once; of two numbers the one falls short of the other
/// exactly where, as an operating point, it would not reach it.
pub proof fn law_counting_short_recalls(
    a: Seq<Seq<char>>,
    b: Seq<Seq<char>>,
    recall: Seq<char>,
    target: Seq<char>,
)
    ensures
        below(seq![recall], target) == (if falls_short(recall, target) {
            1nat
        } else {
            0
        }),
        below(a + b, target) == below(a, target) + below(b, target),
        below(a, target) <= a.len(),
        crate::decimal::read_double(recall) is Some ==> (crate::decimal::read_double(
            target,
        ) matches Some(t) ==> (falls_short(recall, target) <==> !crate::autotune::reaches(
            Some(recall),
            t,
        ))),
    decreases a.len() + b.len(),
{
    assert(seq![recall].drop_last() =~= Seq::empty());
    assert(below(Seq::empty(), target) == 0);
    if a.len() > 0 {
        law_counting_short_recalls(a.drop_last(), Seq::empty(), recall, target);
    }
    if b.len() == 0 {
        assert(a + b =~= a);
    } else {
        law_counting_short_recalls(a, b.drop_last(), recall, target);
        assert((a + b).drop_last() =~= a + b.drop_last());
    }
}

/// Nothing falls short of what is no number.
proof fn lemma_nothing_below(recalls: Seq<Seq<char>>, target: Seq<char>)
    requires
        crate::decimal::read_double(target) is None,
    ensures
        below(recalls, target) == 0,
    decreases recalls.len(),
{
    if recalls.len() > 0 {
        lemma_nothing_below(recalls.drop_last(), target);
    }
}

/// The number of recalls, given in decimal, that fall short of `target`.
pub fn count_below(recalls: &Vec<String>, target: &str) -> (res: usize)
    ensures
        res == below(crate::text::texts(recalls@), target@),
        res <= recalls@.len(),
{
    let ghost all = crate::text::texts(recalls@);
    let wanted = match parse_double(target) {
        Some(wanted) => wanted,
        None => {
            proof {
                lemma_nothing_below(all, target@);
            }
            return 0;
        },
    };
    let limit = reach_limit(&wanted);
    let mut n: usize = 0;
    for i in 0..recalls.len()
        invariant
            all == crate::text::texts(recalls@),
            crate::decimal::read_double(target@) == Some(wanted@),
            limit.wf(),
            forall|d: crate::decimal::DecimalView| #[trigger]
                limit.met_by(d) == crate::double::reaches(d, wanted@),
            n == below(all.take(i as int), target@),
            n <= i,
    {
        assert(all.take(i + 1).drop_last() =~= all.take(i as int));
        assert(all.take(i + 1).last() == recalls@[i as int]@);
        if let Some(recall) = parse_double(recalls[i].as_str()) {
            if !limit.is_met_by(&recall) {
                n += 1;
            }
        }
    }
    assert(all.take(recalls@.len() as int) =~= all);
    n
}

/// The position of the first of the least recalls, given in decimal.
pub fn least_at(recalls: &Vec<String>) -> (res: usize)
    requires
        recalls@.len() > 0,
    ensures
        res < recalls@.len(),
        forall|i: int|
            0 <= i < recalls@.len() ==> crate::decimal::at_most(
                number(recalls@[res as int]@),
                number((#[trigger] recalls@[i])@),
            ),
        forall|i: int|
            0 <= i < res ==> !crate::decimal::at_most(
                number((#[trigger] recalls@[i])@),
                number(recalls@[res as int]@),
            ),
{
    let mut at: usize = 0;
    let mut least = read_number(recalls[0].as_str());
    proof {
        crate::decimal::lemma_at_most_total(least@, least@);
    }
    for i in 1..recalls.len()
        invariant
            at < i,
            i <= recalls@.len(),
            least@ == number(recalls@[at as int]@),
            least.wf(),
            forall|k: int|
                0 <= k < i ==> crate::decimal::at_most(least@, number((#[trigger] recalls@[k])@)),
            forall|k: int|
                0 <= k < at ==> !crate::decimal::at_most(number((#[trigger] recalls@[k])@), least@),
    {
        let recall = read_number(recalls[i].as_str());
        if !least.is_at_most(&recall) {
            proof {
                crate::decimal::lemma_at_most_total(least@, recall@);
                crate::decimal::lemma_at_most_total(recall@, recall@);
                assert forall|k: int| 0 <= k < i + 1 implies crate::decimal::at_most(
                    recall@,
                    number((#[trigger] recalls@[k])@),
                ) by {
                    if k < i {
                        crate::decimal::lemma_at_most_transitive(
                            recall@,
                            least@,
                            number(recalls@[k]@),
                        );
                    }
                }
                assert forall|k: int| 0 <= k < i implies !crate::decimal::at_most(
                    number((#[trigger] recalls@[k])@),
                    recall@,
                ) by {
                    if crate::decimal::at_most(number(recalls@[k]@), recall@) {
                        crate::decimal::lemma_at_most_transitive(
                            least@,
                            number(recalls@[k]@),
                            recall@,
                        );
                    }
                }
            }
            at = i;
            least = recall;
        }
    }
    at
}

} // verus!
