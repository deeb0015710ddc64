//! Putting things in ascending order.

use vstd::prelude::*;

verus! {

// ---------------------------------------------------------------------------
// Stable sorting by a key
// ---------------------------------------------------------------------------

/// The items with `x` put behind the last one whose key is not greater.
pub open spec fn place<T>(items: Seq<(u64, T)>, x: (u64, T)) -> Seq<(u64, T)>
    decreases items.len(),
{
    if items.len() == 0 || items.last().0 <= x.0 {
        items.push(x)
    } else {
        place(items.drop_last(), x).push(items.last())
    }
}

/// The items in ascending order of their keys; items with one key keep their order.
pub open spec fn in_order<T>(items: Seq<(u64, T)>) -> Seq<(u64, T)>
    decreases items.len(),
{
    if items.len() == 0 {
        items
    } else {
        place(in_order(items.drop_last()), items.last())
    }
}

/// The keys ascend.
pub open spec fn ascends<T>(items: Seq<(u64, T)>) -> bool {
    forall|i: int, j: int|
        0 <= i <= j < items.len() ==> (#[trigger] items[i]).0 <= (#[trigger] items[j]).0
}

proof fn lemma_place_at<T>(items: Seq<(u64, T)>, x: (u64, T), at: int)
    requires
        0 <= at <= items.len(),
        at > 0 ==> items[at - 1].0 <= x.0,
        forall|i: int| at <= i < items.len() ==> (#[trigger] items[i]).0 > x.0,
    ensures
        place(items, x) == items.insert(at, x),
    decreases items.len(),
{
    if at == items.len() {
        assert(items.insert(at, x) =~= items.push(x));
    } else {
        lemma_place_at(items.drop_last(), x, at);
        assert(items.insert(at, x) =~= items.drop_last().insert(at, x).push(items.last()));
    }
}

/// Placing an item keeps the order, and adds that item and no other.
proof fn lemma_place<T>(items: Seq<(u64, T)>, x: (u64, T))
    requires
        ascends(items),
    ensures
        ascends(place(items, x)),
        place(items, x).to_multiset() == items.to_multiset().insert(x),
        place(items, x).len() == items.len() + 1,
        forall|i: int|
            0 <= i < items.len() + 1 ==> (#[trigger] place(items, x)[i]).0 <= x.0 || (
            items.len() > 0 && place(items, x)[i].0 <= items.last().0),
    decreases items.len(),
{
    broadcast use vstd::seq_lib::group_to_multiset_ensures;

    if items.len() == 0 || items.last().0 <= x.0 {
        assert forall|i: int, j: int| 0 <= i <= j < items.len() + 1 implies (
        #[trigger] items.push(x)[i]).0 <= (#[trigger] items.push(x)[j]).0 by {
            if j < items.len() {
                assert(items[i].0 <= items[j].0);
            } else if i < items.len() {
                assert(items[i].0 <= items[items.len() - 1].0);
            }
        }
    } else {
        let rest = items.drop_last();
        assert forall|i: int, j: int| 0 <= i <= j < rest.len() implies (#[trigger] rest[i]).0 <= (
        #[trigger] rest[j]).0 by {
            assert(items[i].0 <= items[j].0);
        }
        lemma_place(rest, x);
        let placed = place(rest, x);
        let after = placed.push(items.last());
        assert forall|i: int, j: int| 0 <= i <= j < after.len() implies (#[trigger] after[i]).0
            <= (#[trigger] after[j]).0 by {
            if j < placed.len() {
                assert(placed[i].0 <= placed[j].0);
            } else if i < placed.len() {
                assert(after[i] == placed[i]);
                if rest.len() > 0 {
                    assert(items[rest.len() - 1].0 <= items[items.len() - 1].0);
                }
            }
        }
        assert forall|i: int| 0 <= i < items.len() + 1 implies (#[trigger] after[i]).0 <= x.0 || (
        items.len() > 0 && after[i].0 <= items.last().0) by {
            assert(after[i].0 <= after[items.len() as int].0);
        }
        assert(rest.push(items.last()) =~= items);
        assert(items.to_multiset() =~= rest.to_multiset().insert(items.last()));
        assert(after.to_multiset() =~= items.to_multiset().insert(x));
    }
}

/// Sorting gives the same items, in ascending order of their keys.
pub proof fn law_in_order<T>(items: Seq<(u64, T)>)
    ensures
        ascends(in_order(items)),
        in_order(items).to_multiset() == items.to_multiset(),
        in_order(items).len() == items.len(),
    decreases items.len(),
{
    broadcast use vstd::seq_lib::group_to_multiset_ensures;

    if items.len() > 0 {
        let rest = items.drop_last();
        law_in_order(rest);
        lemma_place(in_order(rest), items.last());
        assert(rest.push(items.last()) =~= items);
    }
}

/// The items with the key `key`, in their order.
pub open spec fn with_key<T>(items: Seq<(u64, T)>, key: u64) -> Seq<(u64, T)>
    decreases items.len(),
{
    if items.len() == 0 {
        Seq::empty()
    } else if items.last().0 == key {
        with_key(items.drop_last(), key).push(items.last())
    } else {
        with_key(items.drop_last(), key)
    }
}

proof fn lemma_place_with_key<T>(items: Seq<(u64, T)>, x: (u64, T), key: u64)
    ensures
        with_key(place(items, x), key) == (if x.0 == key {
            with_key(items, key).push(x)
        } else {
            with_key(items, key)
        }),
    decreases items.len(),
{
    if items.len() == 0 || items.last().0 <= x.0 {
        assert(items.push(x).drop_last() =~= items);
    } else {
        let rest = items.drop_last();
        lemma_place_with_key(rest, x, key);
        assert(place(rest, x).push(items.last()).drop_last() =~= place(rest, x));
    }
}

/// Sorting keeps the order of items with one key.
pub proof fn law_in_order_is_stable<T>(items: Seq<(u64, T)>, key: u64)
    ensures
        with_key(in_order(items), key) == with_key(items, key),
    decreases items.len(),
{
    if items.len() > 0 {
        law_in_order_is_stable(items.drop_last(), key);
        lemma_place_with_key(in_order(items.drop_last()), items.last(), key);
    }
}

/// Items whose keys ascend already stay as they are.
pub proof fn law_in_order_keeps<T>(items: Seq<(u64, T)>)
    requires
        ascends(items),
    ensures
        in_order(items) == items,
    decreases items.len(),
{
    if items.len() > 0 {
        let rest = items.drop_last();
        assert forall|i: int, j: int| 0 <= i <= j < rest.len() implies (#[trigger] rest[i]).0 <= (
        #[trigger] rest[j]).0 by {
            assert(items[i].0 <= items[j].0);
        }
        law_in_order_keeps(rest);
        if rest.len() > 0 {
            assert(items[rest.len() - 1].0 <= items[items.len() - 1].0);
        }
        assert(rest.push(items.last()) =~= items);
    }
}

/// The items in ascending order of their keys; items with one key keep their order.
pub fn stable_sort<T>(items: Vec<(u64, T)>) -> (res: Vec<(u64, T)>)
    ensures
        res@ == in_order(items@),
{
    let mut out: Vec<(u64, T)> = Vec::new();
    for item in it: items
        invariant
            it.seq() == items@,
            out@ == in_order(it.seq().take(it.index() as int)),
    {
        let ghost before = out@;
        let mut at: usize = out.len();
        while at > 0 && out[at - 1].0 > item.0
            invariant
                at <= out@.len(),
                out@ == before,
                forall|i: int| at <= i < out@.len() ==> (#[trigger] out@[i]).0 > item.0,
            decreases at,
        {
            at -= 1;
        }
        proof {
            lemma_place_at(before, item, at as int);
            let k = it.index() as int;
            assert(it.seq().take(k + 1).drop_last() =~= it.seq().take(k));
            assert(it.seq().take(k + 1).last() == item);
        }
        out.insert(at, item);
    }
    assert(items@.take(items@.len() as int) =~= items@);
    out
}

// ---------------------------------------------------------------------------
// Ascending without repetition
// ---------------------------------------------------------------------------

/// `out` holds the numbers of `list`, each once, in ascending order.
pub open spec fn is_distinct_sorted(list: Seq<nat>, out: Seq<nat>) -> bool {
    &&& forall|i: int, j: int| 0 <= i < j < out.len() ==> #[trigger] out[i] < #[trigger] out[j]
    &&& forall|x: nat| #[trigger] out.contains(x) <==> list.contains(x)
}

/// At most one list holds given numbers, each once, in ascending order.
pub proof fn law_distinct_sorted_unique(list: Seq<nat>, a: Seq<nat>, b: Seq<nat>)
    requires
        is_distinct_sorted(list, a),
        is_distinct_sorted(list, b),
    ensures
        a == b,
    decreases a.len(),
{
    if a.len() == 0 {
        if b.len() > 0 {
            assert(b.contains(b[0]));
            assert(a.contains(b[0]));
        }
        assert(a =~= b);
    } else {
        assert(a.contains(a.last()));
        assert(b.contains(a.last()));
        let j = choose|j: int| 0 <= j < b.len() && b[j] == a.last();
        assert(b.contains(b.last()));
        assert(a.contains(b.last()));
        let i = choose|i: int| 0 <= i < a.len() && a[i] == b.last();
        if j < b.len() - 1 {
            assert(b[j] < b[b.len() - 1]);
            if i < a.len() - 1 {
                assert(a[i] < a[a.len() - 1]);
            }
        }
        assert(a.last() == b.last());
        let shorter = a.drop_last();
        assert forall|x: nat| #[trigger] shorter.contains(x) <==> b.drop_last().contains(x) by {
            if shorter.contains(x) {
                let k = choose|k: int| 0 <= k < shorter.len() && shorter[k] == x;
                assert(a[k] == x);
                assert(a.contains(x));
                assert(b.contains(x));
                let m = choose|m: int| 0 <= m < b.len() && b[m] == x;
                assert(a[k] < a[a.len() - 1]);
                assert(b.drop_last()[m] == x);
            }
            if b.drop_last().contains(x) {
                let m = choose|m: int| 0 <= m < b.len() - 1 && b.drop_last()[m] == x;
                assert(b[m] == x);
                assert(b.contains(x));
                assert(a.contains(x));
                let k = choose|k: int| 0 <= k < a.len() && a[k] == x;
                assert(b[m] < b[b.len() - 1]);
                assert(shorter[k] == x);
            }
        }
        assert(is_distinct_sorted(shorter, shorter));
        assert(is_distinct_sorted(shorter, b.drop_last()));
        law_distinct_sorted_unique(shorter, shorter, b.drop_last());
        assert(a =~= shorter.push(a.last()));
        assert(b =~= b.drop_last().push(b.last()));
    }
}

/// The numbers of `list`, each once, in ascending order.
pub fn distinct_sorted(list: &[u64]) -> (res: Vec<u64>)
    ensures
        is_distinct_sorted(crate::text::nats(list@), crate::text::nats(res@)),
        res@.len() == 0 <==> list@.len() == 0,
        forall|i: int| 0 <= i < res@.len() ==> list@.contains(#[trigger] res@[i]),
{
    let mut out: Vec<u64> = Vec::new();
    for n in 0..list.len()
        invariant
            forall|i: int, j: int| 0 <= i < j < out@.len() ==> out@[i] < out@[j],
            forall|x: u64| #[trigger] out@.contains(x) <==> list@.take(n as int).contains(x),
    {
        let x = list[n];
        let ghost before = out@;
        let ghost taken = list@.take(n as int);
        assert(list@.take(n + 1) =~= taken.push(x));
        let mut at: usize = 0;
        while at < out.len() && out[at] < x
            invariant
                at <= out@.len(),
                forall|i: int| 0 <= i < at ==> out@[i] < x,
            decreases out@.len() - at,
        {
            at += 1;
        }
        if at < out.len() && out[at] == x {
            assert forall|y: u64| #[trigger] out@.contains(y) <==> taken.push(x).contains(y) by {
                assert(out@[at as int] == x);
                if taken.push(x).contains(y) && y != x {
                    let k = choose|k: int| 0 <= k < taken.len() + 1 && taken.push(x)[k] == y;
                    assert(taken[k] == y);
                }
                if out@.contains(y) {
                    let k = choose|k: int| 0 <= k < taken.len() && taken[k] == y;
                    assert(taken.push(x)[k] == y);
                }
            }
        } else {
            out.insert(at, x);
            assert forall|y: u64| #[trigger] out@.contains(y) <==> taken.push(x).contains(y) by {
                if out@.contains(y) {
                    let k = choose|k: int| 0 <= k < out@.len() && out@[k] == y;
                    if k == at {
                        assert(taken.push(x)[taken.len() as int] == y);
                    } else {
                        if k < at {
                            assert(before[k] == y);
                        } else {
                            assert(before[k - 1] == y);
                        }
                        assert(before.contains(y));
                        let m = choose|m: int| 0 <= m < taken.len() && taken[m] == y;
                        assert(taken.push(x)[m] == y);
                    }
                }
                if taken.push(x).contains(y) {
                    let k = choose|k: int| 0 <= k < taken.len() + 1 && taken.push(x)[k] == y;
                    if k == taken.len() {
                        assert(out@[at as int] == y);
                    } else {
                        assert(taken[k] == y);
                        assert(before.contains(y));
                        let m = choose|m: int| 0 <= m < before.len() && before[m] == y;
                        if m < at {
                            assert(out@[m] == y);
                        } else {
                            assert(out@[m + 1] == y);
                        }
                    }
                }
            }
        }
    }
    proof {
        let wide = crate::text::nats(list@);
        let done = crate::text::nats(out@);
        assert(list@.take(list@.len() as int) =~= list@);
        assert forall|x: nat| #[trigger] done.contains(x) <==> wide.contains(x) by {
            if done.contains(x) {
                let k = choose|k: int| 0 <= k < done.len() && done[k] == x;
                assert(out@.contains(out@[k]));
                let m = choose|m: int| 0 <= m < list@.len() && list@[m] == out@[k];
                assert(wide[m] == x);
            }
            if wide.contains(x) {
                let k = choose|k: int| 0 <= k < wide.len() && wide[k] == x;
                assert(list@.contains(list@[k]));
                assert(out@.contains(list@[k]));
                let m = choose|m: int| 0 <= m < out@.len() && out@[m] == list@[k];
                assert(done[m] == x);
            }
        }
        assert forall|i: int| 0 <= i < out@.len() implies list@.contains(#[trigger] out@[i]) by {
            assert(out@.contains(out@[i]));
        }
        if list@.len() > 0 {
            assert(list@.contains(list@[0]));
            assert(out@.contains(list@[0]));
        }
        if out@.len() > 0 {
            assert(list@.contains(out@[0]));
        }
    }
    out
}

/// The numbers of `list`, each once, in ascending order.
pub fn distinct_sorted_usize(list: &[usize]) -> (res: Vec<usize>)
    ensures
        is_distinct_sorted(crate::text::usize_nats(list@), crate::text::usize_nats(res@)),
        res@.len() == 0 <==> list@.len() == 0,
{
    let mut wide: Vec<u64> = Vec::new();
    for i in 0..list.len()
        invariant
            wide@.len() == i,
            forall|k: int| 0 <= k < i ==> wide@[k] == list@[k],
    {
        wide.push(list[i] as u64);
    }
    assert(crate::text::nats(wide@) =~= crate::text::usize_nats(list@));
    let sorted = distinct_sorted(&wide);
    let mut out: Vec<usize> = Vec::new();
    for i in 0..sorted.len()
        invariant
            wide@.len() == list@.len(),
            forall|k: int| 0 <= k < wide@.len() ==> wide@[k] == list@[k],
            forall|k: int| 0 <= k < sorted@.len() ==> wide@.contains(#[trigger] sorted@[k]),
            out@.len() == i,
            forall|k: int| 0 <= k < i ==> out@[k] == sorted@[k],
    {
        proof {
            assert(wide@.contains(sorted@[i as int]));
            let k = choose|k: int| 0 <= k < wide@.len() && wide@[k] == sorted@[i as int];
            assert(sorted@[i as int] == list@[k]);
        }
        out.push(sorted[i] as usize);
    }
    assert(crate::text::usize_nats(out@) =~= crate::text::nats(sorted@));
    out
}

} // verus!
