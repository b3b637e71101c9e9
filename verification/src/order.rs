//! Putting verdicts that arrived in the order of completion back into the
//! order in which their fixtures were loaded.

use crate::evaluator::{Verdict, VerdictView};
use vstd::prelude::*;

verus! {

/// The first place in `sorted` whose load index is not below `index`, or
/// the length of `sorted` if there is none.
pub open spec fn slot<V>(sorted: Seq<(usize, V)>, index: usize) -> int
    decreases sorted.len(),
{
    if sorted.len() == 0 || sorted[0].0 >= index {
        0
    } else {
        1 + slot(sorted.skip(1), index)
    }
}

/// The items by ascending load index; items of one index keep the order
/// in which they came.
pub open spec fn in_load_order<V>(items: Seq<(usize, V)>) -> Seq<(usize, V)>
    decreases items.len(),
{
    if items.len() == 0 {
        items
    } else {
        let rest = in_load_order(items.skip(1));
        rest.insert(slot(rest, items[0].0), items[0])
    }
}

/// Whether the load indices never fall from one item to the next.
pub open spec fn ascending<V>(items: Seq<(usize, V)>) -> bool {
    forall|i: int, j: int| 0 <= i < j < items.len() ==> items[i].0 <= items[j].0
}

/// A slot lies within the sequence or at its end; in an ascending sequence
/// everything before it has a lower index and everything from it on has
/// none lower.
pub proof fn lemma_slot<V>(sorted: Seq<(usize, V)>, index: usize)
    ensures
        0 <= slot(sorted, index) <= sorted.len(),
        forall|j: int| 0 <= j < slot(sorted, index) ==> (#[trigger] sorted[j]).0 < index,
        ascending(sorted) ==> forall|j: int|
            slot(sorted, index) <= j < sorted.len() ==> (#[trigger] sorted[j]).0 >= index,
    decreases sorted.len(),
{
    if !(sorted.len() == 0 || sorted[0].0 >= index) {
        let rest = sorted.skip(1);
        lemma_slot(rest, index);
        assert forall|j: int| 0 <= j < slot(sorted, index) implies (#[trigger] sorted[j]).0
            < index by {
            if j > 0 {
                assert(rest[j - 1] == sorted[j]);
            }
        }
        if ascending(sorted) {
            assert forall|i: int, j: int| 0 <= i < j < rest.len() implies rest[i].0
                <= rest[j].0 by {
                assert(rest[i] == sorted[i + 1] && rest[j] == sorted[j + 1]);
            }
            assert forall|j: int| slot(sorted, index) <= j < sorted.len() implies (
            #[trigger] sorted[j]).0 >= index by {
                assert(rest[j - 1] == sorted[j]);
            }
        }
    }
}

/// The result is in ascending order of load index and holds the items that
/// were given, each as often as it was given.
pub proof fn lemma_in_load_order<V>(items: Seq<(usize, V)>)
    ensures
        ascending(in_load_order(items)),
        in_load_order(items).len() == items.len(),
        in_load_order(items).to_multiset() == items.to_multiset(),
    decreases items.len(),
{
    broadcast use vstd::seq_lib::to_multiset_insert;

    if items.len() > 0 {
        let tail = items.skip(1);
        let rest = in_load_order(tail);
        let item = items[0];
        let k = slot(rest, item.0);
        lemma_in_load_order(tail);
        lemma_slot(rest, item.0);
        let r = rest.insert(k, item);
        rest.insert_ensures(k, item);
        assert forall|i: int, j: int| 0 <= i < j < r.len() implies r[i].0 <= r[j].0 by {
            if i < k {
                assert(r[i] == rest[i]);
            } else if i > k {
                assert(r[i] == rest[i - 1]);
            }
            if j < k {
                assert(r[j] == rest[j]);
            } else if j > k {
                assert(r[j] == rest[j - 1]);
            }
        }
        assert(items == seq![item] + tail);
        assert(items.to_multiset() == tail.to_multiset().insert(item)) by {
            assert(items == tail.insert(0, item));
        }
    }
}

/// Where every load index occurs once, the result is the one ascending
/// arrangement: whatever the order of completion was, it is the same.
pub proof fn lemma_load_order_ignores_completion_order<V>(a: Seq<(usize, V)>, b: Seq<(usize, V)>)
    requires
        a.to_multiset() == b.to_multiset(),
        forall|i: int, j: int| 0 <= i < j < a.len() ==> a[i].0 != a[j].0,
    ensures
        in_load_order(a) == in_load_order(b),
{
    broadcast use vstd::seq_lib::to_multiset_len, vstd::seq_lib::to_multiset_contains;

    let x = in_load_order(a);
    let y = in_load_order(b);
    lemma_in_load_order(a);
    lemma_in_load_order(b);
    assert(x.len() == y.len()) by {
        assert(a.to_multiset().len() == a.len());
        assert(b.to_multiset().len() == b.len());
    }
    // Each index occurs at most once among the items of `a`, so also in `x` and `y`.
    assert forall|i: int, j: int| 0 <= i < j < x.len() implies x[i].0 < x[j].0 by {
        lemma_distinct_indices(a, x, i, j);
    }
    assert forall|i: int, j: int| 0 <= i < j < y.len() implies y[i].0 < y[j].0 by {
        lemma_distinct_indices(a, y, i, j);
    }
    lemma_strictly_ascending_equal(x, y);
}

/// In an ascending arrangement of items whose indices are distinct, the
/// indices rise strictly.
proof fn lemma_distinct_indices<V>(a: Seq<(usize, V)>, x: Seq<(usize, V)>, i: int, j: int)
    requires
        x.to_multiset() == a.to_multiset(),
        ascending(x),
        forall|p: int, q: int| 0 <= p < q < a.len() ==> a[p].0 != a[q].0,
        0 <= i < j < x.len(),
    ensures
        x[i].0 < x[j].0,
{
    broadcast use vstd::seq_lib::to_multiset_contains, vstd::seq_lib::to_multiset_len;

    if x[i].0 == x[j].0 {
        assert(x.contains(x[i]) && x.contains(x[j]));
        assert(x.to_multiset().count(x[i]) > 0 && x.to_multiset().count(x[j]) > 0);
        assert(a.to_multiset().count(x[i]) > 0 && a.to_multiset().count(x[j]) > 0);
        assert(a.contains(x[i]) && a.contains(x[j]));
        let p = choose|p: int| 0 <= p < a.len() && a[p] == x[i];
        let q = choose|q: int| 0 <= q < a.len() && a[q] == x[j];
        if p != q {
            if p < q {
                assert(a[p].0 != a[q].0);
            } else {
                assert(a[q].0 != a[p].0);
            }
        } else {
            // The same item stands at two places of `x`, so it occurs twice in `a` too.
            assert(x[i] == x[j]);
            lemma_twice_in_multiset(x, i, j);
            lemma_once_in_multiset(a, p);
        }
    }
}

/// An item that stands at two places occurs at least twice.
proof fn lemma_twice_in_multiset<T>(s: Seq<T>, i: int, j: int)
    requires
        0 <= i < j < s.len(),
        s[i] == s[j],
    ensures
        s.to_multiset().count(s[i]) >= 2,
{
    broadcast use vstd::seq_lib::to_multiset_remove, vstd::seq_lib::to_multiset_contains;

    let once = s.remove(j);
    assert(once[i] == s[i]);
    assert(once.contains(s[i]));
    assert(once.to_multiset().count(s[i]) >= 1);
    assert(once.to_multiset() == s.to_multiset().remove(s[j]));
}

/// An item whose index no other item shares occurs once.
proof fn lemma_once_in_multiset<V>(a: Seq<(usize, V)>, p: int)
    requires
        0 <= p < a.len(),
        forall|i: int, j: int| 0 <= i < j < a.len() ==> a[i].0 != a[j].0,
    ensures
        a.to_multiset().count(a[p]) == 1,
{
    broadcast use vstd::seq_lib::to_multiset_remove, vstd::seq_lib::to_multiset_contains;

    let without = a.remove(p);
    assert(without.to_multiset() == a.to_multiset().remove(a[p]));
    if without.to_multiset().count(a[p]) > 0 {
        assert(without.contains(a[p]));
        let k = choose|k: int| 0 <= k < without.len() && without[k] == a[p];
        if k < p {
            assert(without[k] == a[k]);
            assert(a[k].0 != a[p].0);
        } else {
            assert(without[k] == a[k + 1]);
            assert(a[p].0 != a[k + 1].0);
        }
    }
    assert(a.to_multiset().count(a[p]) >= 1) by {
        assert(a.contains(a[p]));
    }
}

/// Two strictly ascending sequences with the same items are equal.
proof fn lemma_strictly_ascending_equal<V>(x: Seq<(usize, V)>, y: Seq<(usize, V)>)
    requires
        x.to_multiset() == y.to_multiset(),
        x.len() == y.len(),
        forall|i: int, j: int| 0 <= i < j < x.len() ==> x[i].0 < x[j].0,
        forall|i: int, j: int| 0 <= i < j < y.len() ==> y[i].0 < y[j].0,
    ensures
        x == y,
    decreases x.len(),
{
    broadcast use vstd::seq_lib::to_multiset_contains, vstd::seq_lib::to_multiset_remove;

    if x.len() > 0 {
        let n = x.len() - 1;
        // The last item of each is the one with the greatest index, hence the same.
        assert(x.contains(x[n]) && y.contains(y[n]));
        assert(x.to_multiset().count(x[n]) > 0 && y.to_multiset().count(y[n]) > 0);
        assert(y.to_multiset().count(x[n]) > 0 && x.to_multiset().count(y[n]) > 0);
        assert(y.contains(x[n]) && x.contains(y[n]));
        let p = choose|p: int| 0 <= p < y.len() && y[p] == x[n];
        let q = choose|q: int| 0 <= q < x.len() && x[q] == y[n];
        if p < n {
            assert(y[p].0 < y[n].0);
            if q < n {
                assert(x[q].0 < x[n].0);
            }
        }
        assert(x[n] == y[n]);
        assert(x.remove(n) == x.drop_last());
        assert(y.remove(n) == y.drop_last());
        let xs = x.drop_last();
        let ys = y.drop_last();
        assert(xs.to_multiset() == ys.to_multiset());
        assert forall|i: int, j: int| 0 <= i < j < xs.len() implies xs[i].0 < xs[j].0 by {
            assert(xs[i] == x[i] && xs[j] == x[j]);
        }
        assert forall|i: int, j: int| 0 <= i < j < ys.len() implies ys[i].0 < ys[j].0 by {
            assert(ys[i] == y[i] && ys[j] == y[j]);
        }
        lemma_strictly_ascending_equal(xs, ys);
        assert(x == xs.push(x[n]));
        assert(y == ys.push(y[n]));
    } else {
        assert(x =~= y);
    }
}

/// The verdicts in the order in which their fixtures were loaded. Each
/// verdict comes with the load index of its fixture; the verdicts may be
/// given in any order, such as that in which the evaluations ended.
pub fn verdicts_in_load_order(completed: Vec<(usize, Verdict)>) -> (r: Vec<Verdict>)
    ensures
        r.deep_view() == in_load_order(completed.deep_view()).map_values(
            |item: (usize, VerdictView)| item.1,
        ),
{
    let ghost view = completed.deep_view();
    let mut pending = completed;
    let mut keys: Vec<usize> = Vec::new();
    let mut verdicts: Vec<Verdict> = Vec::new();
    assert(view.skip(view.len() as int) == Seq::<(usize, VerdictView)>::empty());
    loop
        invariant
            pending.len() <= view.len(),
            pending.deep_view() == view.take(pending.len() as int),
            keys.len() == verdicts.len(),
            keys.len() == in_load_order(view.skip(pending.len() as int)).len(),
            forall|i: int|
                0 <= i < keys.len() ==> (keys[i], verdicts[i]@) == #[trigger] in_load_order(
                    view.skip(pending.len() as int),
                )[i],
        ensures
            pending.len() == 0,
        decreases pending.len(),
    {
        let ghost n = pending.len() as int;
        let ghost sorted = in_load_order(view.skip(n));
        let ghost before = pending.deep_view();
        let (index, verdict) = match pending.pop() {
            Some(item) => item,
            None => {
                break ;
            },
        };
        let ghost item = (index, verdict@);
        proof {
            assert(before[n - 1] == view[n - 1]);
            assert(item == view[n - 1]);
            assert(pending.deep_view() == view.take(n - 1));
            assert(view.skip(n - 1)[0] == item);
            assert(view.skip(n - 1).skip(1) == view.skip(n));
            lemma_slot(sorted, index);
        }
        let mut place: usize = 0;
        assert(sorted.skip(0) == sorted);
        while place < keys.len() && keys[place] < index
            invariant
                place <= keys.len(),
                keys.len() == sorted.len(),
                forall|i: int| 0 <= i < keys.len() ==> keys[i] == (#[trigger] sorted[i]).0,
                slot(sorted, index) == place + slot(sorted.skip(place as int), index),
            decreases keys.len() - place,
        {
            assert(sorted.skip(place as int)[0] == sorted[place as int]);
            assert(sorted.skip(place as int).skip(1) == sorted.skip(place + 1));
            place = place + 1;
        }
        proof {
            if place < keys.len() {
                assert(sorted.skip(place as int)[0] == sorted[place as int]);
            }
            assert(place == slot(sorted, index));
        }
        let ghost old_keys = keys@;
        let ghost old_verdicts = verdicts@;
        keys.insert(place, index);
        verdicts.insert(place, verdict);
        proof {
            let grown = sorted.insert(place as int, item);
            assert(grown == in_load_order(view.skip(n - 1)));
            sorted.insert_ensures(place as int, item);
            old_keys.insert_ensures(place as int, index);
            old_verdicts.insert_ensures(place as int, verdict);
            assert forall|i: int| 0 <= i < keys.len() implies (keys[i], verdicts[i]@)
                == #[trigger] grown[i] by {
                if i < place {
                    assert(grown[i] == sorted[i]);
                } else if i > place {
                    assert(grown[i] == sorted[i - 1]);
                }
            }
        }
    }
    proof {
        assert(pending.len() == 0);
        assert(view.skip(0) == view);
        assert(verdicts.deep_view() =~= in_load_order(view).map_values(
            |item: (usize, VerdictView)| item.1,
        ));
    }
    verdicts
}

} // verus!
