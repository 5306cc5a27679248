//! Stable sorting, and what it means to be the result of one.
use vstd::prelude::*;

use crate::text::{at_most, law_text_order_total, law_text_order_transitive, text_le};

verus! {

/// `origin` lists the positions `0..len`, each of them once.
pub open spec fn is_reordering(origin: Seq<int>, len: nat) -> bool {
    &&& origin.len() == len
    &&& forall|i: int| 0 <= i < len ==> 0 <= #[trigger] origin[i] < len
    &&& forall|i: int, j: int| 0 <= i < j < len ==> #[trigger] origin[i] != #[trigger] origin[j]
    &&& forall|m: int| 0 <= m < len ==> #[trigger] origin.contains(m)
}

/// `after` is `before` in the order `le`, where `after[i]` comes from `before[origin[i]]` and
/// items that `le` does not tell apart keep the order that they had.
pub open spec fn sorts_by_origin<T>(
    le: spec_fn(T, T) -> bool,
    before: Seq<T>,
    after: Seq<T>,
    origin: Seq<int>,
) -> bool {
    &&& after.len() == before.len()
    &&& is_reordering(origin, before.len())
    &&& forall|i: int| 0 <= i < after.len() ==> #[trigger] after[i] == before[origin[i]]
    &&& forall|i: int, j: int|
        0 <= i < j < after.len() ==> le(#[trigger] after[i], #[trigger] after[j])
    &&& forall|i: int, j: int|
        0 <= i < j < after.len() && le(#[trigger] after[j], #[trigger] after[i]) ==> origin[i]
            < origin[j]
}

/// `after` holds the items of `before` in the order `le`; items that `le` does not tell apart
/// keep the order that they had.
pub open spec fn is_stable_sort<T>(
    le: spec_fn(T, T) -> bool,
    before: Seq<T>,
    after: Seq<T>,
) -> bool {
    exists|origin: Seq<int>| sorts_by_origin(le, before, after, origin)
}

/// Items in the order `le`.
pub open spec fn is_sorted<T>(le: spec_fn(T, T) -> bool, items: Seq<T>) -> bool {
    forall|i: int, j: int| 0 <= i < j < items.len() ==> le(#[trigger] items[i], #[trigger] items[j])
}

/// Sorting has one outcome: two stable sorts of the same items are the same sequence, whatever
/// the order is.
pub proof fn law_stable_sort_is_unique<T>(
    le: spec_fn(T, T) -> bool,
    before: Seq<T>,
    first: Seq<T>,
    second: Seq<T>,
)
    requires
        is_stable_sort(le, before, first),
        is_stable_sort(le, before, second),
    ensures
        first == second,
{
    let p = choose|origin: Seq<int>| sorts_by_origin(le, before, first, origin);
    let q = choose|origin: Seq<int>| sorts_by_origin(le, before, second, origin);
    assert forall|k: int| 0 <= k <= before.len() implies #[trigger] p.take(k) == q.take(k) by {
        lemma_same_origin(le, before, first, second, p, q, k);
    }
    assert(p.take(before.len() as int) == p);
    assert(q.take(before.len() as int) == q);
    assert(first =~= second);
}

proof fn lemma_same_origin<T>(
    le: spec_fn(T, T) -> bool,
    before: Seq<T>,
    first: Seq<T>,
    second: Seq<T>,
    p: Seq<int>,
    q: Seq<int>,
    k: int,
)
    requires
        sorts_by_origin(le, before, first, p),
        sorts_by_origin(le, before, second, q),
        0 <= k <= before.len(),
    ensures
        p.take(k) == q.take(k),
    decreases k,
{
    if k > 0 {
        let last = k - 1;
        lemma_same_origin(le, before, first, second, p, q, last);
        assert forall|i: int| 0 <= i < last implies p[i] == q[i] by {
            assert(p.take(last)[i] == q.take(last)[i]);
        }
        if p[last] != q[last] {
            assert(q.contains(p[last]));
            assert(p.contains(q[last]));
            let i = choose|i: int| 0 <= i < q.len() && q[i] == p[last];
            let j = choose|j: int| 0 <= j < p.len() && p[j] == q[last];
            assert(i > last);
            assert(j > last);
            assert(le(first[last], first[j]));
            assert(le(second[last], second[i]));
            assert(first[last] == second[i]);
            assert(first[j] == second[last]);
        }
        assert(p.take(k) =~= q.take(k));
    }
}

proof fn lemma_reordering_keeps_items<T>(before: Seq<T>, after: Seq<T>, origin: Seq<int>)
    requires
        after.len() == before.len(),
        is_reordering(origin, before.len()),
        forall|i: int| 0 <= i < after.len() ==> #[trigger] after[i] == before[origin[i]],
    ensures
        after.to_multiset() == before.to_multiset(),
    decreases before.len(),
{
    let len = before.len() as int;
    if len == 0 {
        assert(after =~= before);
    } else {
        let taken = origin[len - 1];
        let rest = before.remove(taken);
        let front = after.drop_last();
        let fewer = Seq::new(
            (len - 1) as nat,
            |i: int|
                if origin[i] < taken {
                    origin[i]
                } else {
                    origin[i] - 1
                },
        );
        assert forall|m: int| 0 <= m < len - 1 implies #[trigger] fewer.contains(m) by {
            let was = if m < taken {
                m
            } else {
                m + 1
            };
            assert(origin.contains(was));
            let i = choose|i: int| 0 <= i < origin.len() && origin[i] == was;
            assert(i != len - 1);
            assert(fewer[i] == m);
        }
        assert forall|i: int| 0 <= i < len - 1 implies 0 <= #[trigger] fewer[i] < len - 1
            && front[i] == rest[fewer[i]] by {
            assert(origin[i] != origin[len - 1]);
            assert(after[i] == before[origin[i]]);
        }
        assert forall|i: int, j: int| 0 <= i < j < len - 1 implies #[trigger] fewer[i]
            != #[trigger] fewer[j] by {
            assert(origin[i] != origin[len - 1]);
            assert(origin[j] != origin[len - 1]);
            assert(origin[i] != origin[j]);
        }
        assert forall|i: int| 0 <= i < front.len() implies #[trigger] front[i]
            == rest[fewer[i]] by {
            assert(0 <= fewer[i]);
        }
        lemma_reordering_keeps_items(rest, front, fewer);
        before.to_multiset_ensures();
        front.to_multiset_ensures();
        assert(front.push(after.last()) =~= after);
        assert(before.to_multiset().remove(before[taken]).insert(before[taken])
            =~= before.to_multiset());
    }
}

/// A stable sort is sorted, and holds what the items held, each as often.
pub proof fn law_stable_sort_keeps_items<T>(
    le: spec_fn(T, T) -> bool,
    before: Seq<T>,
    after: Seq<T>,
)
    requires
        is_stable_sort(le, before, after),
    ensures
        is_sorted(le, after),
        after.len() == before.len(),
        after.to_multiset() == before.to_multiset(),
        forall|item: T| after.contains(item) <==> before.contains(item),
{
    let origin = choose|origin: Seq<int>| sorts_by_origin(le, before, after, origin);
    lemma_reordering_keeps_items(before, after, origin);
    assert forall|item: T| after.contains(item) <==> before.contains(item) by {
        if after.contains(item) {
            let i = choose|i: int| 0 <= i < after.len() && after[i] == item;
            assert(before[origin[i]] == item);
        }
        if before.contains(item) {
            let m = choose|m: int| 0 <= m < before.len() && before[m] == item;
            assert(origin.contains(m));
            let i = choose|i: int| 0 <= i < origin.len() && origin[i] == m;
            assert(after[i] == item);
        }
    }
}

/// What is sorted already comes out of a stable sort as it went in.
pub proof fn law_stable_sort_of_sorted<T>(
    le: spec_fn(T, T) -> bool,
    items: Seq<T>,
    after: Seq<T>,
)
    requires
        is_sorted(le, items),
        is_stable_sort(le, items, after),
    ensures
        after == items,
{
    let origin = Seq::new(items.len(), |i: int| i);
    assert forall|m: int| 0 <= m < items.len() implies #[trigger] origin.contains(m) by {
        assert(origin[m] == m);
    }
    assert(sorts_by_origin(le, items, items, origin));
    law_stable_sort_is_unique(le, items, items, after);
}

/// Looking at sorted items through `f` shows a stable sort, when the order sees no more of an
/// item than `f` does.
pub proof fn lemma_stable_sort_through<T, U>(
    le: spec_fn(T, T) -> bool,
    shown_le: spec_fn(U, U) -> bool,
    f: spec_fn(T) -> U,
    before: Seq<T>,
    after: Seq<T>,
)
    requires
        is_stable_sort(le, before, after),
        forall|a: T, b: T| #[trigger] le(a, b) == shown_le(f(a), f(b)),
    ensures
        is_stable_sort(shown_le, before.map_values(f), after.map_values(f)),
{
    let origin = choose|origin: Seq<int>| sorts_by_origin(le, before, after, origin);
    let b = before.map_values(f);
    let a = after.map_values(f);
    assert forall|i: int, j: int| 0 <= i < j < a.len() implies shown_le(
        #[trigger] a[i],
        #[trigger] a[j],
    ) by {
        assert(le(after[i], after[j]));
    }
    assert forall|i: int, j: int|
        0 <= i < j < a.len() && shown_le(#[trigger] a[j], #[trigger] a[i]) implies origin[i]
        < origin[j] by {
        assert(le(after[j], after[i]));
    }
    assert(sorts_by_origin(shown_le, b, a, origin));
}

/// Items that can be put in order.
pub trait Ranked: Sized {
    /// `self` may stand before `other`.
    spec fn rank_le(self, other: Self) -> bool;

    /// Of two items one may stand before the other.
    proof fn rank_total(a: Self, b: Self)
        ensures
            a.rank_le(b) || b.rank_le(a),
    ;

    /// What may stand before an item may stand before whatever that item may stand before.
    proof fn rank_transitive(a: Self, b: Self, c: Self)
        requires
            a.rank_le(b),
            b.rank_le(c),
        ensures
            a.rank_le(c),
    ;

    /// Whether `self` may stand before `other`.
    fn may_precede(&self, other: &Self) -> (res: bool)
        ensures
            res == self.rank_le(*other),
    ;
}

impl Ranked for String {
    open spec fn rank_le(self, other: Self) -> bool {
        text_le(self@, other@)
    }

    proof fn rank_total(a: Self, b: Self) {
        law_text_order_total(a@, b@);
    }

    proof fn rank_transitive(a: Self, b: Self, c: Self) {
        law_text_order_transitive(a@, b@, c@);
    }

    fn may_precede(&self, other: &Self) -> (res: bool) {
        at_most(self.as_str(), other.as_str())
    }
}

/// The order of a `Ranked` type.
pub open spec fn rank_order<T: Ranked>() -> spec_fn(T, T) -> bool {
    |a: T, b: T| a.rank_le(b)
}

/// The first position of `items`, which are sorted, at which `item` may stand.
fn first_position<T: Ranked>(items: &Vec<T>, item: &T) -> (pos: usize)
    requires
        is_sorted(rank_order::<T>(), items@),
    ensures
        pos <= items@.len(),
        forall|i: int| 0 <= i < pos ==> !item.rank_le(#[trigger] items@[i]),
        forall|i: int| pos <= i < items@.len() ==> item.rank_le(#[trigger] items@[i]),
{
    let mut low: usize = 0;
    let mut high: usize = items.len();
    while low < high
        invariant
            is_sorted(rank_order::<T>(), items@),
            low <= high <= items@.len(),
            forall|i: int| 0 <= i < low ==> !item.rank_le(#[trigger] items@[i]),
            forall|i: int| high <= i < items@.len() ==> item.rank_le(#[trigger] items@[i]),
        decreases high - low,
    {
        let middle: usize = low + (high - low) / 2;
        if item.may_precede(&items[middle]) {
            proof {
                assert forall|i: int| middle <= i < items@.len() implies item.rank_le(
                    #[trigger] items@[i],
                ) by {
                    if i != middle {
                        assert(rank_order::<T>()(items@[middle as int], items@[i]));
                        T::rank_transitive(*item, items@[middle as int], items@[i]);
                    }
                }
            }
            high = middle;
        } else {
            proof {
                assert forall|i: int| 0 <= i <= middle implies !item.rank_le(
                    #[trigger] items@[i],
                ) by {
                    if i != middle && item.rank_le(items@[i]) {
                        assert(rank_order::<T>()(items@[i], items@[middle as int]));
                        T::rank_transitive(*item, items@[i], items@[middle as int]);
                    }
                }
            }
            low = middle + 1;
        }
    }
    low
}

/// Putting an item in front of the items and, in their stable sort, at the first position at
/// which it may stand gives a stable sort again.
proof fn lemma_insert_keeps_stable_sort<T: Ranked>(
    before: Seq<T>,
    after: Seq<T>,
    item: T,
    pos: int,
)
    requires
        is_stable_sort(rank_order::<T>(), before, after),
        0 <= pos <= after.len(),
        forall|i: int| 0 <= i < pos ==> !item.rank_le(#[trigger] after[i]),
        forall|i: int| pos <= i < after.len() ==> item.rank_le(#[trigger] after[i]),
    ensures
        is_stable_sort(rank_order::<T>(), seq![item] + before, after.insert(pos, item)),
{
    let le = rank_order::<T>();
    let origin = choose|origin: Seq<int>| sorts_by_origin(le, before, after, origin);
    let shifted = Seq::new(origin.len(), |i: int| origin[i] + 1);
    let new_origin = shifted.insert(pos, 0);
    let new_before = seq![item] + before;
    let new_after = after.insert(pos, item);
    assert forall|m: int| 0 <= m < new_before.len() implies #[trigger] new_origin.contains(m) by {
        if m == 0 {
            assert(new_origin[pos] == 0);
        } else {
            assert(origin.contains(m - 1));
            let i = choose|i: int| 0 <= i < origin.len() && origin[i] == m - 1;
            assert(shifted[i] == m);
            if i < pos {
                assert(new_origin[i] == m);
            } else {
                assert(new_origin[i + 1] == m);
            }
        }
    }
    assert forall|i: int| 0 <= i < new_after.len() implies 0 <= #[trigger] new_origin[i]
        < new_before.len() && new_after[i] == new_before[new_origin[i]] by {
        if i < pos {
            assert(new_origin[i] == origin[i] + 1);
            assert(after[i] == before[origin[i]]);
        } else if i > pos {
            assert(new_origin[i] == origin[i - 1] + 1);
            assert(after[i - 1] == before[origin[i - 1]]);
        }
    }
    assert forall|i: int, j: int| 0 <= i < j < new_after.len() implies #[trigger] new_origin[i]
        != #[trigger] new_origin[j] && le(new_after[i], new_after[j]) && (le(
        new_after[j],
        new_after[i],
    ) ==> new_origin[i] < new_origin[j]) by {
        if j == pos {
            assert(new_origin[i] == origin[i] + 1);
            assert(new_after[i] == after[i]);
            T::rank_total(item, after[i]);
        } else if i == pos {
            assert(new_origin[j] == origin[j - 1] + 1);
            assert(new_after[j] == after[j - 1]);
        } else {
            let old_i = if i < pos { i } else { i - 1 };
            let old_j = if j < pos { j } else { j - 1 };
            assert(new_origin[i] == origin[old_i] + 1);
            assert(new_origin[j] == origin[old_j] + 1);
            assert(new_after[i] == after[old_i]);
            assert(new_after[j] == after[old_j]);
        }
    }
    assert(forall|i: int, j: int|
        0 <= i < j < new_after.len() ==> #[trigger] new_origin[i] != #[trigger] new_origin[j]);
    assert forall|i: int| 0 <= i < new_after.len() implies #[trigger] new_after[i]
        == new_before[new_origin[i]] by {
        assert(0 <= new_origin[i]);
    }
    assert forall|i: int, j: int| 0 <= i < j < new_after.len() implies le(
        #[trigger] new_after[i],
        #[trigger] new_after[j],
    ) by {
        assert(new_origin[i] != new_origin[j]);
    }
    assert forall|i: int, j: int|
        0 <= i < j < new_after.len() && le(
            #[trigger] new_after[j],
            #[trigger] new_after[i],
        ) implies new_origin[i] < new_origin[j] by {
        assert(new_origin[i] != new_origin[j]);
    }
    assert(sorts_by_origin(le, new_before, new_after, new_origin));
}

/// Puts the items in order; items of the same rank keep the order that they had.
pub fn stable_sort<T: Ranked>(items: Vec<T>) -> (sorted: Vec<T>)
    ensures
        is_stable_sort(rank_order::<T>(), items@, sorted@),
{
    let ghost whole = items@;
    let mut rest = items;
    let mut sorted: Vec<T> = Vec::new();
    proof {
        assert(sorts_by_origin(
            rank_order::<T>(),
            whole.skip(whole.len() as int),
            sorted@,
            Seq::<int>::empty(),
        ));
    }
    while rest.len() > 0
        invariant
            rest@.len() <= whole.len(),
            rest@ == whole.take(rest@.len() as int),
            is_stable_sort(rank_order::<T>(), whole.skip(rest@.len() as int), sorted@),
        decreases rest@.len(),
    {
        let ghost left = rest@.len() - 1;
        if let Some(item) = rest.pop() {
            proof {
                law_stable_sort_keeps_items(rank_order::<T>(), whole.skip(left + 1), sorted@);
                assert(item == whole[left]);
            }
            let pos: usize = first_position(&sorted, &item);
            proof {
                lemma_insert_keeps_stable_sort(whole.skip(left + 1), sorted@, item, pos as int);
                assert(seq![item] + whole.skip(left + 1) =~= whole.skip(left));
            }
            sorted.insert(pos, item);
        }
    }
    proof {
        assert(whole.skip(0) =~= whole);
    }
    sorted
}

} // verus!
