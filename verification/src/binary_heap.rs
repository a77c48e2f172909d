//! A priority queue implemented with a binary heap.
use crate::heap_order::{
    below_parent, children_below, descending, heap_between, in_subtree, is_heap, lemma_below_root,
    lemma_heap_top, lemma_in_subtree_root, lemma_subtree_parent, lemma_swap_multiset,
    lemma_swap_range_multiset, parent, rising, sinking, sinking_within,
    subtree_heap,
};
use crate::iter::{Drain, IntoIter, IntoIterSorted, Iter};
use crate::layout::{
    carried_down, pushed, pushed_all, rebuilt, rebuilt_from, rebuilt_tail, sifted_down,
    sifted_down_to_bottom, sifted_up, sifted_up_from, top_removed,
};
use crate::order::{
    is_total_preorder, Compare, FnComparator, KeyComparator, MaxComparator, MinComparator, Order,
};
use crate::vec_ext::{
    vec_capacity, vec_from_array, vec_reserve_exact, vec_shrink_to, vec_shrink_to_fit,
};
use vstd::std_specs::cmp::OrdSpec;
use vstd::prelude::*;

verus! {

/// Exchanges the items at `i` and `j`.
fn swap_items<T>(v: &mut Vec<T>, i: usize, j: usize)
    requires
        i < j < old(v).len(),
    ensures
        final(v)@ == old(v)@.update(i as int, old(v)@[j as int]).update(j as int, old(v)@[i as int]),
{
    let (left, right) = v.as_mut_slice().split_at_mut(j);
    std::mem::swap(&mut left[i], &mut right[0]);
}

/// The position of the highest set bit of `x`: the integer part of its
/// binary logarithm.
fn log2_fast(x: usize) -> (r: usize)
    requires
        x > 0,
    ensures
        r == 63 - vstd::std_specs::bits::u64_leading_zeros(x as u64),
        r < 64,
{
    proof {
        vstd::std_specs::bits::axiom_u64_leading_zeros(x as u64);
    }
    let zeros = (x as u64).leading_zeros();
    (63 - zeros) as usize
}

/// A priority queue implemented with a binary heap.
///
/// The item at the top is one that no other item exceeds in the order of the
/// comparator `C`: with the default [`MaxComparator`], the greatest.
#[derive(Clone, Debug)]
pub struct BinaryHeap<T, C = MaxComparator> {
    data: Vec<T>,
    comparator: C,
}

impl<T, C> View for BinaryHeap<T, C> {
    type V = Seq<T>;

    /// The items, in the order in which the heap stores them.
    closed spec fn view(&self) -> Seq<T> {
        self.data@
    }
}

impl<T, C> BinaryHeap<T, C> {
    /// The comparator that orders the heap.
    pub closed spec fn order(&self) -> C {
        self.comparator
    }

    /// The vector that holds the items.
    pub closed spec fn items(&self) -> Vec<T> {
        self.data
    }

    /// The view is the view of the vector that holds the items.
    pub proof fn lemma_items_view(&self)
        ensures
            self.items()@ == self@,
    {
    }
}

impl<T, C> From<BinaryHeap<T, C>> for Vec<T> {
    /// Converts a `BinaryHeap` into the vector of its items, in the order in
    /// which the heap stores them; no item moves.
    fn from(heap: BinaryHeap<T, C>) -> (r: Vec<T>) {
        heap.data
    }
}

impl<T, C> vstd::std_specs::convert::FromSpecImpl<BinaryHeap<T, C>> for Vec<T> {
    open spec fn obeys_from_spec() -> bool {
        true
    }

    open spec fn from_spec(v: BinaryHeap<T, C>) -> Vec<T> {
        v.items()
    }
}

impl<T, C: Compare<T>> BinaryHeap<T, C> {
    /// The comparator can be asked about any two items and, where it is a
    /// total preorder, the items form a heap in its order.
    pub open spec fn well_formed(&self) -> bool {
        &&& self.order().can_compare()
        &&& is_total_preorder(self.order()) ==> is_heap(self@, self.order())
    }

    /// Moves the item at `pos` up towards `start` while it exceeds its parent;
    /// returns where it comes to rest.
    fn sift_up(&mut self, start: usize, pos: usize, Ghost(hi): Ghost<int>) -> (r: usize)
        requires
            start <= pos < hi <= old(self).data@.len(),
            in_subtree(pos as int, start as int),
            old(self).comparator.can_compare(),
            is_total_preorder(old(self).comparator) ==> rising(
                old(self).data@,
                old(self).comparator,
                start as int,
                hi,
                pos as int,
            ),
        ensures
            final(self).comparator == old(self).comparator,
            final(self).data@.len() == old(self).data@.len(),
            final(self).data@.to_multiset() == old(self).data@.to_multiset(),
            forall|k: int|
                0 <= k < final(self).data@.len() && (k < start || k > pos) ==> final(self).data@[k]
                    == old(self).data@[k],
            start <= r <= pos,
            old(self).comparator.is_consistent() ==> (final(self).data@, r as int) == sifted_up(
                old(self).data@,
                old(self).comparator,
                start as int,
                pos as int,
            ),
            final(self).data@[r as int] == old(self).data@[pos as int],
            is_total_preorder(old(self).comparator) ==> heap_between(
                final(self).data@,
                final(self).comparator,
                start as int,
                hi,
            ),
    {
        let ghost c = self.comparator;
        let ghost s0 = self.data@;
        let mut p = pos;
        while p > start && !self.comparator.compares_le(&self.data[p], &self.data[(p - 1) / 2])
            invariant
                c == self.comparator,
                c.can_compare(),
                start <= p <= pos < hi <= self.data@.len(),
                in_subtree(p as int, start as int),
                self.data@.len() == s0.len(),
                self.data@.to_multiset() == s0.to_multiset(),
                forall|k: int|
                    0 <= k < s0.len() && (k < start || k > pos) ==> self.data@[k] == s0[k],
                self.data@[p as int] == s0[pos as int],
                c.is_consistent() ==> sifted_up(self.data@, c, start as int, p as int) == sifted_up(
                    s0,
                    c,
                    start as int,
                    pos as int,
                ),
                is_total_preorder(c) ==> rising(self.data@, c, start as int, hi, p as int),
            decreases p,
        {
            let q = (p - 1) / 2;
            let ghost s = self.data@;
            proof {
                lemma_subtree_parent(p as int, start as int);
            }
            swap_items(&mut self.data, q, p);
            proof {
                lemma_swap_multiset(s, q as int, p as int);
                if is_total_preorder(c) {
                    let t = self.data@;
                    assert(c.le(s[q as int], s[p as int]));
                    assert forall|i: int|
                        0 < i < hi && start <= parent(i) && i != q implies #[trigger] below_parent(
                        t,
                        c,
                        i,
                    ) by {
                        if i == p {
                        } else if parent(i) == p {
                            assert(children_below(s, c, hi, p as int, q as int));
                        } else if parent(i) == q {
                            assert(below_parent(s, c, i));
                        } else if i == q {
                        } else {
                            assert(below_parent(s, c, i));
                        }
                    }
                    if q > start {
                        lemma_subtree_parent(q as int, start as int);
                        assert(below_parent(s, c, q as int));
                        assert(below_parent(s, c, 2 * q + 1) || 2 * q + 1 == p);
                        assert(below_parent(s, c, 2 * q + 2) || 2 * q + 2 == p || 2 * q + 2 >= hi);
                    }
                }
            }
            p = q;
        }
        p
    }

    /// Moves the item at `pos` down, within the first `end` items, while a
    /// child exceeds it.
    fn sift_down_range(&mut self, pos: usize, end: usize)
        requires
            pos < end <= old(self).data@.len(),
            old(self).comparator.can_compare(),
            is_total_preorder(old(self).comparator) ==> sinking_within(
                old(self).data@,
                old(self).comparator,
                pos as int,
                end as int,
                pos as int,
            ),
        ensures
            final(self).comparator == old(self).comparator,
            old(self).comparator.is_consistent() ==> final(self).data@ == sifted_down(
                old(self).data@,
                old(self).comparator,
                pos as int,
                end as int,
            ),
            final(self).data@.len() == old(self).data@.len(),
            final(self).data@.to_multiset() == old(self).data@.to_multiset(),
            final(self).data@.subrange(pos as int, end as int).to_multiset() == old(
                self,
            ).data@.subrange(pos as int, end as int).to_multiset(),
            forall|k: int|
                0 <= k < final(self).data@.len() && (k >= end || !in_subtree(k, pos as int))
                    ==> #[trigger] final(self).data@[k] == old(self).data@[k],
            is_total_preorder(old(self).comparator) ==> subtree_heap(
                final(self).data@,
                final(self).comparator,
                pos as int,
                end as int,
            ),
    {
        let ghost c = self.comparator;
        let ghost s0 = self.data@;
        let mut p = pos;
        while p < (end - 1) / 2
            invariant
                c == self.comparator,
                c == old(self).comparator,
                s0 == old(self).data@,
                c.can_compare(),
                pos <= p < end <= self.data@.len(),
                in_subtree(p as int, pos as int),
                self.data@.len() == s0.len(),
                self.data@.to_multiset() == s0.to_multiset(),
                c.is_consistent() ==> sifted_down(self.data@, c, p as int, end as int)
                    == sifted_down(s0, c, pos as int, end as int),
                self.data@.subrange(pos as int, end as int).to_multiset() == s0.subrange(
                    pos as int,
                    end as int,
                ).to_multiset(),
                forall|k: int|
                    0 <= k < s0.len() && (k >= end || !in_subtree(k, pos as int))
                        ==> #[trigger] self.data@[k] == s0[k],
                is_total_preorder(c) ==> sinking_within(
                    self.data@,
                    c,
                    pos as int,
                    end as int,
                    p as int,
                ),
            decreases end - p,
        {
            let mut child = 2 * p + 1;
            if self.comparator.compares_le(&self.data[child], &self.data[child + 1]) {
                child = child + 1;
            }
            if self.comparator.compares_le(&self.data[child], &self.data[p]) {
                proof {
                    if is_total_preorder(c) {
                        let s = self.data@;
                        assert forall|i: int|
                            0 < i < end && in_subtree(parent(i), pos as int) implies #[trigger] below_parent(
                            s,
                            c,
                            i,
                        ) by {
                            if parent(i) == p {
                                assert(c.le(s[2 * p + 1], s[child as int]) || c.le(
                                    s[2 * p + 2],
                                    s[child as int],
                                ));
                            }
                        }
                    }
                }
                return ;
            }
            let ghost s = self.data@;
            swap_items(&mut self.data, p, child);
            proof {
                assert(in_subtree(child as int, pos as int));
                assert forall|k: int|
                    0 <= k < s0.len() && (k >= end || !in_subtree(k, pos as int)) implies #[trigger] self.data@[k]
                        == s0[k] by {
                    assert(k != p && k != child);
                    assert(s[k] == s0[k]);
                }
                lemma_swap_multiset(s, p as int, child as int);
                lemma_swap_range_multiset(s, p as int, child as int, pos as int, end as int);
                if is_total_preorder(c) {
                    let t = self.data@;
                    let m = child as int;
                    let o = if m == 2 * p + 1 {
                        2 * p + 2
                    } else {
                        2 * p + 1
                    };
                    assert(c.le(s[o], s[m]));
                    assert(c.le(s[p as int], s[m]));
                    assert forall|i: int|
                        0 < i < end && in_subtree(parent(i), pos as int) && parent(i) != m implies #[trigger] below_parent(
                        t,
                        c,
                        i,
                    ) by {
                        if i == m || i == o {
                        } else if i == p {
                        } else {
                            assert(below_parent(s, c, i));
                        }
                    }
                    assert(below_parent(s, c, 2 * m + 1) || 2 * m + 1 >= end);
                    assert(below_parent(s, c, 2 * m + 2) || 2 * m + 2 >= end);
                }
            }
            p = child;
        }
        if p + 1 == end - 1 - p && !self.comparator.compares_le(&self.data[end - 1], &self.data[p]) {
            let ghost s = self.data@;
            swap_items(&mut self.data, p, end - 1);
            proof {
                assert(in_subtree(end - 1, pos as int));
                lemma_swap_multiset(s, p as int, end - 1);
                lemma_swap_range_multiset(s, p as int, end - 1, pos as int, end as int);
                if is_total_preorder(c) {
                    let t = self.data@;
                    assert forall|i: int|
                        0 < i < end && in_subtree(parent(i), pos as int) implies #[trigger] below_parent(t, c, i) by {
                        if i == end - 1 {
                        } else if i == p {
                        } else {
                            assert(below_parent(s, c, i));
                        }
                    }
                }
            }
        }
    }

    /// Moves the item at `pos` down the whole heap while a child exceeds it.
    fn sift_down(&mut self, pos: usize)
        requires
            pos < old(self).data@.len(),
            old(self).comparator.can_compare(),
            is_total_preorder(old(self).comparator) ==> sinking_within(
                old(self).data@,
                old(self).comparator,
                pos as int,
                old(self).data@.len() as int,
                pos as int,
            ),
        ensures
            final(self).comparator == old(self).comparator,
            old(self).comparator.is_consistent() ==> final(self).data@ == sifted_down(
                old(self).data@,
                old(self).comparator,
                pos as int,
                old(self).data@.len() as int,
            ),
            final(self).data@.len() == old(self).data@.len(),
            final(self).data@.to_multiset() == old(self).data@.to_multiset(),
            forall|k: int|
                0 <= k < final(self).data@.len() && !in_subtree(k, pos as int)
                    ==> final(self).data@[k] == old(self).data@[k],
            is_total_preorder(old(self).comparator) ==> subtree_heap(
                final(self).data@,
                final(self).comparator,
                pos as int,
                final(self).data@.len() as int,
            ),
    {
        let len = self.data.len();
        self.sift_down_range(pos, len);
    }

    /// Carries the item at `pos` down to a leaf, always towards the greater
    /// child, then moves it back up to its place.
    fn sift_down_to_bottom(&mut self, pos: usize)
        requires
            pos < old(self).data@.len(),
            old(self).comparator.can_compare(),
            is_total_preorder(old(self).comparator) ==> descending(
                old(self).data@,
                old(self).comparator,
                pos as int,
                old(self).data@.len() as int,
                pos as int,
            ),
        ensures
            final(self).comparator == old(self).comparator,
            old(self).comparator.is_consistent() ==> final(self).data@ == sifted_down_to_bottom(
                old(self).data@,
                old(self).comparator,
                pos as int,
            ),
            final(self).data@.len() == old(self).data@.len(),
            final(self).data@.to_multiset() == old(self).data@.to_multiset(),
            forall|k: int| 0 <= k < pos ==> final(self).data@[k] == old(self).data@[k],
            is_total_preorder(old(self).comparator) ==> heap_between(
                final(self).data@,
                final(self).comparator,
                pos as int,
                final(self).data@.len() as int,
            ),
    {
        let ghost c = self.comparator;
        let ghost s0 = self.data@;
        let end = self.data.len();
        let start = pos;
        let mut p = pos;
        while p < (end - 1) / 2
            invariant
                c == self.comparator,
                c == old(self).comparator,
                s0 == old(self).data@,
                c.can_compare(),
                end == s0.len(),
                start <= p < end,
                in_subtree(p as int, start as int),
                self.data@.len() == s0.len(),
                self.data@.to_multiset() == s0.to_multiset(),
                c.is_consistent() ==> carried_down(self.data@, c, p as int) == carried_down(
                    s0,
                    c,
                    start as int,
                ),
                forall|k: int| 0 <= k < start ==> self.data@[k] == s0[k],
                is_total_preorder(c) ==> descending(
                    self.data@,
                    c,
                    start as int,
                    end as int,
                    p as int,
                ),
            decreases end - p,
        {
            let mut child = 2 * p + 1;
            if self.comparator.compares_le(&self.data[child], &self.data[child + 1]) {
                child = child + 1;
            }
            let ghost s = self.data@;
            swap_items(&mut self.data, p, child);
            proof {
                lemma_swap_multiset(s, p as int, child as int);
                assert(in_subtree(child as int, start as int));
                if is_total_preorder(c) {
                    let t = self.data@;
                    let m = child as int;
                    let o = if m == 2 * p + 1 {
                        2 * p + 2
                    } else {
                        2 * p + 1
                    };
                    assert(c.le(s[o], s[m]));
                    assert forall|i: int|
                        0 < i < end && start <= parent(i) && i != m && parent(i) != m implies #[trigger] below_parent(
                        t,
                        c,
                        i,
                    ) by {
                        if i == o {
                        } else if i == p {
                        } else {
                            assert(below_parent(s, c, i));
                        }
                    }
                    assert(below_parent(s, c, 2 * m + 1) || 2 * m + 1 >= end);
                    assert(below_parent(s, c, 2 * m + 2) || 2 * m + 2 >= end);
                }
            }
            p = child;
        }
        if p + 1 == end - 1 - p {
            let ghost s = self.data@;
            swap_items(&mut self.data, p, end - 1);
            proof {
                lemma_swap_multiset(s, p as int, end - 1);
                assert(in_subtree(end - 1, start as int));
                if is_total_preorder(c) {
                    let t = self.data@;
                    assert forall|i: int|
                        0 < i < end && start <= parent(i) && i != end - 1 && parent(i) != end
                            - 1 implies #[trigger] below_parent(t, c, i) by {
                        if i == p {
                        } else {
                            assert(below_parent(s, c, i));
                        }
                    }
                }
            }
            p = end - 1;
        }
        proof {
            if is_total_preorder(c) {
                let s = self.data@;
                assert forall|i: int|
                    0 < i < end && start <= parent(i) && i != p implies #[trigger] below_parent(
                    s,
                    c,
                    i,
                ) by {
                    assert(parent(i) != p);
                }
            }
        }
        proof {
            if c.is_consistent() {
                assert(carried_down(self.data@, c, p as int) == (self.data@, p as int));
            }
        }
        self.sift_up(start, p, Ghost(end as int));
    }

    /// Rearranges all items into a heap.
    fn rebuild(&mut self)
        requires
            old(self).comparator.can_compare(),
        ensures
            final(self).comparator == old(self).comparator,
            final(self).data@.len() == old(self).data@.len(),
            final(self).data@.to_multiset() == old(self).data@.to_multiset(),
            final(self).well_formed(),
            old(self).comparator.is_consistent() ==> final(self).data@ == rebuilt(
                old(self).data@,
                old(self).comparator,
            ),
    {
        let ghost c = self.comparator;
        let ghost s0 = self.data@;
        let mut n = self.data.len() / 2;
        while n > 0
            invariant
                c == self.comparator,
                c.can_compare(),
                n <= self.data@.len() / 2,
                self.data@.len() == s0.len(),
                self.data@.to_multiset() == s0.to_multiset(),
                c.is_consistent() ==> rebuilt_from(self.data@, c, n as int) == rebuilt(s0, c),
                is_total_preorder(c) ==> heap_between(
                    self.data@,
                    c,
                    n as int,
                    self.data@.len() as int,
                ),
            decreases n,
        {
            n -= 1;
            proof {
                if is_total_preorder(c) {
                    let s = self.data@;
                    assert forall|i: int|
                        0 < i < s.len() && n <= parent(i) && parent(i) != n implies #[trigger] below_parent(
                        s,
                        c,
                        i,
                    ) by {
                        assert(n + 1 <= parent(i));
                    }
                }
            }
            let ghost s = self.data@;
            self.sift_down(n);
            proof {
                if is_total_preorder(c) {
                    let t = self.data@;
                    assert forall|i: int|
                        0 < i < t.len() && n <= parent(i) implies #[trigger] below_parent(t, c, i) by {
                        if !in_subtree(parent(i), n as int) {
                            if in_subtree(i, n as int) {
                                lemma_subtree_parent(i, n as int);
                            }
                            assert(t[i] == s[i]);
                            assert(t[parent(i)] == s[parent(i)]);
                            assert(below_parent(s, c, i));
                        }
                    }
                }
            }
        }
    }

    /// Restores the heap when the items before `start` already form one and
    /// those from `start` on were added after them.
    fn rebuild_tail(&mut self, start: usize)
        requires
            start <= old(self).data@.len(),
            old(self).comparator.can_compare(),
            is_total_preorder(old(self).comparator) ==> heap_between(
                old(self).data@,
                old(self).comparator,
                0,
                start as int,
            ),
        ensures
            final(self).comparator == old(self).comparator,
            final(self).data@.len() == old(self).data@.len(),
            final(self).data@.to_multiset() == old(self).data@.to_multiset(),
            final(self).well_formed(),
            start == old(self).data@.len() ==> final(self).data@ == old(self).data@,
            old(self).comparator.is_consistent() ==> final(self).data@ == rebuilt_tail(
                old(self).data@,
                old(self).comparator,
                start as int,
            ),
    {
        let len = self.data.len();
        if start == len {
            return ;
        }
        let tail_len = len - start;
        // `rebuild` takes O(len) operations and about 2 * len comparisons in
        // the worst case, while repeating `sift_up` takes O(tail_len *
        // log(start)) operations and about tail_len * log2(start)
        // comparisons, assuming start >= tail_len. For larger heaps the
        // crossover point was determined empirically.
        let better_to_rebuild = if start < tail_len {
            true
        } else if len <= 2048 {
            let lg = log2_fast(start);
            assert(tail_len * lg <= 2048 * 64) by (nonlinear_arith)
                requires
                    tail_len <= 2048,
                    lg < 64,
            ;
            2 * len < tail_len * lg
        } else {
            2 * (len as u128) < (tail_len as u128) * 11
        };
        assert(better_to_rebuild == crate::layout::better_to_rebuild(start as int, len as int));
        if better_to_rebuild {
            self.rebuild();
        } else {
            let ghost c = self.comparator;
            let ghost s0 = self.data@;
            let mut i = start;
            while i < len
                invariant
                    c == self.comparator,
                    c == old(self).comparator,
                    s0 == old(self).data@,
                    c.can_compare(),
                    start <= i <= len,
                    len == s0.len(),
                    self.data@.len() == s0.len(),
                    self.data@.to_multiset() == s0.to_multiset(),
                    is_total_preorder(c) ==> heap_between(self.data@, c, 0, i as int),
                    c.is_consistent() ==> sifted_up_from(self.data@, c, i as int, len as int)
                        == sifted_up_from(s0, c, start as int, len as int),
                decreases len - i,
            {
                proof {
                    lemma_in_subtree_root(i as int);
                }
                self.sift_up(0, i, Ghost(i as int + 1));
                i += 1;
            }
        }
    }

    /// Pushes an item onto the binary heap.
    pub fn push(&mut self, item: T)
        requires
            old(self).well_formed(),
        ensures
            final(self).well_formed(),
            final(self).order() == old(self).order(),
            final(self)@.len() == old(self)@.len() + 1,
            final(self)@.to_multiset() == old(self)@.to_multiset().insert(item),
            old(self).order().is_consistent() ==> final(self)@ == pushed(
                old(self)@,
                old(self).order(),
                item,
            ),
    {
        broadcast use vstd::seq_lib::to_multiset_build;

        let ghost c = self.comparator;
        let ghost s = self.data@;
        let old_len = self.data.len();
        self.data.push(item);
        proof {
            lemma_in_subtree_root(old_len as int);
            if is_total_preorder(c) {
                let t = self.data@;
                assert forall|i: int|
                    0 < i < old_len + 1 && 0 <= parent(i) && i != old_len implies #[trigger] below_parent(
                    t,
                    c,
                    i,
                ) by {
                    assert(below_parent(s, c, i));
                }
            }
        }
        self.sift_up(0, old_len, Ghost(old_len as int + 1));
    }

    /// Removes the item at the top of a non-empty heap and returns it. The
    /// heap property may fail between the top and its children, as after a
    /// write through [`BinaryHeap::top_mut`].
    pub fn remove_top(&mut self) -> (r: T)
        requires
            old(self)@.len() > 0,
            old(self).order().can_compare(),
            is_total_preorder(old(self).order()) ==> sinking(
                old(self)@,
                old(self).order(),
                0,
                old(self)@.len() as int,
                0,
            ),
        ensures
            r == old(self)@[0],
            final(self).well_formed(),
            final(self).order() == old(self).order(),
            final(self)@.len() == old(self)@.len() - 1,
            old(self)@.to_multiset() == final(self)@.to_multiset().insert(r),
            old(self).order().is_consistent() ==> final(self)@ == top_removed(
                old(self)@,
                old(self).order(),
            ),
    {
        broadcast use vstd::seq_lib::to_multiset_build, vstd::seq_lib::to_multiset_update;

        let ghost c = self.comparator;
        let ghost s = self.data@;
        let mut item = self.data.pop().unwrap();
        if self.data.len() > 0 {
            let ghost before = self.data@;
            std::mem::swap(&mut item, &mut self.data[0]);
            proof {
                assert(s =~= before.push(s[s.len() - 1]));
                assert(self.data@ =~= before.update(0, s[s.len() - 1]));
                assert(self.data@ =~= s.drop_last().update(0, s.last()));
                assert(item == before[0]);
                assert(before.contains(before[0]));
                broadcast use vstd::seq_lib::to_multiset_contains;

                assert(before.to_multiset().count(before[0]) > 0);
                assert(self.data@.to_multiset().insert(item) =~= s.to_multiset());
                if is_total_preorder(c) {
                    let t = self.data@;
                    assert forall|i: int|
                        0 < i < t.len() && 0 <= parent(i) && i != 0 && parent(i)
                            != 0 implies #[trigger] below_parent(t, c, i) by {
                        assert(below_parent(s, c, i));
                    }
                }
            }
            self.sift_down_to_bottom(0);
        } else {
            proof {
                assert(s =~= self.data@.push(item));
                assert(self.data@ =~= Seq::<T>::empty());
            }
        }
        item
    }

    /// Removes the greatest item from the binary heap and returns it, or
    /// `None` if it is empty.
    pub fn pop(&mut self) -> (r: Option<T>)
        requires
            old(self).well_formed(),
        ensures
            final(self).well_formed(),
            final(self).order() == old(self).order(),
            old(self)@.len() == 0 ==> r is None && final(self)@ == old(self)@,
            old(self)@.len() > 0 ==> r == Some(old(self)@[0]) && final(self)@.len() == old(
                self,
            )@.len() - 1 && old(self)@.to_multiset() == final(self)@.to_multiset().insert(r->0),
            old(self)@.len() > 0 && old(self).order().is_consistent() ==> final(self)@
                == top_removed(old(self)@, old(self).order()),
            old(self)@.len() > 0 && is_total_preorder(old(self).order()) ==> forall|y: T|
                old(self)@.contains(y) ==> old(self).order().le(y, r->0),
            old(self)@.len() > 0 && is_total_preorder(old(self).order()) ==> forall|y: T|
                final(self)@.contains(y) ==> old(self).order().le(y, r->0),
    {
        let ghost c = self.comparator;
        let ghost s = self.data@;
        if self.data.len() == 0 {
            return None;
        }
        proof {
            if is_total_preorder(c) {
                lemma_heap_top(s, c);
                assert forall|i: int|
                    0 < i < s.len() && 0 <= parent(i) && parent(i) != 0 implies #[trigger] below_parent(
                    s,
                    c,
                    i,
                ) by {
                    assert(below_parent(s, c, i));
                }
            }
        }
        let result = self.remove_top();
        proof {
            if is_total_preorder(c) {
                broadcast use vstd::seq_lib::to_multiset_contains, vstd::multiset::group_multiset_axioms;

                assert forall|y: T| self.data@.contains(y) implies c.le(y, result) by {
                    assert(self.data@.to_multiset().count(y) > 0);
                    assert(s.to_multiset().count(y) > 0);
                    assert(s.contains(y));
                }
            }
        }
        Some(result)
    }

    /// Consumes the `BinaryHeap` and returns a vector in sorted (ascending)
    /// order.
    pub fn into_sorted_vec(self) -> (r: Vec<T>)
        requires
            self.well_formed(),
        ensures
            r@.to_multiset() == self@.to_multiset(),
            r@.len() == self@.len(),
            is_total_preorder(self.order()) ==> forall|i: int, j: int|
                0 <= i < j < r@.len() ==> self.order().le(#[trigger] r@[i], #[trigger] r@[j]),
    {
        let mut heap = self;
        let ghost c = heap.comparator;
        let ghost s0 = heap.data@;
        let len = heap.data.len();
        let mut end = len;
        while end > 1
            invariant
                c == heap.comparator,
                c.can_compare(),
                end <= len == heap.data@.len() == s0.len(),
                heap.data@.to_multiset() == s0.to_multiset(),
                s0 == self.data@,
                c == self.comparator,
                is_total_preorder(c) ==> {
                    let s = heap.data@;
                    &&& heap_between(s, c, 0, end as int)
                    &&& forall|i: int, j: int|
                        0 <= i < end <= j < len ==> c.le(#[trigger] s[i], #[trigger] s[j])
                    &&& forall|i: int, j: int|
                        end <= i < j < len ==> c.le(#[trigger] s[i], #[trigger] s[j])
                },
            decreases end,
        {
            end -= 1;
            let ghost s = heap.data@;
            swap_items(&mut heap.data, 0, end);
            proof {
                lemma_swap_multiset(s, 0, end as int);
                if is_total_preorder(c) {
                    let t = heap.data@;
                    assert forall|i: int, j: int| 0 <= i < end <= j < len implies c.le(
                        #[trigger] t[i],
                        #[trigger] t[j],
                    ) by {
                        lemma_below_root(s, c, end + 1, i);
                        if i == 0 {
                            lemma_below_root(s, c, end + 1, end as int);
                        }
                    }
                    assert forall|i: int|
                        0 < i < end && 0 <= parent(i) && parent(i) != 0 implies #[trigger] below_parent(
                        t,
                        c,
                        i,
                    ) by {
                        assert(below_parent(s, c, i));
                    }
                }
            }
            let ghost t = heap.data@;
            heap.sift_down_range(0, end);
            proof {
                if is_total_preorder(c) {
                    let u = heap.data@;
                    assert forall|i: int|
                        0 < i < end && 0 <= parent(i) implies #[trigger] below_parent(u, c, i) by {
                        lemma_in_subtree_root(parent(i));
                    }
                    assert forall|i: int, j: int| 0 <= i < end <= j < len implies c.le(
                        #[trigger] u[i],
                        #[trigger] u[j],
                    ) by {
                        broadcast use vstd::seq_lib::to_multiset_contains;

                        assert(u.subrange(0, end as int)[i] == u[i]);
                        assert(u.subrange(0, end as int).contains(u[i]));
                        assert(u.subrange(0, end as int).to_multiset().count(u[i]) > 0);
                        assert(t.subrange(0, end as int).to_multiset().count(u[i]) > 0);
                        assert(t.subrange(0, end as int).contains(u[i]));
                        let k = choose|k: int|
                            0 <= k < end && t.subrange(0, end as int)[k] == u[i];
                        assert(t[k] == u[i]);
                        assert(u[j] == t[j]);
                    }
                }
            }
        }
        heap.into_vec()
    }
}

impl<T, C> BinaryHeap<T, C> {
    /// Returns the number of items in the heap.
    pub fn len(&self) -> (r: usize)
        ensures
            r == self@.len(),
    {
        self.data.len()
    }

    /// Checks if the binary heap is empty.
    pub fn is_empty(&self) -> (r: bool)
        ensures
            r == (self@.len() == 0),
    {
        self.len() == 0
    }

    /// Returns an iterator visiting all items in the underlying vector, in
    /// arbitrary order.
    pub fn iter(&self) -> (r: Iter<'_, T>)
        ensures
            r.remaining() == self@,
    {
        Iter::new(self.data.as_slice())
    }

    /// Returns an iterator which retrieves items in heap order. This method
    /// consumes the original heap.
    pub fn into_iter_sorted(self) -> (r: IntoIterSorted<T, C>)
        ensures
            r.heap() == self,
    {
        IntoIterSorted::new(self)
    }

    /// Creates a consuming iterator, that is, one that moves each item out of
    /// the binary heap in arbitrary order.
    pub fn into_iter(self) -> (r: IntoIter<T>)
        ensures
            r.remaining() == self@,
    {
        IntoIter::new(self.data)
    }

    /// Returns the number of items the binary heap can hold without
    /// reallocating.
    pub fn capacity(&self) -> (r: usize)
        ensures
            r >= self@.len(),
            vstd::layout::size_of::<T>() > 0 ==> r * vstd::layout::size_of::<T>() <= isize::MAX,
    {
        vec_capacity(&self.data)
    }

    /// Reserves the minimum capacity for exactly `additional` more items.
    /// Does nothing if the capacity is already sufficient.
    pub fn reserve_exact(&mut self, additional: usize)
        requires
            old(self)@.len() + additional <= usize::MAX,
            (old(self)@.len() + additional) * vstd::layout::size_of::<T>() <= isize::MAX,
        ensures
            final(self)@ == old(self)@,
            final(self).order() == old(self).order(),
    {
        vec_reserve_exact(&mut self.data, additional);
    }

    /// Reserves capacity for at least `additional` more items.
    pub fn reserve(&mut self, additional: usize)
        requires
            old(self)@.len() + additional <= usize::MAX,
            (old(self)@.len() + additional) * vstd::layout::size_of::<T>() <= isize::MAX,
        ensures
            final(self)@ == old(self)@,
            final(self).order() == old(self).order(),
    {
        self.data.reserve(additional);
    }

    /// Discards as much additional capacity as possible.
    pub fn shrink_to_fit(&mut self)
        ensures
            final(self)@ == old(self)@,
            final(self).order() == old(self).order(),
    {
        vec_shrink_to_fit(&mut self.data);
    }

    /// Discards capacity with a lower bound: the capacity remains at least as
    /// large as both the length and `min_capacity`.
    pub fn shrink_to(&mut self, min_capacity: usize)
        ensures
            final(self)@ == old(self)@,
            final(self).order() == old(self).order(),
    {
        vec_shrink_to(&mut self.data, min_capacity);
    }

    /// Consumes the `BinaryHeap` and returns the underlying vector in
    /// arbitrary order.
    pub fn into_vec(self) -> (r: Vec<T>)
        ensures
            r@ == self@,
    {
        self.data
    }

    /// Splits the heap into the vector of its items, in the order in which
    /// the heap stores them, and its comparator.
    pub fn into_parts(self) -> (r: (Vec<T>, C))
        ensures
            r.0@ == self@,
            r.1 == self.order(),
    {
        (self.data, self.comparator)
    }

    /// Clears the binary heap, returning an iterator over the removed items
    /// in arbitrary order.
    pub fn drain(&mut self) -> (r: Drain<'_, T>)
        ensures
            r.remaining() == old(self)@,
            final(self)@.len() == 0,
            final(self).order() == old(self).order(),
    {
        let items = crate::iter::move_into_deque(&mut self.data);
        Drain::new(items)
    }

    /// Drops all items from the binary heap.
    pub fn clear(&mut self)
        ensures
            final(self)@.len() == 0,
            final(self).order() == old(self).order(),
    {
        self.data.clear();
    }
}

/// Entries of `keep` beyond the length of `s` do not matter.
proof fn lemma_retained_prefix<T>(s: Seq<T>, k1: Seq<bool>, k2: Seq<bool>)
    requires
        k1.len() >= s.len(),
        k2.len() >= s.len(),
        forall|i: int| 0 <= i < s.len() ==> k1[i] == k2[i],
    ensures
        retained(s, k1) == retained(s, k2),
    decreases s.len(),
{
    if s.len() > 0 {
        lemma_retained_prefix(s.drop_last(), k1, k2);
    }
}

/// The index of the first `false` in `keep`, or its length where there is none.
pub open spec fn first_dropped(keep: Seq<bool>) -> int
    decreases keep.len(),
{
    if keep.len() == 0 {
        0
    } else if first_dropped(keep.drop_last()) < keep.len() - 1 {
        first_dropped(keep.drop_last())
    } else if !keep.last() {
        keep.len() - 1
    } else {
        keep.len() as int
    }
}

/// The indices `0, 1, ..., n - 1`.
pub open spec fn indices(n: nat) -> Seq<int> {
    Seq::new(n, |i: int| i)
}

/// Whether `keep` is true at an index.
pub open spec fn kept_at(keep: Seq<bool>) -> spec_fn(int) -> bool {
    |i: int| keep[i]
}

/// The items of `s` at the indices where `keep` is true, in order: the
/// indices of `s` filtered by `keep`, each replaced by its item.
pub open spec fn kept_items<T>(s: Seq<T>, keep: Seq<bool>) -> Seq<T> {
    indices(s.len()).filter(kept_at(keep)).map_values(|i: int| s[i])
}

/// What `retain` leaves is exactly the items of `s` whose entry in `keep`
/// is true, in their order in `s`: no item that `keep` rejects stays and no
/// item that it keeps is lost.
pub proof fn lemma_retained_keeps_exactly<T>(s: Seq<T>, keep: Seq<bool>)
    requires
        keep.len() >= s.len(),
    ensures
        retained(s, keep) == kept_items(s, keep),
    decreases s.len(),
{
    if s.len() == 0 {
        reveal(Seq::filter);
        assert(indices(0) =~= Seq::<int>::empty());
        assert(kept_items(s, keep) =~= Seq::<T>::empty());
    } else {
        let n = s.len();
        let m = (n - 1) as nat;
        lemma_retained_keeps_exactly(s.drop_last(), keep);
        assert(indices(n) =~= indices(m).push(n - 1));
        indices(m).lemma_filter_push(n - 1, kept_at(keep));
        let f0 = indices(m).filter(kept_at(keep));
        assert forall|j: int| 0 <= j < f0.len() implies 0 <= #[trigger] f0[j] < m by {
            assert(f0.contains(f0[j]));
            indices(m).lemma_filter_contains_rev(kept_at(keep), f0[j]);
            let k = choose|k: int| 0 <= k < m && indices(m)[k] == f0[j];
        }
        let rest = f0.map_values(|i: int| s[i]);
        assert(rest =~= kept_items(s.drop_last(), keep));
        if keep[n - 1] {
            assert(kept_items(s, keep) =~= rest.push(s.last()));
        } else {
            assert(kept_items(s, keep) =~= rest);
        }
    }
}

/// The items of `s` whose entry in `keep` is true, in their order in `s`.
pub open spec fn retained<T>(s: Seq<T>, keep: Seq<bool>) -> Seq<T>
    decreases s.len(),
{
    if s.len() == 0 {
        Seq::empty()
    } else {
        let rest = retained(s.drop_last(), keep);
        if keep[s.len() - 1] {
            rest.push(s.last())
        } else {
            rest
        }
    }
}

impl<T, C: Compare<T>> BinaryHeap<T, C> {
    /// Generic constructor for `BinaryHeap` from a vector and a comparator;
    /// rebuilds the heap only where `rebuild` is true, so that a vector that
    /// already forms a heap in the order of `cmp` is taken as it is.
    pub fn from_vec_cmp_raw(vec: Vec<T>, cmp: C, rebuild: bool) -> (r: Self)
        requires
            cmp.can_compare(),
            !rebuild ==> (is_total_preorder(cmp) ==> is_heap(vec@, cmp)),
        ensures
            r.well_formed(),
            r.order() == cmp,
            r@.len() == vec@.len(),
            r@.to_multiset() == vec@.to_multiset(),
            !rebuild ==> r@ == vec@,
            rebuild && cmp.is_consistent() ==> r@ == rebuilt(vec@, cmp),
    {
        let mut heap = BinaryHeap { data: vec, comparator: cmp };
        if rebuild && heap.data.len() > 0 {
            heap.rebuild();
        }
        heap
    }

    /// Generic constructor for `BinaryHeap` from a vector and a comparator.
    pub fn from_vec_cmp(vec: Vec<T>, cmp: C) -> (r: Self)
        requires
            cmp.can_compare(),
        ensures
            r.well_formed(),
            r.order() == cmp,
            r@.len() == vec@.len(),
            r@.to_multiset() == vec@.to_multiset(),
            cmp.is_consistent() ==> r@ == rebuilt(vec@, cmp),
    {
        BinaryHeap::from_vec_cmp_raw(vec, cmp, true)
    }

    /// Replaces the comparator of the binary heap; rebuilds the heap only
    /// where `rebuild` is true, so that items that already form a heap in the
    /// order of `cmp` stay as they are.
    pub fn replace_cmp_raw(&mut self, cmp: C, rebuild: bool)
        requires
            cmp.can_compare(),
            !rebuild ==> (is_total_preorder(cmp) ==> is_heap(old(self)@, cmp)),
        ensures
            final(self).well_formed(),
            final(self).order() == cmp,
            final(self)@.len() == old(self)@.len(),
            final(self)@.to_multiset() == old(self)@.to_multiset(),
            !rebuild ==> final(self)@ == old(self)@,
            rebuild && cmp.is_consistent() ==> final(self)@ == rebuilt(old(self)@, cmp),
    {
        self.comparator = cmp;
        if rebuild && self.data.len() > 0 {
            self.rebuild();
        }
    }

    /// Replaces the comparator of the binary heap and rearranges the items in
    /// its order.
    pub fn replace_cmp(&mut self, cmp: C)
        requires
            cmp.can_compare(),
        ensures
            final(self).well_formed(),
            final(self).order() == cmp,
            final(self)@.len() == old(self)@.len(),
            final(self)@.to_multiset() == old(self)@.to_multiset(),
            cmp.is_consistent() ==> final(self)@ == rebuilt(old(self)@, cmp),
    {
        self.replace_cmp_raw(cmp, true);
    }

    /// Moves all the items of `other` into `self`, leaving `other` empty.
    /// The larger of the two heaps keeps its comparator and receives the
    /// items of the smaller one.
    pub fn append(&mut self, other: &mut Self)
        requires
            old(self).well_formed(),
            old(other).well_formed(),
        ensures
            final(self).well_formed(),
            final(other).well_formed(),
            final(self)@.len() == old(self)@.len() + old(other)@.len(),
            final(self)@.to_multiset() == old(self)@.to_multiset().add(old(other)@.to_multiset()),
            final(other)@.len() == 0,
            old(self)@.len() < old(other)@.len() ==> final(self).order() == old(other).order()
                && final(other).order() == old(self).order(),
            old(self)@.len() >= old(other)@.len() ==> final(self).order() == old(self).order()
                && final(other).order() == old(other).order(),
            old(self)@.len() < old(other)@.len() && old(other).order().is_consistent()
                ==> final(self)@ == rebuilt_tail(
                old(other)@ + old(self)@,
                old(other).order(),
                old(other)@.len() as int,
            ),
            old(self)@.len() >= old(other)@.len() && old(self).order().is_consistent()
                ==> final(self)@ == rebuilt_tail(
                old(self)@ + old(other)@,
                old(self).order(),
                old(self)@.len() as int,
            ),
    {
        broadcast use vstd::seq_lib::lemma_multiset_commutative;

        if self.data.len() < other.data.len() {
            std::mem::swap(self, other);
        }
        let ghost s = self.data@;
        let ghost o = other.data@;
        let start = self.data.len();
        self.data.append(&mut other.data);
        proof {
            let c = self.comparator;
            if is_total_preorder(c) {
                let t = self.data@;
                assert forall|i: int| 0 < i < start && 0 <= parent(i) implies #[trigger] below_parent(
                    t,
                    c,
                    i,
                ) by {
                    assert(below_parent(s, c, i));
                }
            }
            assert(self.data@.to_multiset() =~= s.to_multiset().add(o.to_multiset()));
        }
        self.rebuild_tail(start);
    }

    /// Retains only the items for which `f` returns true, and drops the
    /// others. `f` is called once on each item, in the order in which the
    /// heap stores them.
    pub fn retain<F: FnMut(&T) -> bool>(&mut self, mut f: F)
        requires
            old(self).well_formed(),
            forall|x: T| f.requires((&x,)),
        ensures
            final(self).well_formed(),
            final(self).order() == old(self).order(),
            final(self)@.len() <= old(self)@.len(),
            exists|keep: Seq<bool>|
                {
                    &&& keep.len() == old(self)@.len()
                    &&& forall|i: int|
                        0 <= i < keep.len() ==> f.ensures((&old(self)@[i],), #[trigger] keep[i])
                    &&& final(self)@.to_multiset() == #[trigger] retained(
                        old(self)@,
                        keep,
                    ).to_multiset()
                    &&& final(self)@.to_multiset() == kept_items(old(self)@, keep).to_multiset()
                    &&& (forall|i: int| 0 <= i < keep.len() ==> keep[i]) ==> final(self)@ == old(
                        self,
                    )@
                    &&& old(self).order().is_consistent() ==> final(self)@ == rebuilt_tail(
                        retained(old(self)@, keep),
                        old(self).order(),
                        first_dropped(keep),
                    )
                },
    {
        let ghost f0 = f;
        let ghost c = self.comparator;
        let ghost s0 = self.data@;
        let len = self.data.len();
        // Every decision is taken before any item moves, so that a closure that
        // panics leaves the heap as it was.
        let mut decisions: Vec<bool> = Vec::new();
        let mut i: usize = 0;
        while i < len
            invariant
                f == f0,
                forall|x: T| f.requires((&x,)),
                i <= len == self.data@.len(),
                self.data@ == s0,
                decisions@.len() == i,
                forall|k: int| 0 <= k < i ==> f.ensures((&s0[k],), #[trigger] decisions@[k]),
            decreases len - i,
        {
            let decision = f(&self.data[i]);
            decisions.push(decision);
            i += 1;
        }
        let mut rebuild_from = len;
        let mut w: usize = 0;
        let mut r: usize = 0;
        let ghost mut keep: Seq<bool> = Seq::empty();
        while r < len
            invariant
                decisions@.len() == len,
                forall|k: int| 0 <= k < len ==> f.ensures((&s0[k],), #[trigger] decisions@[k]),
                keep == decisions@.subrange(0, r as int),
                c == self.comparator,
                s0 == old(self).data@,
                c.can_compare(),
                is_total_preorder(c) ==> is_heap(s0, c),
                f == f0,
                forall|x: T| f.requires((&x,)),
                w <= r <= len == self.data@.len() == s0.len(),
                keep.len() == r,
                forall|i: int| 0 <= i < r ==> f.ensures((&s0[i],), #[trigger] keep[i]),
                self.data@.subrange(0, w as int) == retained(s0.subrange(0, r as int), keep),
                forall|k: int| r <= k < len ==> self.data@[k] == s0[k],
                rebuild_from <= len,
                rebuild_from == len ==> w == r,
                rebuild_from == (if first_dropped(keep) < r {
                    first_dropped(keep)
                } else {
                    len as int
                }),
                first_dropped(keep) <= r,
                first_dropped(keep) == r <==> forall|i: int| 0 <= i < r ==> keep[i],
                rebuild_from < len ==> rebuild_from <= w,
                forall|k: int| 0 <= k < w && k < rebuild_from ==> self.data@[k] == s0[k],
            decreases len - r,
        {
            let ghost before = self.data@;
            let keep_it = decisions[r];
            if keep_it {
                if w < r {
                    swap_items(&mut self.data, w, r);
                }
                w += 1;
            } else if rebuild_from == len {
                rebuild_from = r;
            }
            proof {
                let s1 = s0.subrange(0, r as int + 1);
                assert(s1.drop_last() =~= s0.subrange(0, r as int));
                let k1 = keep.push(keep_it);
                assert(k1.drop_last() =~= keep);
                assert(retained(s0.subrange(0, r as int), k1) == retained(
                    s0.subrange(0, r as int),
                    keep,
                )) by {
                    lemma_retained_prefix(s0.subrange(0, r as int), keep, k1);
                }
                assert(k1 =~= decisions@.subrange(0, r as int + 1));
                keep = k1;
                assert(self.data@.subrange(0, w as int) =~= retained(s1, keep));
            }
            r += 1;
        }
        let ghost kept = self.data@.subrange(0, w as int);
        self.data.truncate(w);
        proof {
            assert(s0.subrange(0, len as int) =~= s0);
            if is_total_preorder(c) {
                let t = self.data@;
                assert forall|i: int|
                    0 < i < rebuild_from && 0 <= parent(i) implies #[trigger] below_parent(t, c, i) by {
                    assert(below_parent(s0, c, i));
                }
            }
        }
        self.rebuild_tail(if rebuild_from < w {
            rebuild_from
        } else {
            w
        });
        proof {
            assert(kept == retained(s0, keep));
            assert(self.data@.to_multiset() == retained(old(self)@, keep).to_multiset());
            lemma_retained_keeps_exactly(old(self)@, keep);
            if forall|i: int| 0 <= i < keep.len() ==> keep[i] {
                assert(self.data@ =~= old(self)@);
            }
        }
    }

    /// Pushes each item of `items` onto the heap, in order.
    pub fn extend(&mut self, items: Vec<T>)
        requires
            old(self).well_formed(),
            old(self)@.len() + items@.len() <= usize::MAX,
            (old(self)@.len() + items@.len()) * vstd::layout::size_of::<T>() <= isize::MAX,
        ensures
            final(self).well_formed(),
            final(self).order() == old(self).order(),
            final(self)@.len() == old(self)@.len() + items@.len(),
            final(self)@.to_multiset() == old(self)@.to_multiset().add(items@.to_multiset()),
            old(self).order().is_consistent() ==> final(self)@ == pushed_all(
                old(self)@,
                old(self).order(),
                items@,
            ),
    {
        broadcast use vstd::seq_lib::to_multiset_build, vstd::seq_lib::lemma_multiset_commutative;

        let ghost s0 = self@;
        let ghost all = items@;
        self.reserve(items.len());
        let mut items = items;
        let mut rest = crate::iter::move_into_deque(&mut items);
        let mut taken: usize = 0;
        proof {
            assert(all.subrange(0, 0) =~= Seq::<T>::empty());
            assert(s0.to_multiset().add(Seq::<T>::empty().to_multiset()) =~= s0.to_multiset()) by {
                broadcast use
                    vstd::multiset::group_multiset_axioms,
                    vstd::multiset::group_multiset_properties,
                    vstd::seq_lib::group_to_multiset_ensures,
                ;

                assert(Seq::<T>::empty().to_multiset().len() == 0);
            }
        }
        while rest.len() > 0
            invariant
                self.well_formed(),
                self.order() == old(self).order(),
                taken + rest@.len() == all.len(),
                all.len() <= usize::MAX,
                rest@ == all.subrange(taken as int, all.len() as int),
                self@.len() == s0.len() + taken,
                self@.to_multiset() == s0.to_multiset().add(all.subrange(0, taken as int).to_multiset()),
                old(self).order().is_consistent() ==> pushed_all(self@, self.order(), rest@)
                    == pushed_all(s0, self.order(), all),
            decreases rest@.len(),
        {
            let item = rest.pop_front().unwrap();
            proof {
                let a = all.subrange(0, taken as int);
                assert(all.subrange(0, taken as int + 1) =~= a.push(item));
                assert(rest@ =~= all.subrange(taken as int, all.len() as int).drop_first());
                vstd::seq_lib::to_multiset_build(a, item);
            }
            let ghost before = self@;
            self.push(item);
            proof {
                broadcast use vstd::multiset::group_multiset_axioms;

                assert(self@.to_multiset() =~= s0.to_multiset().add(
                    all.subrange(0, taken as int + 1).to_multiset(),
                ));
            }
            taken += 1;
        }
        proof {
            assert(all.subrange(0, taken as int) =~= all);
        }
    }
}

impl<T, C: Compare<T> + Default> BinaryHeap<T, C> {
    /// Generic constructor for `BinaryHeap` from a vector, with the
    /// comparator's default value.
    pub fn from_vec(vec: Vec<T>) -> (r: Self)
        requires
            forall|c: C| call_ensures(C::default, (), c) ==> #[trigger] c.can_compare(),
        ensures
            call_ensures(C::default, (), r.order()),
            r.order().is_consistent() ==> r@ == rebuilt(vec@, r.order()),
            r.well_formed(),
            r@.len() == vec@.len(),
            r@.to_multiset() == vec@.to_multiset(),
    {
        BinaryHeap::from_vec_cmp(vec, C::default())
    }
}

impl<T: Ord> BinaryHeap<T> {
    /// Creates an empty `BinaryHeap`, a max-heap.
    pub fn new() -> (r: Self)
        ensures
            r.well_formed(),
            r.order() == MaxComparator,
            r@.len() == 0,
    {
        BinaryHeap::from_vec(Vec::new())
    }

    /// Creates an empty `BinaryHeap`, a max-heap, with room for `capacity`
    /// items before it reallocates.
    pub fn with_capacity(capacity: usize) -> (r: Self)
        requires
            capacity * vstd::layout::size_of::<T>() <= isize::MAX,
        ensures
            r.well_formed(),
            r.order() == MaxComparator,
            r@.len() == 0,
    {
        BinaryHeap::from_vec(Vec::with_capacity(capacity))
    }
}

impl<T: Ord> BinaryHeap<T, MinComparator> {
    /// Creates an empty `BinaryHeap`, a min-heap.
    pub fn new_min() -> (r: Self)
        ensures
            r.well_formed(),
            r.order() == MinComparator,
            r@.len() == 0,
    {
        BinaryHeap::from_vec(Vec::new())
    }

    /// Creates an empty `BinaryHeap`, a min-heap, with room for `capacity`
    /// items before it reallocates.
    pub fn with_capacity_min(capacity: usize) -> (r: Self)
        requires
            capacity * vstd::layout::size_of::<T>() <= isize::MAX,
        ensures
            r.well_formed(),
            r.order() == MinComparator,
            r@.len() == 0,
    {
        BinaryHeap::from_vec(Vec::with_capacity(capacity))
    }
}

impl<T, F: Fn(&T, &T) -> Order> BinaryHeap<T, FnComparator<F>> {
    /// Creates an empty `BinaryHeap`, ordered by the closure `f`.
    pub fn new_by(f: F) -> (r: Self)
        requires
            forall|a: T, b: T| #[trigger] f.requires((&a, &b)),
        ensures
            r.well_formed(),
            r.order() == FnComparator(f),
            r@.len() == 0,
    {
        BinaryHeap::from_vec_cmp(Vec::new(), FnComparator(f))
    }

    /// Creates an empty `BinaryHeap`, ordered by the closure `f`, with room
    /// for `capacity` items before it reallocates.
    pub fn with_capacity_by(capacity: usize, f: F) -> (r: Self)
        requires
            capacity * vstd::layout::size_of::<T>() <= isize::MAX,
            forall|a: T, b: T| #[trigger] f.requires((&a, &b)),
        ensures
            r.well_formed(),
            r.order() == FnComparator(f),
            r@.len() == 0,
    {
        BinaryHeap::from_vec_cmp(Vec::with_capacity(capacity), FnComparator(f))
    }
}

impl<T, F: Fn(&T) -> K, K: Ord> BinaryHeap<T, KeyComparator<F>> {
    /// Creates an empty `BinaryHeap`, ordered by the key that the closure `f`
    /// computes.
    pub fn new_by_key(f: F) -> (r: Self)
        requires
            forall|a: T| #[trigger] f.requires((&a,)),
        ensures
            r.well_formed(),
            r.order() == KeyComparator(f),
            r@.len() == 0,
    {
        BinaryHeap::from_vec_cmp(Vec::new(), KeyComparator(f))
    }

    /// Creates an empty `BinaryHeap`, ordered by the key that the closure `f`
    /// computes, with room for `capacity` items before it reallocates.
    pub fn with_capacity_by_key(capacity: usize, f: F) -> (r: Self)
        requires
            capacity * vstd::layout::size_of::<T>() <= isize::MAX,
            forall|a: T| #[trigger] f.requires((&a,)),
        ensures
            r.well_formed(),
            r.order() == KeyComparator(f),
            r@.len() == 0,
    {
        BinaryHeap::from_vec_cmp(Vec::with_capacity(capacity), KeyComparator(f))
    }
}

impl<T: Ord> Default for BinaryHeap<T> {
    /// Creates an empty `BinaryHeap`, a max-heap.
    fn default() -> (r: Self)
        ensures
            r.well_formed(),
            r.order() == MaxComparator,
            r@.len() == 0,
    {
        BinaryHeap::new()
    }
}

impl<T, C: Compare<T>> BinaryHeap<T, C> {
    /// Returns the greatest item in the binary heap, or `None` if it is
    /// empty.
    pub fn peek(&self) -> (r: Option<&T>)
        ensures
            self@.len() == 0 ==> r is None,
            self@.len() > 0 ==> r == Some(&self@[0]),
            self.well_formed() && is_total_preorder(self.order()) && self@.len() > 0 ==> forall|
                y: T,
            | self@.contains(y) ==> self.order().le(y, self@[0]),
    {
        proof {
            if self.well_formed() && is_total_preorder(self.order()) && self@.len() > 0 {
                lemma_heap_top(self@, self.order());
            }
        }
        if self.data.len() == 0 {
            None
        } else {
            Some(&self.data[0])
        }
    }

    /// A mutable reference to the item at the top of a non-empty heap. Until
    /// [`BinaryHeap::restore_top`] is called, the heap property may fail
    /// between the top and its children.
    pub fn top_mut(&mut self) -> (r: &mut T)
        requires
            old(self)@.len() > 0,
        ensures
            *r == old(self)@[0],
            final(self)@ == old(self)@.update(0, *final(r)),
            final(self).order() == old(self).order(),
    {
        &mut self.data[0]
    }

    /// Moves the item at the top down to its place, after it was changed
    /// through [`BinaryHeap::top_mut`].
    pub fn restore_top(&mut self)
        requires
            old(self)@.len() > 0,
            old(self).order().can_compare(),
            is_total_preorder(old(self).order()) ==> sinking(
                old(self)@,
                old(self).order(),
                0,
                old(self)@.len() as int,
                0,
            ),
        ensures
            final(self).well_formed(),
            final(self).order() == old(self).order(),
            final(self)@.len() == old(self)@.len(),
            final(self)@.to_multiset() == old(self)@.to_multiset(),
            old(self).order().is_consistent() ==> final(self)@ == sifted_down(
                old(self)@,
                old(self).order(),
                0,
                old(self)@.len() as int,
            ),
    {
        self.sift_down(0);
        proof {
            let c = self.comparator;
            if is_total_preorder(c) {
                let t = self.data@;
                assert forall|i: int|
                    0 < i < t.len() && 0 <= parent(i) implies #[trigger] below_parent(t, c, i) by {
                    lemma_in_subtree_root(parent(i));
                }
            }
        }
    }

    /// The top of a heap ordered by a total preorder is an item that no
    /// other item exceeds: what `peek` returns, and `pop` removes.
    pub proof fn lemma_top_is_greatest(&self)
        requires
            self.well_formed(),
            is_total_preorder(self.order()),
            self@.len() > 0,
        ensures
            forall|y: T| self@.contains(y) ==> self.order().le(y, self@[0]),
    {
        lemma_heap_top(self@, self.order());
    }

    /// Changing the item at the top of a heap breaks the heap property at
    /// most between the top and its children.
    pub proof fn lemma_top_changed(&self, x: T)
        requires
            self.well_formed(),
            self@.len() > 0,
        ensures
            is_total_preorder(self.order()) ==> sinking(
                self@.update(0, x),
                self.order(),
                0,
                self@.len() as int,
                0,
            ),
    {
        let c = self.order();
        if is_total_preorder(c) {
            let s = self@;
            let t = s.update(0, x);
            assert forall|i: int|
                0 < i < s.len() && 0 <= parent(i) && parent(i) != 0 implies #[trigger] below_parent(
                t,
                c,
                i,
            ) by {
                assert(below_parent(s, c, i));
            }
        }
    }
}

impl<T: Ord> From<Vec<T>> for BinaryHeap<T> {
    /// Converts a vector into a max-heap, in place.
    fn from(vec: Vec<T>) -> (r: Self)
        ensures
            r.well_formed(),
            r.order() == MaxComparator,
            r@.len() == vec@.len(),
            r@.to_multiset() == vec@.to_multiset(),
            T::obeys_cmp_spec() ==> r@ == rebuilt(vec@, MaxComparator),
    {
        BinaryHeap::from_vec(vec)
    }
}

impl<T: Ord> vstd::std_specs::convert::FromSpecImpl<Vec<T>> for BinaryHeap<T> {
    /// The result is stated by the `ensures` of `from` above, which a spec
    /// of the whole value cannot take the place of: a vector is not built in
    /// spec code.
    open spec fn obeys_from_spec() -> bool {
        false
    }

    open spec fn from_spec(v: Vec<T>) -> BinaryHeap<T> {
        choose|h: BinaryHeap<T>| h@ == rebuilt(v@, MaxComparator) && h.order() == MaxComparator
    }
}

impl<T: Ord, const N: usize> From<[T; N]> for BinaryHeap<T> {
    /// Converts an array into a max-heap.
    fn from(arr: [T; N]) -> (r: Self)
        ensures
            r.well_formed(),
            r.order() == MaxComparator,
            r@.len() == arr@.len(),
            r@.to_multiset() == arr@.to_multiset(),
            T::obeys_cmp_spec() ==> r@ == rebuilt(arr@, MaxComparator),
    {
        BinaryHeap::from_vec(vec_from_array(arr))
    }
}

impl<T: Ord, const N: usize> vstd::std_specs::convert::FromSpecImpl<[T; N]> for BinaryHeap<T> {
    /// The result is stated by the `ensures` of `from` above.
    open spec fn obeys_from_spec() -> bool {
        false
    }

    open spec fn from_spec(v: [T; N]) -> BinaryHeap<T> {
        choose|h: BinaryHeap<T>| h@ == rebuilt(v@, MaxComparator) && h.order() == MaxComparator
    }
}

} // verus!
