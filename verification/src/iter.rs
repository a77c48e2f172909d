//! Iterators over the items of a `BinaryHeap`.
use crate::binary_heap::BinaryHeap;
use crate::layout::top_removed;
use crate::order::{is_total_preorder, Compare};
use std::collections::VecDeque;
use std::marker::PhantomData;
use vstd::prelude::*;

verus! {

/// Moves the items of `v`, in order, into a double-ended queue, and leaves
/// `v` empty with its allocation.
pub(crate) fn move_into_deque<T>(v: &mut Vec<T>) -> (r: VecDeque<T>)
    ensures
        r@ == old(v)@,
        final(v)@.len() == 0,
{
    let ghost s = v@;
    let mut r: VecDeque<T> = VecDeque::new();
    while v.len() > 0
        invariant
            v@ + r@ == s,
        decreases v@.len(),
    {
        let ghost before = v@;
        let x = v.pop().unwrap();
        r.push_front(x);
        proof {
            assert(before =~= v@.push(x));
            assert(v@ + r@ =~= before + (r@.subrange(1, r@.len() as int)));
        }
    }
    proof {
        assert(v@ + r@ =~= r@);
    }
    r
}

/// An iterator over the items of a `BinaryHeap`, in the order in which the
/// heap stores them.
///
/// This `struct` is created by [`BinaryHeap::iter()`].
#[derive(Debug)]
pub struct Iter<'a, T> {
    items: &'a [T],
    front: usize,
    back: usize,
}

impl<'a, T> Iter<'a, T> {
    #[verifier::type_invariant]
    spec fn in_bounds(&self) -> bool {
        self.front <= self.back <= self.items@.len()
    }

    /// The items that the iterator has yet to yield, front first.
    pub closed spec fn remaining(&self) -> Seq<T> {
        self.items@.subrange(self.front as int, self.back as int)
    }

    /// A second iterator over the same items, at the same place.
    pub fn clone(&self) -> (r: Self)
        ensures
            r.remaining() == self.remaining(),
    {
        proof {
            use_type_invariant(self);
        }
        Iter { items: self.items, front: self.front, back: self.back }
    }

    pub(crate) fn new(items: &'a [T]) -> (r: Self)
        ensures
            r.remaining() == items@,
    {
        let r = Iter { items, front: 0, back: items.len() };
        assert(r.remaining() =~= items@);
        r
    }

    /// Yields the next item from the front.
    pub fn next(&mut self) -> (r: Option<&'a T>)
        ensures
            old(self).remaining().len() == 0 ==> r is None && final(self).remaining()
                == old(self).remaining(),
            old(self).remaining().len() > 0 ==> r == Some(&old(self).remaining()[0])
                && final(self).remaining() == old(self).remaining().drop_first(),
    {
        proof {
            use_type_invariant(&*self);
        }
        if self.front < self.back {
            let item = &self.items[self.front];
            self.front = self.front + 1;
            assert(self.remaining() =~= old(self).remaining().drop_first());
            Some(item)
        } else {
            None
        }
    }

    /// Yields the next item from the back.
    pub fn next_back(&mut self) -> (r: Option<&'a T>)
        ensures
            old(self).remaining().len() == 0 ==> r is None && final(self).remaining()
                == old(self).remaining(),
            old(self).remaining().len() > 0 ==> r == Some(
                &old(self).remaining()[old(self).remaining().len() - 1],
            ) && final(self).remaining() == old(self).remaining().drop_last(),
    {
        proof {
            use_type_invariant(&*self);
        }
        if self.front < self.back {
            self.back = self.back - 1;
            assert(self.remaining() =~= old(self).remaining().drop_last());
            Some(&self.items[self.back])
        } else {
            None
        }
    }

    /// The number of items left, as a lower and an upper bound.
    pub fn size_hint(&self) -> (r: (usize, Option<usize>))
        ensures
            r.0 == self.remaining().len(),
            r.1 == Some(r.0),
    {
        proof {
            use_type_invariant(self);
        }
        (self.back - self.front, Some(self.back - self.front))
    }

    /// The last item, if any.
    pub fn last(self) -> (r: Option<&'a T>)
        ensures
            self.remaining().len() == 0 ==> r is None,
            self.remaining().len() > 0 ==> r == Some(
                &self.remaining()[self.remaining().len() - 1],
            ),
    {
        proof {
            use_type_invariant(&self);
        }
        if self.front < self.back {
            Some(&self.items[self.back - 1])
        } else {
            None
        }
    }
}

/// An owning iterator over the items of a `BinaryHeap`, in the order in
/// which the heap stored them.
///
/// This `struct` is created by [`BinaryHeap::into_iter()`].
#[derive(Clone, Debug)]
pub struct IntoIter<T> {
    items: VecDeque<T>,
}

impl<T> IntoIter<T> {
    /// The items that the iterator has yet to yield, front first.
    pub closed spec fn remaining(&self) -> Seq<T> {
        self.items@
    }

    pub(crate) fn new(items: Vec<T>) -> (r: Self)
        ensures
            r.remaining() == items@,
    {
        let mut items = items;
        IntoIter { items: move_into_deque(&mut items) }
    }

    /// Yields the next item from the front.
    pub fn next(&mut self) -> (r: Option<T>)
        ensures
            old(self).remaining().len() == 0 ==> r is None && final(self).remaining()
                == old(self).remaining(),
            old(self).remaining().len() > 0 ==> r == Some(old(self).remaining()[0])
                && final(self).remaining() == old(self).remaining().drop_first(),
    {
        self.items.pop_front()
    }

    /// Yields the next item from the back.
    pub fn next_back(&mut self) -> (r: Option<T>)
        ensures
            old(self).remaining().len() == 0 ==> r is None && final(self).remaining()
                == old(self).remaining(),
            old(self).remaining().len() > 0 ==> r == Some(
                old(self).remaining()[old(self).remaining().len() - 1],
            ) && final(self).remaining() == old(self).remaining().drop_last(),
    {
        self.items.pop_back()
    }

    /// The number of items left, as a lower and an upper bound.
    pub fn size_hint(&self) -> (r: (usize, Option<usize>))
        ensures
            r.0 == self.remaining().len(),
            r.1 == Some(r.0),
    {
        let n = self.items.len();
        (n, Some(n))
    }
}

/// A draining iterator over the items of a `BinaryHeap`, in the order in
/// which the heap stored them.
///
/// This `struct` is created by [`BinaryHeap::drain()`].
#[derive(Debug)]
pub struct Drain<'a, T> {
    items: VecDeque<T>,
    borrow: PhantomData<&'a T>,
}

impl<'a, T> Drain<'a, T> {
    /// The items that the iterator has yet to yield, front first.
    pub closed spec fn remaining(&self) -> Seq<T> {
        self.items@
    }

    pub(crate) fn new(items: VecDeque<T>) -> (r: Self)
        ensures
            r.remaining() == items@,
    {
        Drain { items, borrow: PhantomData }
    }

    /// Yields the next item from the front.
    pub fn next(&mut self) -> (r: Option<T>)
        ensures
            old(self).remaining().len() == 0 ==> r is None && final(self).remaining()
                == old(self).remaining(),
            old(self).remaining().len() > 0 ==> r == Some(old(self).remaining()[0])
                && final(self).remaining() == old(self).remaining().drop_first(),
    {
        self.items.pop_front()
    }

    /// Yields the next item from the back.
    pub fn next_back(&mut self) -> (r: Option<T>)
        ensures
            old(self).remaining().len() == 0 ==> r is None && final(self).remaining()
                == old(self).remaining(),
            old(self).remaining().len() > 0 ==> r == Some(
                old(self).remaining()[old(self).remaining().len() - 1],
            ) && final(self).remaining() == old(self).remaining().drop_last(),
    {
        self.items.pop_back()
    }

    /// The number of items left, as a lower and an upper bound.
    pub fn size_hint(&self) -> (r: (usize, Option<usize>))
        ensures
            r.0 == self.remaining().len(),
            r.1 == Some(r.0),
    {
        let n = self.items.len();
        (n, Some(n))
    }
}

/// An iterator that retrieves the items of a heap in heap order, greatest
/// first. It consumes the heap.
///
/// This `struct` is created by [`BinaryHeap::into_iter_sorted()`].
#[derive(Clone, Debug)]
pub struct IntoIterSorted<T, C> {
    inner: BinaryHeap<T, C>,
}

impl<T, C> IntoIterSorted<T, C> {
    /// The heap that holds the items yet to be yielded.
    pub closed spec fn heap(&self) -> BinaryHeap<T, C> {
        self.inner
    }

    pub(crate) fn new(inner: BinaryHeap<T, C>) -> (r: Self)
        ensures
            r.heap() == inner,
    {
        IntoIterSorted { inner }
    }

    /// The number of items left, as a lower and an upper bound.
    pub fn size_hint(&self) -> (r: (usize, Option<usize>))
        ensures
            r.0 == self.heap()@.len(),
            r.1 == Some(r.0),
    {
        let exact = self.inner.len();
        (exact, Some(exact))
    }
}

impl<T, C: Compare<T>> IntoIterSorted<T, C> {
    /// Yields the greatest item left.
    pub fn next(&mut self) -> (r: Option<T>)
        requires
            old(self).heap().well_formed(),
        ensures
            ({
                let before = old(self).heap();
                let after = final(self).heap();
                &&& after.well_formed()
                &&& after.order() == before.order()
                &&& before@.len() == 0 ==> r is None && after@ == before@
                &&& before@.len() > 0 ==> r == Some(before@[0]) && after@.len() == before@.len() - 1
                    && before@.to_multiset() == after@.to_multiset().insert(r->0)
                &&& before@.len() > 0 && before.order().is_consistent() ==> after@ == top_removed(
                    before@,
                    before.order(),
                )
                &&& before@.len() > 0 && is_total_preorder(before.order()) ==> forall|y: T|
                    before@.contains(y) ==> before.order().le(y, r->0)
                &&& before@.len() > 0 && is_total_preorder(before.order()) ==> forall|y: T|
                    after@.contains(y) ==> before.order().le(y, r->0)
            }),
    {
        self.inner.pop()
    }

    /// Collects the items left, greatest first.
    pub fn collect(self) -> (r: Vec<T>)
        requires
            self.heap().well_formed(),
        ensures
            r@.len() == self.heap()@.len(),
            r@.to_multiset() == self.heap()@.to_multiset(),
            is_total_preorder(self.heap().order()) ==> forall|i: int, j: int|
                0 <= i < j < r@.len() ==> self.heap().order().le(#[trigger] r@[j], #[trigger] r@[i]),
    {
        broadcast use
            vstd::seq_lib::to_multiset_build,
            vstd::seq_lib::to_multiset_contains,
            vstd::multiset::group_multiset_axioms,
        ;

        let ghost c = self.heap().order();
        let ghost s0 = self.heap()@;
        let mut it = self;
        let mut out: Vec<T> = Vec::new();
        proof {
            assert(out@.to_multiset().add(s0.to_multiset()) =~= s0.to_multiset()) by {
                broadcast use vstd::multiset::group_multiset_properties, vstd::seq_lib::to_multiset_len;

                assert(out@.to_multiset().len() == 0);
            }
        }
        while it.inner.len() > 0
            invariant
                it.heap().well_formed(),
                it.heap().order() == c,
                out@.len() + it.heap()@.len() == s0.len(),
                out@.to_multiset().add(it.heap()@.to_multiset()) == s0.to_multiset(),
                is_total_preorder(c) ==> forall|i: int, j: int|
                    0 <= i < j < out@.len() ==> c.le(#[trigger] out@[j], #[trigger] out@[i]),
                is_total_preorder(c) ==> forall|i: int, y: T|
                    0 <= i < out@.len() && it.heap()@.contains(y) ==> #[trigger] c.le(y, out@[i]),
            decreases it.heap()@.len(),
        {
            let ghost before = it.heap()@;
            let ghost old_out = out@;
            let x = it.next().unwrap();
            out.push(x);
            proof {
                let after = it.heap()@;
                assert(before.to_multiset() == after.to_multiset().insert(x));
                vstd::seq_lib::to_multiset_contains(before, x);
                assert(before.to_multiset().count(x) > 0);
                assert(before.contains(x));
                assert(out@ =~= old_out.push(x));
                vstd::seq_lib::to_multiset_build(old_out, x);
                assert(out@.to_multiset() =~= old_out.to_multiset().insert(x));
                assert(out@.to_multiset().add(after.to_multiset()) =~= s0.to_multiset());
                if is_total_preorder(c) {
                    assert forall|i: int, j: int|
                        0 <= i < j < out@.len() implies c.le(#[trigger] out@[j], #[trigger] out@[i]) by {
                        if j == out@.len() - 1 {
                            assert(out@[i] == old_out[i]);
                        } else {
                            assert(out@[i] == old_out[i] && out@[j] == old_out[j]);
                        }
                    }
                    assert forall|i: int, y: T|
                        0 <= i < out@.len() && after.contains(y) implies #[trigger] c.le(y, out@[i]) by {
                        vstd::seq_lib::to_multiset_contains(after, y);
                        vstd::seq_lib::to_multiset_contains(before, y);
                        assert(after.to_multiset().count(y) > 0);
                        assert(before.to_multiset().count(y) > 0);
                        assert(before.contains(y));
                        if i < old_out.len() {
                            assert(out@[i] == old_out[i]);
                        }
                    }
                }
            }
        }
        proof {
            assert(it.heap()@.to_multiset() =~= vstd::multiset::Multiset::<T>::empty()) by {
                broadcast use vstd::multiset::group_multiset_properties, vstd::seq_lib::to_multiset_len;

                assert(it.heap()@.to_multiset().len() == 0);
            }
            assert(out@.to_multiset() =~= s0.to_multiset());
        }
        out
    }
}

} // verus!
