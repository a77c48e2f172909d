//! The arrangement of items that each heap operation leaves, step by step as
//! the operation moves them, for a comparator that answers consistently.
use crate::heap_order::parent;
use crate::order::Compare;
use vstd::prelude::*;

verus! {

/// `s` with the items at `i` and `j` exchanged.
pub open spec fn swapped<T>(s: Seq<T>, i: int, j: int) -> Seq<T> {
    s.update(i, s[j]).update(j, s[i])
}

/// The child of `p` that sifting follows: the second where the first is
/// ordered no later than it, else the first.
pub open spec fn larger_child<T, C: Compare<T>>(s: Seq<T>, c: C, p: int) -> int {
    if c.le(s[2 * p + 1], s[2 * p + 2]) {
        2 * p + 2
    } else {
        2 * p + 1
    }
}

/// Sifting up: while the item at `p` lies below `start` and exceeds its
/// parent, it changes places with the parent. Gives the arrangement and
/// where the item comes to rest.
pub open spec fn sifted_up<T, C: Compare<T>>(s: Seq<T>, c: C, start: int, p: int) -> (Seq<T>, int)
    decreases p,
{
    if 0 <= start < p < s.len() && !c.le(s[p], s[parent(p)]) {
        sifted_up(swapped(s, parent(p), p), c, start, parent(p))
    } else {
        (s, p)
    }
}

/// Sifting down within the first `end` items: while the item at `p` has two
/// children and the one that sifting follows exceeds it, they change places;
/// an only child that exceeds it changes places with it last.
pub open spec fn sifted_down<T, C: Compare<T>>(s: Seq<T>, c: C, p: int, end: int) -> Seq<T>
    decreases end - p,
{
    if 0 <= p && 2 * p + 2 < end <= s.len() {
        let m = larger_child(s, c, p);
        if c.le(s[m], s[p]) {
            s
        } else {
            sifted_down(swapped(s, p, m), c, m, end)
        }
    } else if 0 <= p && 2 * p + 2 == end <= s.len() && !c.le(s[end - 1], s[p]) {
        swapped(s, p, end - 1)
    } else {
        s
    }
}

/// Carrying the item at `p` down to a leaf, always towards the child that
/// sifting follows. Gives the arrangement and the leaf.
pub open spec fn carried_down<T, C: Compare<T>>(s: Seq<T>, c: C, p: int) -> (Seq<T>, int)
    decreases s.len() - p,
{
    if 0 <= p && 2 * p + 2 < s.len() {
        carried_down(swapped(s, p, larger_child(s, c, p)), c, larger_child(s, c, p))
    } else if 0 <= p && 2 * p + 2 == s.len() {
        (swapped(s, p, s.len() - 1), s.len() - 1)
    } else {
        (s, p)
    }
}

/// The item at `p` carried down to a leaf and sifted back up, no higher than `p`.
pub open spec fn sifted_down_to_bottom<T, C: Compare<T>>(s: Seq<T>, c: C, p: int) -> Seq<T> {
    sifted_up(carried_down(s, c, p).0, c, p, carried_down(s, c, p).1).0
}

/// Sifting down each of the nodes before `n`, from the last to the first.
pub open spec fn rebuilt_from<T, C: Compare<T>>(s: Seq<T>, c: C, n: int) -> Seq<T>
    decreases n,
{
    if n <= 0 {
        s
    } else {
        rebuilt_from(sifted_down(s, c, n - 1, s.len() as int), c, n - 1)
    }
}

/// A heap built from the ground up: every node that has a child sifted down,
/// the last first.
pub open spec fn rebuilt<T, C: Compare<T>>(s: Seq<T>, c: C) -> Seq<T> {
    rebuilt_from(s, c, (s.len() / 2) as int)
}

/// Sifting up each of the items from `i` up to `len`, in order, each
/// towards the root.
pub open spec fn sifted_up_from<T, C: Compare<T>>(s: Seq<T>, c: C, i: int, len: int) -> Seq<T>
    decreases len - i,
{
    if 0 <= i < len {
        sifted_up_from(sifted_up(s, c, 0, i).0, c, i + 1, len)
    } else {
        s
    }
}

/// The integer part of the binary logarithm of `x`, for `x > 0`.
pub open spec fn log2_of(x: int) -> int {
    63 - vstd::std_specs::bits::u64_leading_zeros(x as u64)
}

/// Whether a heap whose items from `start` on are new is rebuilt from the
/// ground up rather than by sifting up each new item.
pub open spec fn better_to_rebuild(start: int, len: int) -> bool {
    let tail = len - start;
    if start < tail {
        true
    } else if len <= 2048 {
        2 * len < tail * log2_of(start)
    } else {
        2 * len < tail * 11
    }
}

/// A heap restored after new items were added from `start` on.
pub open spec fn rebuilt_tail<T, C: Compare<T>>(s: Seq<T>, c: C, start: int) -> Seq<T> {
    if start >= s.len() {
        s
    } else if better_to_rebuild(start, s.len() as int) {
        rebuilt(s, c)
    } else {
        sifted_up_from(s, c, start, s.len() as int)
    }
}

/// A heap with `x` pushed: `x` added at the end and sifted up.
pub open spec fn pushed<T, C: Compare<T>>(s: Seq<T>, c: C, x: T) -> Seq<T> {
    sifted_up(s.push(x), c, 0, s.len() as int).0
}

/// A heap with the items of `xs` pushed one by one, in order.
pub open spec fn pushed_all<T, C: Compare<T>>(s: Seq<T>, c: C, xs: Seq<T>) -> Seq<T>
    decreases xs.len(),
{
    if xs.len() == 0 {
        s
    } else {
        pushed_all(pushed(s, c, xs[0]), c, xs.drop_first())
    }
}

/// A heap with its top removed: the last item takes the top's place and is
/// carried down and sifted back up.
pub open spec fn top_removed<T, C: Compare<T>>(s: Seq<T>, c: C) -> Seq<T> {
    if s.len() <= 1 {
        Seq::empty()
    } else {
        sifted_down_to_bottom(s.drop_last().update(0, s.last()), c, 0)
    }
}

} // verus!
