//! The heap property of a sequence laid out as an implicit binary tree, and
//! the partial forms of it that hold while an item is sifted up or down.
use crate::order::{is_total_preorder, Compare};
use vstd::prelude::*;

verus! {

/// Index of the parent of node `i`: the children of `p` are `2p + 1` and `2p + 2`.
pub open spec fn parent(i: int) -> int {
    (i - 1) / 2
}

/// Node `p` lies in the subtree rooted at node `r`.
pub open spec fn in_subtree(p: int, r: int) -> bool
    decreases p,
{
    if p <= r || r < 0 {
        p == r
    } else {
        in_subtree(parent(p), r)
    }
}

/// The parent of a node below the root of a subtree lies in that subtree.
pub proof fn lemma_subtree_parent(p: int, r: int)
    requires
        in_subtree(p, r),
        p > r >= 0,
    ensures
        in_subtree(parent(p), r),
        parent(p) >= r,
{
    let q = parent(p);
    assert(in_subtree(q, r));
    if q <= r {
        assert(q == r);
    }
}

/// Node `i` is ordered no later than its parent.
pub open spec fn below_parent<T, C: Compare<T>>(s: Seq<T>, c: C, i: int) -> bool {
    c.le(s[i], s[parent(i)])
}

/// Among the first `hi` nodes, every node whose parent lies at or after `lo`
/// is ordered no later than its parent.
pub open spec fn heap_between<T, C: Compare<T>>(s: Seq<T>, c: C, lo: int, hi: int) -> bool {
    forall|i: int| 0 < i < hi && lo <= parent(i) ==> #[trigger] below_parent(s, c, i)
}

/// `s` is a heap: every node is ordered no later than its parent.
pub open spec fn is_heap<T, C: Compare<T>>(s: Seq<T>, c: C) -> bool {
    heap_between(s, c, 0, s.len() as int)
}

/// The children of `p` that lie below `hi` are ordered no later than node `q`.
pub open spec fn children_below<T, C: Compare<T>>(s: Seq<T>, c: C, hi: int, p: int, q: int) -> bool {
    &&& 2 * p + 1 < hi ==> c.le(s[2 * p + 1], s[q])
    &&& 2 * p + 2 < hi ==> c.le(s[2 * p + 2], s[q])
}

/// The shape of the heap while the item at `p` sinks: every pair below `hi`
/// whose parent lies at or after `lo` is in order, except the pairs of `p` and
/// its children; those children are no later than the parent of `p`.
pub open spec fn sinking<T, C: Compare<T>>(s: Seq<T>, c: C, lo: int, hi: int, p: int) -> bool {
    &&& forall|i: int|
        0 < i < hi && lo <= parent(i) && parent(i) != p ==> #[trigger] below_parent(s, c, i)
    &&& p > lo ==> children_below(s, c, hi, p, parent(p))
}

/// Among the first `hi` nodes, every node whose parent lies in the subtree
/// rooted at `r` is ordered no later than its parent.
pub open spec fn subtree_heap<T, C: Compare<T>>(s: Seq<T>, c: C, r: int, hi: int) -> bool {
    forall|i: int| 0 < i < hi && in_subtree(parent(i), r) ==> #[trigger] below_parent(s, c, i)
}

/// The shape of the subtree rooted at `r` while the item at `p` sinks in it:
/// every pair below `hi` whose parent lies in that subtree is in order,
/// except the pairs of `p` and its children; those children are no later
/// than the parent of `p`.
pub open spec fn sinking_within<T, C: Compare<T>>(s: Seq<T>, c: C, r: int, hi: int, p: int) -> bool {
    &&& forall|i: int|
        0 < i < hi && in_subtree(parent(i), r) && parent(i) != p ==> #[trigger] below_parent(
            s,
            c,
            i,
        )
    &&& p > r ==> children_below(s, c, hi, p, parent(p))
}

/// The shape of the heap while the item at `p` rises: every pair below `hi`
/// whose parent lies at or after `lo` is in order, except that of `p` and its
/// parent; the children of `p` are no later than the parent of `p`.
pub open spec fn rising<T, C: Compare<T>>(s: Seq<T>, c: C, lo: int, hi: int, p: int) -> bool {
    &&& forall|i: int|
        0 < i < hi && lo <= parent(i) && i != p ==> #[trigger] below_parent(s, c, i)
    &&& p > lo ==> children_below(s, c, hi, p, parent(p))
}

/// The shape of the heap while the item at `p` is carried to the bottom:
/// every pair below `hi` whose parent lies at or after `lo` is in order,
/// except those that hold `p`; the children of `p` are no later than the
/// parent of `p`.
pub open spec fn descending<T, C: Compare<T>>(s: Seq<T>, c: C, lo: int, hi: int, p: int) -> bool {
    &&& forall|i: int|
        0 < i < hi && lo <= parent(i) && i != p && parent(i) != p ==> #[trigger] below_parent(
            s,
            c,
            i,
        )
    &&& p > lo ==> children_below(s, c, hi, p, parent(p))
}

/// Exchanging two items keeps the multiset of items.
pub proof fn lemma_swap_multiset<T>(s: Seq<T>, i: int, j: int)
    requires
        0 <= i < s.len(),
        0 <= j < s.len(),
    ensures
        s.update(i, s[j]).update(j, s[i]).to_multiset() =~= s.to_multiset(),
{
    broadcast use
        vstd::seq_lib::to_multiset_update,
        vstd::seq_lib::to_multiset_contains,
        vstd::multiset::group_multiset_axioms,
    ;

    if i == j {
        assert(s.update(i, s[j]).update(j, s[i]) =~= s);
    } else {
        let m = s.to_multiset();
        let s1 = s.update(i, s[j]);
        assert(s1[j] == s[j]);
        assert(s.contains(s[i]));
        assert(s1.contains(s[j]));
        assert(m.count(s[i]) > 0);
        assert(s1.to_multiset() == m.insert(s[j]).remove(s[i]));
        assert(s1.update(j, s[i]).to_multiset() == s1.to_multiset().insert(s[i]).remove(s[j]));
        assert(m.insert(s[j]).remove(s[i]).insert(s[i]).remove(s[j]) =~= m);
    }
}

/// Exchanging two items of a range keeps the multiset of the range.
pub proof fn lemma_swap_range_multiset<T>(s: Seq<T>, i: int, j: int, lo: int, hi: int)
    requires
        0 <= lo <= i < hi <= s.len(),
        lo <= j < hi,
    ensures
        s.update(i, s[j]).update(j, s[i]).subrange(lo, hi).to_multiset() =~= s.subrange(
            lo,
            hi,
        ).to_multiset(),
{
    let r = s.subrange(lo, hi);
    assert(s.update(i, s[j]).update(j, s[i]).subrange(lo, hi) =~= r.update(i - lo, r[j - lo]).update(
        j - lo,
        r[i - lo],
    ));
    lemma_swap_multiset(r, i - lo, j - lo);
}

/// Every node is in the subtree of the root.
pub proof fn lemma_in_subtree_root(p: int)
    requires
        p >= 0,
    ensures
        in_subtree(p, 0),
    decreases p,
{
    if p > 0 {
        lemma_in_subtree_root(parent(p));
    }
}

/// Where the first `hi` nodes form a heap ordered by a total preorder,
/// each of them is ordered no later than the root.
pub proof fn lemma_below_root<T, C: Compare<T>>(s: Seq<T>, c: C, hi: int, i: int)
    requires
        is_total_preorder(c),
        heap_between(s, c, 0, hi),
        0 <= i < hi <= s.len(),
    ensures
        c.le(s[i], s[0]),
    decreases i,
{
    if i == 0 {
        assert(c.le(s[0], s[0]));
    } else {
        let p = parent(i);
        assert(below_parent(s, c, i));
        lemma_below_root(s, c, hi, p);
        assert(c.le(s[i], s[p]) && c.le(s[p], s[0]));
    }
}

/// In a heap ordered by a total preorder, every item is ordered no later
/// than the item at the root.
pub proof fn lemma_heap_top<T, C: Compare<T>>(s: Seq<T>, c: C)
    requires
        is_total_preorder(c),
        is_heap(s, c),
        s.len() > 0,
    ensures
        forall|y: T| s.contains(y) ==> c.le(y, s[0]),
{
    assert forall|y: T| s.contains(y) implies c.le(y, s[0]) by {
        let k = choose|k: int| 0 <= k < s.len() && s[k] == y;
        lemma_below_root(s, c, s.len() as int, k);
    }
}

} // verus!
