# binary-heap-plus, verified

A priority queue implemented with a binary heap, generic over the item type
and over a comparator, with its behaviour stated in Verus contracts and proved.

- `src/order.rs`: the `Compare` trait, the comparators `MaxComparator`,
  `MinComparator`, `FnComparator` and `KeyComparator`, and the proofs that the
  max and min comparators are total preorders on integer-like types.
- `src/heap_order.rs`: the heap property of a sequence laid out as an implicit
  binary tree, the partial forms it takes while an item sifts, and lemmas.
- `src/binary_heap.rs`: `BinaryHeap` and its operations (push, pop, peek,
  heapify, heapsort, append, retain, ...).
- `src/iter.rs`: `Iter`, `IntoIter`, `Drain` and `IntoIterSorted`.
- `src/vec_ext.rs`: the `Vec` capacity methods that vstd does not specify.
- `app/lib.rs`: `PeekMut` (which needs `Drop` and `DerefMut`), an adapter for
  comparators of the `compare` crate, and serde copies of the heap types.

Every operation keeps the multiset of items whatever the comparator answers;
where the comparator is a total preorder, the items form a heap, `pop` and
`peek` give an item that no other item exceeds, and `into_sorted_vec` returns
the items sorted.
