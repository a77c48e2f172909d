//! A priority queue implemented with a binary heap, ordered by a comparator.
//!
//! Insertion and popping the largest item take *O*(log(*n*)) time, peeking
//! at it *O*(1). A vector becomes a heap in place in *O*(*n*), and a heap
//! becomes a sorted vector in place (heapsort).
pub mod binary_heap;
pub mod heap_order;
pub mod iter;
pub mod layout;
pub mod order;
mod vec_ext;

pub use crate::binary_heap::BinaryHeap;
pub use crate::iter::{Drain, IntoIter, IntoIterSorted, Iter};
pub use crate::order::{
    order_of, Compare, FnComparator, KeyComparator, MaxComparator,
    MinComparator, Order,
};
