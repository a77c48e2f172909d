use binary_heap_plus::{
    order_of, BinaryHeap, Compare, FnComparator, KeyComparator, MinComparator, Order,
};
use std::cmp::Ordering;

fn drain_iter<T, C: Compare<T>>(heap: &mut BinaryHeap<T, C>) -> Vec<T> {
    let mut out = Vec::new();
    while let Some(x) = heap.pop() {
        out.push(x);
    }
    out
}

#[test]
fn basic_usage() {
    let mut heap = BinaryHeap::new();
    assert_eq!(heap.peek(), None);
    heap.push(1);
    heap.push(5);
    heap.push(2);
    assert_eq!(heap.peek(), Some(&5));
    assert_eq!(heap.len(), 3);
    let mut seen = Vec::new();
    let mut it = heap.iter();
    while let Some(x) = it.next() {
        seen.push(*x);
    }
    seen.sort();
    assert_eq!(seen, vec![1, 2, 5]);
    assert_eq!(heap.pop(), Some(5));
    assert_eq!(heap.pop(), Some(2));
    assert_eq!(heap.pop(), Some(1));
    assert_eq!(heap.pop(), None);
    heap.clear();
    assert!(heap.is_empty());
}

#[test]
fn min_heap_pops_in_ascending_order() {
    let mut heap = BinaryHeap::new_min();
    heap.push(1);
    heap.push(5);
    heap.push(2);
    assert_eq!(heap.pop(), Some(1));
    assert_eq!(heap.pop(), Some(2));
    assert_eq!(heap.pop(), Some(5));
    assert_eq!(heap.pop(), None);
}

#[test]
fn new_pops_greatest() {
    let mut heap = BinaryHeap::new();
    heap.push(3);
    heap.push(1);
    heap.push(5);
    assert_eq!(heap.pop(), Some(5));
}

#[test]
fn with_capacity_holds_capacity() {
    let mut heap = BinaryHeap::with_capacity(10);
    assert!(heap.capacity() >= 10);
    heap.push(3);
    heap.push(1);
    heap.push(5);
    assert_eq!(heap.pop(), Some(5));
}

#[test]
fn new_min_pops_least() {
    let mut heap = BinaryHeap::new_min();
    heap.push(3);
    heap.push(1);
    heap.push(5);
    assert_eq!(heap.pop(), Some(1));
}

#[test]
fn with_capacity_min_pops_least() {
    let mut heap = BinaryHeap::with_capacity_min(10);
    assert!(heap.capacity() >= 10);
    heap.push(3);
    heap.push(1);
    heap.push(5);
    assert_eq!(heap.pop(), Some(1));
}

#[test]
fn new_by_orders_by_closure() {
    let mut heap = BinaryHeap::new_by(|a: &i32, b: &i32| order_of(b.cmp(a)));
    heap.push(3);
    heap.push(1);
    heap.push(5);
    assert_eq!(heap.pop(), Some(1));
}

#[test]
fn with_capacity_by_orders_by_closure() {
    let mut heap = BinaryHeap::with_capacity_by(10, |a: &i32, b: &i32| order_of(b.cmp(a)));
    assert!(heap.capacity() >= 10);
    heap.push(3);
    heap.push(1);
    heap.push(5);
    assert_eq!(heap.pop(), Some(1));
}

#[test]
fn new_by_key_orders_by_key() {
    let mut heap = BinaryHeap::new_by_key(|a: &i32| a % 4);
    heap.push(3);
    heap.push(1);
    heap.push(5);
    assert_eq!(heap.pop(), Some(3));
}

#[test]
fn with_capacity_by_key_orders_by_key() {
    let mut heap = BinaryHeap::with_capacity_by_key(10, |a: &i32| a % 4);
    assert!(heap.capacity() >= 10);
    heap.push(3);
    heap.push(1);
    heap.push(5);
    assert_eq!(heap.pop(), Some(3));
}

fn ascending(l: &i32, r: &i32) -> Order {
    order_of(r.cmp(l))
}

fn descending(l: &i32, r: &i32) -> Order {
    order_of(l.cmp(r))
}

struct Comparator {
    ascending: bool,
}

impl Compare<i32> for Comparator {
    fn can_compare(&self) -> bool {
        true
    }

    fn is_consistent(&self) -> bool {
        true
    }

    fn le(&self, l: i32, r: i32) -> bool {
        if self.ascending {
            r <= l
        } else {
            l <= r
        }
    }

    fn compares_le(&self, l: &i32, r: &i32) -> bool {
        self.le(*l, *r)
    }
}

#[test]
fn replace_cmp_with_a_comparator_of_ones_own() {
    let mut heap = BinaryHeap::from_vec_cmp(vec![3, 1, 5], Comparator { ascending: true });
    heap.replace_cmp(Comparator { ascending: false });
    let mut sorted = Vec::new();
    let mut it = heap.into_iter_sorted();
    while let Some(x) = it.next() {
        sorted.push(x);
    }
    assert_eq!(sorted, vec![5, 3, 1]);
}

#[test]
fn replace_cmp_reorders() {
    let mut heap = BinaryHeap::from_vec_cmp(
        vec![3, 1, 5],
        FnComparator(ascending as fn(&i32, &i32) -> Order),
    );
    assert_eq!(heap.peek(), Some(&1));
    heap.replace_cmp(FnComparator(descending as fn(&i32, &i32) -> Order));
    let mut sorted = Vec::new();
    let mut it = heap.into_iter_sorted();
    while let Some(x) = it.next() {
        sorted.push(x);
    }
    assert_eq!(sorted, vec![5, 3, 1]);
}

#[test]
fn replace_cmp_raw_without_rebuild_keeps_layout() {
    let mut heap = BinaryHeap::from_vec_cmp(
        vec![5, 3, 1],
        FnComparator(descending as fn(&i32, &i32) -> Order),
    );
    let layout: Vec<i32> = heap.clone().into_vec();
    heap.replace_cmp_raw(FnComparator(descending as fn(&i32, &i32) -> Order), false);
    assert_eq!(heap.into_vec(), layout);
}

#[test]
fn top_mut_then_restore_top() {
    let mut heap = BinaryHeap::new();
    heap.push(1);
    heap.push(5);
    heap.push(2);
    *heap.top_mut() = 0;
    heap.restore_top();
    assert_eq!(heap.peek(), Some(&2));
}

#[test]
fn pop_from_vec() {
    let mut heap: BinaryHeap<i32> = BinaryHeap::from_vec(vec![1, 3]);
    assert_eq!(heap.pop(), Some(3));
    assert_eq!(heap.pop(), Some(1));
    assert_eq!(heap.pop(), None);
}

#[test]
fn push_then_peek() {
    let mut heap = BinaryHeap::new();
    heap.push(3);
    heap.push(5);
    heap.push(1);
    assert_eq!(heap.len(), 3);
    assert_eq!(heap.peek(), Some(&5));
}

#[test]
fn into_sorted_vec_sorts() {
    let mut heap: BinaryHeap<i32> = BinaryHeap::from_vec(vec![1, 2, 4, 5, 7]);
    heap.push(6);
    heap.push(3);
    let vec = heap.into_sorted_vec();
    assert_eq!(vec, vec![1, 2, 3, 4, 5, 6, 7]);
}

#[test]
fn into_sorted_vec_of_min_heap_descends() {
    let heap: BinaryHeap<i32, MinComparator> = BinaryHeap::from_vec(vec![4, 9, 1, 7, 1]);
    assert_eq!(heap.into_sorted_vec(), vec![9, 7, 4, 1, 1]);
}

#[test]
fn append_moves_all_items() {
    let mut a: BinaryHeap<i32> = BinaryHeap::from_vec(vec![-10, 1, 2, 3, 3]);
    let mut b: BinaryHeap<i32> = BinaryHeap::from_vec(vec![-20, 5, 43]);
    a.append(&mut b);
    assert_eq!(a.into_sorted_vec(), vec![-20, -10, 1, 2, 3, 3, 5, 43]);
    assert!(b.is_empty());
}

#[test]
fn append_into_smaller_heap_takes_larger_comparator() {
    let mut small = BinaryHeap::from_vec_cmp(
        vec![2],
        FnComparator(ascending as fn(&i32, &i32) -> Order),
    );
    let mut large = BinaryHeap::from_vec_cmp(
        vec![1, 9, 4],
        FnComparator(descending as fn(&i32, &i32) -> Order),
    );
    small.append(&mut large);
    assert!(large.is_empty());
    assert_eq!(small.len(), 4);
    assert_eq!(small.pop(), Some(9));
    large.push(7);
    large.push(3);
    assert_eq!(large.pop(), Some(3));
}

#[test]
fn append_large_tail_rebuilds() {
    let mut a: BinaryHeap<i32> = BinaryHeap::from_vec((0..3).collect::<Vec<i32>>());
    let mut b: BinaryHeap<i32> = BinaryHeap::from_vec((100..3000).collect::<Vec<i32>>());
    a.append(&mut b);
    assert_eq!(a.len(), 2903);
    assert_eq!(a.peek(), Some(&2999));
    let sorted = a.into_sorted_vec();
    let mut expected: Vec<i32> = (0..3).collect();
    expected.extend(100..3000);
    assert_eq!(sorted, expected);
}

#[test]
fn append_small_tail_sifts_up() {
    let mut a: BinaryHeap<i32> = BinaryHeap::from_vec((0..3000).collect::<Vec<i32>>());
    let mut b: BinaryHeap<i32> = BinaryHeap::from_vec(vec![5000, -1, 1500]);
    a.append(&mut b);
    assert_eq!(a.len(), 3003);
    assert_eq!(a.pop(), Some(5000));
    assert_eq!(a.pop(), Some(2999));
    let mut small: BinaryHeap<i32> = BinaryHeap::from_vec((0..100).collect::<Vec<i32>>());
    let mut one: BinaryHeap<i32> = BinaryHeap::from_vec(vec![1000]);
    small.append(&mut one);
    assert_eq!(small.peek(), Some(&1000));
}

#[test]
fn into_iter_sorted_takes_greatest_first() {
    let heap: BinaryHeap<i32> = BinaryHeap::from_vec(vec![1, 2, 3, 4, 5]);
    let mut it = heap.into_iter_sorted();
    assert_eq!(it.size_hint(), (5, Some(5)));
    let first = it.next();
    let second = it.next();
    assert_eq!((first, second), (Some(5), Some(4)));
    assert_eq!(it.size_hint(), (3, Some(3)));
}

#[test]
fn peek_on_empty_and_filled() {
    let mut heap = BinaryHeap::new();
    assert_eq!(heap.peek(), None);
    heap.push(1);
    heap.push(5);
    heap.push(2);
    assert_eq!(heap.peek(), Some(&5));
}

#[test]
fn reserve_exact_grows_capacity() {
    let mut heap = BinaryHeap::new();
    heap.reserve_exact(100);
    assert!(heap.capacity() >= 100);
    heap.push(4);
}

#[test]
fn reserve_grows_capacity() {
    let mut heap = BinaryHeap::new();
    heap.reserve(100);
    assert!(heap.capacity() >= 100);
    heap.push(4);
}

#[test]
fn shrink_to_fit_drops_capacity() {
    let mut heap: BinaryHeap<i32> = BinaryHeap::with_capacity(100);
    assert!(heap.capacity() >= 100);
    heap.shrink_to_fit();
    assert!(heap.capacity() == 0);
}

#[test]
fn shrink_to_keeps_lower_bound() {
    let mut heap: BinaryHeap<i32> = BinaryHeap::with_capacity(100);
    assert!(heap.capacity() >= 100);
    heap.shrink_to(10);
    assert!(heap.capacity() >= 10);
}

#[test]
fn into_vec_keeps_items() {
    let heap: BinaryHeap<i32> = BinaryHeap::from_vec(vec![1, 2, 3, 4, 5, 6, 7]);
    let mut vec = heap.into_vec();
    vec.sort();
    assert_eq!(vec, vec![1, 2, 3, 4, 5, 6, 7]);
}

#[test]
fn into_vec_of_a_heap_starts_with_the_greatest() {
    let heap: BinaryHeap<i32> = BinaryHeap::from_vec(vec![3, 8, 1]);
    let vec: Vec<i32> = Vec::from(heap);
    assert_eq!(vec.len(), 3);
    assert_eq!(vec[0], 8);
}

#[test]
fn len_and_is_empty() {
    let mut heap: BinaryHeap<i32> = BinaryHeap::from_vec(vec![1, 3]);
    assert_eq!(heap.len(), 2);
    assert!(!heap.is_empty());
    heap.clear();
    assert!(heap.is_empty());
    let mut other = BinaryHeap::new();
    assert!(other.is_empty());
    other.push(3);
    other.push(5);
    other.push(1);
    assert!(!other.is_empty());
}

#[test]
fn drain_empties_the_heap() {
    let mut heap: BinaryHeap<i32> = BinaryHeap::from_vec(vec![1, 3]);
    assert!(!heap.is_empty());
    let mut drained = Vec::new();
    {
        let mut d = heap.drain();
        assert_eq!(d.size_hint(), (2, Some(2)));
        while let Some(x) = d.next() {
            drained.push(x);
        }
    }
    drained.sort();
    assert_eq!(drained, vec![1, 3]);
    assert!(heap.is_empty());
}

#[test]
fn drain_from_both_ends() {
    let mut heap: BinaryHeap<i32> = BinaryHeap::from_vec(vec![4, 1, 3]);
    let layout = heap.clone().into_vec();
    let mut d = heap.drain();
    assert_eq!(d.next_back(), Some(layout[2]));
    assert_eq!(d.next(), Some(layout[0]));
    assert_eq!(d.next(), Some(layout[1]));
    assert_eq!(d.next(), None);
    assert_eq!(d.next_back(), None);
}

#[test]
fn clear_drops_all() {
    let mut heap: BinaryHeap<i32> = BinaryHeap::from_vec(vec![1, 3]);
    assert!(!heap.is_empty());
    heap.clear();
    assert!(heap.is_empty());
}

#[test]
fn retain_keeps_matching_items() {
    let mut heap: BinaryHeap<i32> = BinaryHeap::from_vec(vec![-10, -5, 1, 2, 4, 13]);
    heap.retain(|x| x % 2 == 0);
    assert_eq!(heap.into_sorted_vec(), vec![-10, 2, 4]);
}

#[test]
fn retain_calls_the_closure_once_per_item_in_order() {
    let mut heap: BinaryHeap<i32> = BinaryHeap::from_vec(vec![9, 2, 7, 4, 5, 1]);
    let layout = heap.clone().into_vec();
    let mut seen = Vec::new();
    heap.retain(|x| {
        seen.push(*x);
        *x > 3
    });
    assert_eq!(seen, layout);
    assert_eq!(heap.len(), 4);
    assert_eq!(heap.into_sorted_vec(), vec![4, 5, 7, 9]);
}

#[test]
fn retain_nothing_and_everything() {
    let mut heap: BinaryHeap<i32> = BinaryHeap::from_vec(vec![3, 1, 2]);
    heap.retain(|_| true);
    assert_eq!(heap.len(), 3);
    assert_eq!(heap.peek(), Some(&3));
    heap.retain(|_| false);
    assert!(heap.is_empty());
}

#[test]
fn extend_pushes_each_item() {
    let mut heap: BinaryHeap<i32> = BinaryHeap::from_vec(vec![2, 8]);
    heap.extend(vec![5, 11, 1]);
    assert_eq!(heap.len(), 5);
    assert_eq!(heap.into_sorted_vec(), vec![1, 2, 5, 8, 11]);
}

#[test]
fn default_is_an_empty_max_heap() {
    let mut heap: BinaryHeap<u8> = Default::default();
    assert!(heap.is_empty());
    heap.push(4);
    heap.push(9);
    assert_eq!(heap.pop(), Some(9));
}

#[test]
fn iter_from_both_ends() {
    let heap: BinaryHeap<i32> = BinaryHeap::from_vec(vec![1, 2, 3, 4]);
    let layout = heap.clone().into_vec();
    let mut it = heap.iter();
    assert_eq!(it.size_hint(), (4, Some(4)));
    assert_eq!(it.next_back(), Some(&layout[3]));
    assert_eq!(it.next(), Some(&layout[0]));
    assert_eq!(it.size_hint(), (2, Some(2)));
    assert_eq!(it.last(), Some(&layout[2]));
}

#[test]
fn into_iter_from_both_ends() {
    let heap: BinaryHeap<i32> = BinaryHeap::from_vec(vec![1, 2, 3, 4]);
    let layout = heap.clone().into_vec();
    let mut it = heap.into_iter();
    assert_eq!(it.size_hint(), (4, Some(4)));
    assert_eq!(it.next(), Some(layout[0]));
    assert_eq!(it.next_back(), Some(layout[3]));
    assert_eq!(it.next(), Some(layout[1]));
    assert_eq!(it.next(), Some(layout[2]));
    assert_eq!(it.next(), None);
}

#[test]
fn key_comparator_heap_with_ties() {
    let mut heap = BinaryHeap::from_vec_cmp(vec![10, 3, 7, 6, 2], KeyComparator(|x: &i32| x % 5));
    let first = heap.pop().unwrap();
    assert_eq!(first % 5, 3);
    let mut keys = Vec::new();
    while let Some(x) = heap.pop() {
        keys.push(x % 5);
    }
    assert_eq!(keys, vec![2, 2, 1, 0]);
}

#[test]
fn order_of_maps_each_variant() {
    assert_eq!(order_of(Ordering::Less), Order::Less);
    assert_eq!(order_of(Ordering::Equal), Order::Equal);
    assert_eq!(order_of(Ordering::Greater), Order::Greater);
}

#[test]
fn heapsort_of_many_items() {
    let items: Vec<u64> = (0..500u64).map(|i| (i * 7919) % 503).collect();
    let mut expected = items.clone();
    expected.sort();
    let heap: BinaryHeap<u64> = BinaryHeap::from_vec(items);
    assert_eq!(heap.into_sorted_vec(), expected);
}

#[test]
fn pops_come_out_in_order() {
    let items: Vec<i64> = (0..200i64).map(|i| (i * 37) % 101 - 50).collect();
    let mut heap = BinaryHeap::new();
    for x in items.iter() {
        heap.push(*x);
    }
    let popped = drain_iter(&mut heap);
    let mut expected = items.clone();
    expected.sort();
    expected.reverse();
    assert_eq!(popped, expected);
}

#[derive(Copy, Clone, Eq, PartialEq, Debug)]
struct State {
    cost: usize,
    position: usize,
}

impl Ord for State {
    fn cmp(&self, other: &Self) -> Ordering {
        other
            .cost
            .cmp(&self.cost)
            .then_with(|| self.position.cmp(&other.position))
    }
}

impl PartialOrd for State {
    fn partial_cmp(&self, other: &Self) -> Option<Ordering> {
        Some(self.cmp(other))
    }
}

struct Edge {
    node: usize,
    cost: usize,
}

fn shortest_path(adj_list: &Vec<Vec<Edge>>, start: usize, goal: usize) -> Option<usize> {
    let mut dist: Vec<_> = (0..adj_list.len()).map(|_| usize::MAX).collect();
    let mut heap = BinaryHeap::new();
    dist[start] = 0;
    heap.push(State { cost: 0, position: start });
    while let Some(State { cost, position }) = heap.pop() {
        if position == goal {
            return Some(cost);
        }
        if cost > dist[position] {
            continue;
        }
        for edge in &adj_list[position] {
            let next = State { cost: cost + edge.cost, position: edge.node };
            if next.cost < dist[next.position] {
                heap.push(next);
                dist[next.position] = next.cost;
            }
        }
    }
    None
}

#[test]
fn dijkstra_shortest_paths() {
    let graph = vec![
        vec![Edge { node: 2, cost: 10 }, Edge { node: 1, cost: 1 }],
        vec![Edge { node: 3, cost: 2 }],
        vec![
            Edge { node: 1, cost: 1 },
            Edge { node: 3, cost: 3 },
            Edge { node: 4, cost: 1 },
        ],
        vec![Edge { node: 0, cost: 7 }, Edge { node: 4, cost: 2 }],
        vec![],
    ];
    assert_eq!(shortest_path(&graph, 0, 1), Some(1));
    assert_eq!(shortest_path(&graph, 0, 3), Some(3));
    assert_eq!(shortest_path(&graph, 3, 0), Some(7));
    assert_eq!(shortest_path(&graph, 0, 4), Some(5));
    assert_eq!(shortest_path(&graph, 4, 0), None);
}

#[test]
fn iter_clone_resumes_at_the_same_place() {
    let heap: BinaryHeap<i32> = BinaryHeap::from_vec(vec![6, 2, 9]);
    let mut it = heap.iter();
    let first = it.next();
    let mut copy = it.clone();
    assert_eq!(it.next(), copy.next());
    assert_eq!(it.next(), copy.next());
    assert_eq!(first, Some(&9));
    assert_eq!(copy.next(), None);
}

#[test]
fn from_array_and_from_vec_make_max_heaps() {
    let mut h1 = BinaryHeap::from([1, 4, 2, 3]);
    let mut h2: BinaryHeap<i32> = BinaryHeap::from(vec![1, 4, 2, 3]);
    assert_eq!(h1.clone().into_vec(), vec![4, 3, 2, 1]);
    while let (Some(a), Some(b)) = (h1.pop(), h2.pop()) {
        assert_eq!(a, b);
    }
    assert!(h1.is_empty() && h2.is_empty());
}

#[test]
fn push_sifts_up_into_place() {
    let mut heap = BinaryHeap::new();
    heap.push(5);
    heap.push(3);
    heap.push(4);
    heap.push(7);
    assert_eq!(heap.into_vec(), vec![7, 5, 4, 3]);
}

#[test]
fn heapify_sifts_down_from_the_last_parent() {
    let heap: BinaryHeap<i32> = BinaryHeap::from_vec(vec![1, 2, 3, 4, 5]);
    assert_eq!(heap.into_vec(), vec![5, 4, 3, 1, 2]);
}

#[test]
fn pop_carries_the_last_item_down_and_back_up() {
    let mut heap = BinaryHeap::from_vec_cmp_raw(vec![6, 5, 4, 1, 2, 3], binary_heap_plus::MaxComparator, false);
    assert_eq!(heap.pop(), Some(6));
    assert_eq!(heap.into_vec(), vec![5, 3, 4, 1, 2]);
}

#[test]
fn append_sifts_a_short_tail_up() {
    let mut a = BinaryHeap::from_vec_cmp_raw(vec![5, 1, 2], binary_heap_plus::MaxComparator, false);
    let mut b: BinaryHeap<i32> = BinaryHeap::from_vec(vec![7]);
    a.append(&mut b);
    assert_eq!(a.into_vec(), vec![7, 5, 2, 1]);
}

#[test]
fn retain_keeping_everything_leaves_the_layout() {
    let mut heap: BinaryHeap<i32> = BinaryHeap::from_vec(vec![2, 9, 4, 7, 1]);
    let layout = heap.clone().into_vec();
    heap.retain(|_| true);
    assert_eq!(heap.into_vec(), layout);
}

#[test]
fn remove_top_after_writing_the_top() {
    let mut heap = BinaryHeap::new();
    heap.push(1);
    heap.push(5);
    heap.push(2);
    *heap.top_mut() = 0;
    assert_eq!(heap.remove_top(), 0);
    assert_eq!(heap.len(), 2);
    assert_eq!(heap.peek(), Some(&2));
}

#[test]
fn drain_keeps_the_capacity() {
    let mut heap: BinaryHeap<i32> = BinaryHeap::with_capacity(50);
    heap.extend(vec![3, 1, 4]);
    let cap = heap.capacity();
    {
        let mut d = heap.drain();
        while d.next().is_some() {}
    }
    assert!(heap.is_empty());
    assert_eq!(heap.capacity(), cap);
}

#[test]
fn into_iter_sorted_collects_greatest_first() {
    let heap: BinaryHeap<i32> = BinaryHeap::from_vec(vec![3, 9, 1, 7, 5, 7]);
    assert_eq!(heap.into_iter_sorted().collect(), vec![9, 7, 7, 5, 3, 1]);
    let min: BinaryHeap<i32, MinComparator> = BinaryHeap::from_vec(vec![4, 2, 8]);
    assert_eq!(min.into_iter_sorted().collect(), vec![2, 4, 8]);
}
