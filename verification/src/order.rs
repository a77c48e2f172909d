//! Comparators: the order in which a heap arranges its items.
use std::cmp::Ordering;
use vstd::laws_cmp::{obeys_cmp, obeys_cmp_ord, obeys_cmp_partial_ord, obeys_partial_cmp_spec_properties};
use vstd::laws_eq::obeys_concrete_eq;
use vstd::std_specs::cmp::{OrdSpec, PartialEqSpec, PartialOrdSpec};
use vstd::prelude::*;

verus! {

/// The outcome of a three-way comparison, as a closure handed to
/// `BinaryHeap::new_by` reports it.
#[derive(Clone, Copy, PartialEq, Eq, Debug, Structural)]
pub enum Order {
    Less,
    Equal,
    Greater,
}

/// Converts std's three-way comparison result into an [`Order`].
pub fn order_of(o: Ordering) -> (r: Order)
    ensures
        o == Ordering::Less ==> r == Order::Less,
        o == Ordering::Equal ==> r == Order::Equal,
        o == Ordering::Greater ==> r == Order::Greater,
{
    match o {
        Ordering::Less => Order::Less,
        Ordering::Equal => Order::Equal,
        Ordering::Greater => Order::Greater,
    }
}

/// A comparator decides the order of a heap: the heap keeps at its top an
/// item that no other item exceeds.
///
/// `le(a, b)` says that `a` comes no later than `b`: in a max-heap, that
/// `a <= b`. The heap's guarantees about order hold when the comparator is a
/// total preorder (see [`is_total_preorder`]); the heap never loses or
/// invents an item, whatever the comparator answers.
pub trait Compare<T>: Sized {
    /// The comparator can be asked about any two items.
    spec fn can_compare(&self) -> bool;

    /// The comparator always gives the same answer for the same two items,
    /// and that answer is `le`.
    spec fn is_consistent(&self) -> bool;

    /// `a` is ordered no later than `b`.
    spec fn le(&self, a: T, b: T) -> bool;

    /// Whether `a` is ordered no later than `b`.
    fn compares_le(&self, a: &T, b: &T) -> (r: bool)
        requires
            self.can_compare(),
        ensures
            self.is_consistent() ==> r == self.le(*a, *b),
    ;
}

/// The comparator answers consistently, and its order is total and
/// transitive.
pub open spec fn is_total_preorder<T, C: Compare<T>>(c: C) -> bool {
    &&& c.is_consistent()
    &&& forall|a: T, b: T| #[trigger] c.le(a, b) || c.le(b, a)
    &&& forall|a: T, b: T, d: T| #[trigger] c.le(a, b) && #[trigger] c.le(b, d) ==> c.le(a, d)
}

/// For `T` that implements `Ord`, you can use this struct to quickly
/// set up a max heap.
#[derive(Clone, Copy, Default, PartialEq, Eq, Debug, Structural)]
pub struct MaxComparator;

impl<T: Ord> Compare<T> for MaxComparator {
    open spec fn can_compare(&self) -> bool {
        true
    }

    open spec fn is_consistent(&self) -> bool {
        T::obeys_cmp_spec()
    }

    open spec fn le(&self, a: T, b: T) -> bool {
        a.cmp_spec(&b) != Ordering::Greater
    }

    fn compares_le(&self, a: &T, b: &T) -> (r: bool) {
        match a.cmp(b) {
            Ordering::Greater => false,
            _ => true,
        }
    }
}

/// For `T` that implements `Ord`, you can use this struct to quickly
/// set up a min heap.
#[derive(Clone, Copy, Default, PartialEq, Eq, Debug, Structural)]
pub struct MinComparator;

impl<T: Ord> Compare<T> for MinComparator {
    open spec fn can_compare(&self) -> bool {
        true
    }

    open spec fn is_consistent(&self) -> bool {
        T::obeys_cmp_spec()
    }

    open spec fn le(&self, a: T, b: T) -> bool {
        b.cmp_spec(&a) != Ordering::Greater
    }

    fn compares_le(&self, a: &T, b: &T) -> (r: bool) {
        match b.cmp(a) {
            Ordering::Greater => false,
            _ => true,
        }
    }
}

/// The comparator defined by closure
#[derive(Clone, Copy, Default, PartialEq, Eq, Debug)]
pub struct FnComparator<F>(pub F);

impl<T, F: Fn(&T, &T) -> Order> Compare<T> for FnComparator<F> {
    open spec fn can_compare(&self) -> bool {
        forall|a: T, b: T| #[trigger] self.0.requires((&a, &b))
    }

    open spec fn is_consistent(&self) -> bool {
        forall|a: T, b: T, r1: Order, r2: Order|
            #[trigger] self.0.ensures((&a, &b), r1) && #[trigger] self.0.ensures((&a, &b), r2)
                ==> r1 == r2
    }

    open spec fn le(&self, a: T, b: T) -> bool {
        forall|r: Order| #[trigger] self.0.ensures((&a, &b), r) ==> r != Order::Greater
    }

    fn compares_le(&self, a: &T, b: &T) -> (r: bool) {
        let o = (self.0)(a, b);
        match o {
            Order::Greater => false,
            _ => true,
        }
    }
}

/// The comparator ordered by key
#[derive(Clone, Copy, Default, PartialEq, Eq, Debug)]
pub struct KeyComparator<F>(pub F);

impl<K: Ord, T, F: Fn(&T) -> K> Compare<T> for KeyComparator<F> {
    open spec fn can_compare(&self) -> bool {
        forall|a: T| #[trigger] self.0.requires((&a,))
    }

    open spec fn is_consistent(&self) -> bool {
        &&& K::obeys_cmp_spec()
        &&& forall|a: T, k1: K, k2: K|
            #[trigger] self.0.ensures((&a,), k1) && #[trigger] self.0.ensures((&a,), k2) ==> k1
                == k2
    }

    open spec fn le(&self, a: T, b: T) -> bool {
        forall|ka: K, kb: K|
            #[trigger] self.0.ensures((&a,), ka) && #[trigger] self.0.ensures((&b,), kb)
                ==> ka.cmp_spec(&kb) != Ordering::Greater
    }

    fn compares_le(&self, a: &T, b: &T) -> (r: bool) {
        let ka = (self.0)(a);
        let kb = (self.0)(b);
        match ka.cmp(&kb) {
            Ordering::Greater => false,
            _ => true,
        }
    }
}

/// Where `Ord` on `T` is a total order whose equal items are identical (as
/// for the integer types), `a <= b` is a total preorder.
proof fn lemma_natural_order<T: Ord>(a: T, b: T, d: T)
    requires
        obeys_cmp::<T>(),
        obeys_concrete_eq::<T>(),
    ensures
        a.cmp_spec(&b) != Ordering::Greater || b.cmp_spec(&a) != Ordering::Greater,
        a.cmp_spec(&b) != Ordering::Greater && b.cmp_spec(&d) != Ordering::Greater ==> a.cmp_spec(&d)
            != Ordering::Greater,
{
    reveal(obeys_partial_cmp_spec_properties);
    reveal(obeys_cmp_partial_ord);
    reveal(obeys_cmp_ord);
    reveal(obeys_concrete_eq);
    assert(a.partial_cmp_spec(&b) == Some(a.cmp_spec(&b)));
    assert(b.partial_cmp_spec(&a) == Some(b.cmp_spec(&a)));
    assert(b.partial_cmp_spec(&d) == Some(b.cmp_spec(&d)));
    assert(a.partial_cmp_spec(&d) == Some(a.cmp_spec(&d)));
    if a.cmp_spec(&b) != Ordering::Greater && b.cmp_spec(&d) != Ordering::Greater {
        if a.cmp_spec(&b) == Ordering::Equal {
            assert(a.eq_spec(&b));
        } else if b.cmp_spec(&d) == Ordering::Equal {
            assert(b.eq_spec(&d));
        } else {
            assert(a.partial_cmp_spec(&d) == Some(Ordering::Less));
        }
    }
}

/// A max-heap is ordered by a total preorder wherever `Ord` on `T` is a
/// total order whose equal items are identical, as for the integer types.
pub proof fn lemma_max_comparator_total<T: Ord>()
    requires
        obeys_cmp::<T>(),
        obeys_concrete_eq::<T>(),
    ensures
        is_total_preorder::<T, MaxComparator>(MaxComparator),
{
    assert forall|a: T, b: T| #[trigger] MaxComparator.le(a, b) || MaxComparator.le(b, a) by {
        lemma_natural_order(a, b, b);
    }
    assert forall|a: T, b: T, d: T| #[trigger]
        MaxComparator.le(a, b) && #[trigger] MaxComparator.le(b, d) implies MaxComparator.le(
        a,
        d,
    ) by {
        lemma_natural_order(a, b, d);
    }
    reveal(obeys_cmp_ord);
}

/// A min-heap orders its items as a max-heap orders them, reversed.
pub proof fn lemma_min_reverses_max<T: Ord>(a: T, b: T)
    ensures
        MinComparator.le(a, b) == MaxComparator.le(b, a),
{
}

/// A min-heap is ordered by a total preorder wherever `Ord` on `T` is a
/// total order whose equal items are identical, as for the integer types.
pub proof fn lemma_min_comparator_total<T: Ord>()
    requires
        obeys_cmp::<T>(),
        obeys_concrete_eq::<T>(),
    ensures
        is_total_preorder::<T, MinComparator>(MinComparator),
{
    assert forall|a: T, b: T| #[trigger] MinComparator.le(a, b) || MinComparator.le(b, a) by {
        lemma_natural_order(a, b, b);
    }
    assert forall|a: T, b: T, d: T| #[trigger]
        MinComparator.le(a, b) && #[trigger] MinComparator.le(b, d) implies MinComparator.le(
        a,
        d,
    ) by {
        lemma_natural_order(d, b, a);
    }
    reveal(obeys_cmp_ord);
}

/// What a closure comparator's predicates say of its closure: it can be
/// called on any two items, it answers each pair in one way only, and `a` is
/// ordered no later than `b` where no answer for them is `Greater`.
pub proof fn lemma_fn_comparator<T, F: Fn(&T, &T) -> Order>(c: FnComparator<F>)
    ensures
        Compare::<T>::can_compare(&c) == (forall|a: T, b: T|
            #[trigger] c.0.requires((&a, &b))),
        Compare::<T>::is_consistent(&c) == (forall|
            a: T,
            b: T,
            r1: Order,
            r2: Order,
        | #[trigger] c.0.ensures((&a, &b), r1) && #[trigger] c.0.ensures((&a, &b), r2) ==> r1 == r2),
        forall|a: T, b: T|
            #[trigger] c.le(a, b) == (forall|r: Order|
                #[trigger] c.0.ensures((&a, &b), r) ==> r != Order::Greater),
{
}

/// What a key comparator's predicates say of its key closure: it can be
/// called on any item, the keys obey `Ord`'s specification, each item has
/// one key only, and `a` is ordered no later than `b` where no key of `a`
/// exceeds a key of `b`.
pub proof fn lemma_key_comparator<T, K: Ord, F: Fn(&T) -> K>(c: KeyComparator<F>)
    ensures
        Compare::<T>::can_compare(&c) == (forall|a: T|
            #[trigger] c.0.requires((&a,))),
        Compare::<T>::is_consistent(&c) == (K::obeys_cmp_spec() && forall|
            a: T,
            k1: K,
            k2: K,
        | #[trigger] c.0.ensures((&a,), k1) && #[trigger] c.0.ensures((&a,), k2) ==> k1 == k2),
        forall|a: T, b: T|
            #[trigger] c.le(a, b) == (forall|ka: K, kb: K|
                #[trigger] c.0.ensures((&a,), ka) && #[trigger] c.0.ensures((&b,), kb)
                    ==> ka.cmp_spec(&kb) != Ordering::Greater),
{
}

} // verus!
