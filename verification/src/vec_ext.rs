//! The few `Vec` methods that the heap calls and that vstd does not specify.
use vstd::prelude::*;

verus! {

/// Calls `Vec::capacity`. The contract claims that the capacity is at least
/// the length and, for items that take space, never more than `isize::MAX`
/// bytes; what it is between those depends on the allocator.
#[verifier::external_body]
pub(crate) fn vec_capacity<T>(v: &Vec<T>) -> (r: usize)
    ensures
        r >= v@.len(),
        vstd::layout::size_of::<T>() > 0 ==> r * vstd::layout::size_of::<T>() <= isize::MAX,
{
    v.capacity()
}

/// Calls `Vec::reserve_exact`, which panics where the new capacity would
/// overflow; the contract claims that the items are unchanged. The capacity
/// it reaches is not stated.
#[verifier::external_body]
pub(crate) fn vec_reserve_exact<T>(v: &mut Vec<T>, additional: usize)
    requires
        old(v)@.len() + additional <= usize::MAX,
        (old(v)@.len() + additional) * vstd::layout::size_of::<T>() <= isize::MAX,
    ensures
        final(v)@ == old(v)@,
{
    v.reserve_exact(additional)
}

/// Calls `Vec::shrink_to_fit`; the contract claims that the items are
/// unchanged. The capacity it leaves is not stated.
#[verifier::external_body]
pub(crate) fn vec_shrink_to_fit<T>(v: &mut Vec<T>)
    ensures
        final(v)@ == old(v)@,
{
    v.shrink_to_fit()
}

/// Calls `Vec::shrink_to`; the contract claims that the items are unchanged.
/// The capacity it leaves is not stated.
#[verifier::external_body]
pub(crate) fn vec_shrink_to<T>(v: &mut Vec<T>, min_capacity: usize)
    ensures
        final(v)@ == old(v)@,
{
    v.shrink_to(min_capacity)
}

/// Calls `Vec::from` on an array, which moves the array's items, in order,
/// into a new vector; the contract claims exactly that.
#[verifier::external_body]
pub(crate) fn vec_from_array<T, const N: usize>(arr: [T; N]) -> (r: Vec<T>)
    ensures
        r@ == arr@,
{
    Vec::from(arr)
}

} // verus!
