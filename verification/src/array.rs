//! Fixed-size views of the front of a slice.
use vstd::prelude::*;

verus! {

/// The slice itself, seen as an array reference.  Calls std's
/// `TryFrom<&[T]> for &[T; N]`, which the std documentation says succeeds
/// exactly when the slice has length `N` and refers to the same elements.
#[verifier::external_body]
fn slice_as_array<T, const N: usize>(s: &[T]) -> (r: &[T; N])
    requires
        s@.len() == N,
    ensures
        r@ == s@,
{
    s.try_into().unwrap()
}

/// The slice itself, seen as a mutable array reference.  Calls std's
/// `TryFrom<&mut [T]> for &mut [T; N]`, which succeeds exactly when the
/// slice has length `N`; the array reference borrows the same elements, so
/// what is written through it is what the slice holds afterwards.
#[verifier::external_body]
fn slice_as_array_mut<T, const N: usize>(s: &mut [T]) -> (r: &mut [T; N])
    requires
        old(s)@.len() == N,
    ensures
        r@ == old(s)@,
        final(s)@ == final(r)@,
{
    s.try_into().unwrap()
}

/// The first `N` items of the slice as a mutable array; writes through it
/// update those items and leave the rest of the slice alone.
pub fn to_array_ref_mut<T, const N: usize>(s: &mut [T]) -> (r: &mut [T; N])
    requires
        N <= old(s)@.len(),
    ensures
        r@ == old(s)@.subrange(0, N as int),
        final(s)@ == final(r)@ + old(s)@.skip(N as int),
{
    let (head, _tail) = s.split_at_mut(N);
    slice_as_array_mut(head)
}

/// The first `N` items of the slice as an array.
pub fn to_array_ref<T, const N: usize>(s: &[T]) -> (r: &[T; N])
    requires
        N <= s@.len(),
    ensures
        r@ == s@.subrange(0, N as int),
{
    let head = vstd::slice::slice_subrange(s, 0, N);
    slice_as_array(head)
}

} // verus!
