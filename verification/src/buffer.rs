//! Trusted interface to `tinyvec::SliceVec`, the bounded byte container that
//! backs a `SliceString`.
//!
//! A `SliceVec<'s, u8>` wraps a borrowed fixed-size byte region and tracks a
//! logical length that never exceeds the region's size.  Verus treats the type
//! as opaque; its observable state is named by two uninterpreted spec
//! functions: [`sv_contents`] (the occupied prefix, as a byte sequence) and
//! [`sv_capacity`] (the size of the backing region).  Each wrapper below makes
//! exactly one `SliceVec` call and states, over those two names, what the
//! crate's source shows for that method.

use tinyvec::SliceVec;
use vstd::prelude::*;

verus! {

#[verifier::external_type_specification]
#[verifier::external_body]
#[verifier::reject_recursive_types(T)]
pub struct ExSliceVec<'s, T>(tinyvec::SliceVec<'s, T>);

/// The occupied prefix of the container: the first `len` bytes of the backing
/// region, in order.
pub uninterp spec fn sv_contents(v: SliceVec<u8>) -> Seq<u8>;

/// The size of the backing region the container was built over; fixed for the
/// container's lifetime.
pub uninterp spec fn sv_capacity(v: SliceVec<u8>) -> nat;

/// Relies on `tinyvec::SliceVec::from_slice_len`: wraps the whole slice as the
/// backing region and takes the given initial length; asserts that the length
/// does not exceed the slice's size.
#[verifier::external_body]
pub(crate) fn sv_from_slice_len<'s>(data: &'s mut [u8], len: usize) -> (r: SliceVec<'s, u8>)
    requires
        len <= data@.len(),
    ensures
        sv_contents(r) == old(data)@.subrange(0, len as int),
        sv_capacity(r) == old(data)@.len(),
{
    tinyvec::SliceVec::from_slice_len(data, len)
}

/// Relies on `tinyvec::SliceVec::len`: returns the logical length, which the
/// container keeps at or below its capacity.
#[verifier::external_body]
pub(crate) fn sv_len(v: &SliceVec<u8>) -> (r: usize)
    ensures
        r == sv_contents(*v).len(),
        r <= sv_capacity(*v),
{
    v.len()
}

/// Relies on `tinyvec::SliceVec::capacity`: returns the size of the backing
/// region, which bounds the logical length.
#[verifier::external_body]
pub(crate) fn sv_capacity_exec(v: &SliceVec<u8>) -> (r: usize)
    ensures
        r == sv_capacity(*v),
        sv_contents(*v).len() <= r,
{
    v.capacity()
}

/// Relies on `tinyvec::SliceVec::as_slice` (via `Deref`): borrows the occupied
/// prefix of the backing region.
#[verifier::external_body]
pub(crate) fn sv_as_slice<'v>(v: &'v SliceVec<u8>) -> (r: &'v [u8])
    ensures
        r@ == sv_contents(*v),
        r@.len() <= sv_capacity(*v),
{
    v.as_slice()
}

/// Relies on `tinyvec::SliceVec::as_mut_slice`: borrows the occupied prefix
/// of the backing region for mutation.  Writing through the borrow changes
/// the contents in place; the length and capacity cannot change through it.
#[verifier::external_body]
pub(crate) fn sv_as_mut_slice<'v>(v: &'v mut SliceVec<'_, u8>) -> (r: &'v mut [u8])
    ensures
        r@ == sv_contents(*old(v)),
        r@.len() <= sv_capacity(*old(v)),
        final(r)@.len() == r@.len(),
        sv_contents(*final(v)) == final(r)@,
        sv_capacity(*final(v)) == sv_capacity(*old(v)),
{
    v.as_mut_slice()
}

/// Relies on `tinyvec::SliceVec::push`: appends one byte; panics when the
/// container is full, so a free slot is required.
#[verifier::external_body]
pub(crate) fn sv_push(v: &mut SliceVec<'_, u8>, b: u8)
    requires
        sv_contents(*old(v)).len() < sv_capacity(*old(v)),
    ensures
        sv_contents(*final(v)) == sv_contents(*old(v)).push(b),
        sv_capacity(*final(v)) == sv_capacity(*old(v)),
{
    v.push(b)
}

/// Relies on `tinyvec::SliceVec::extend_from_slice`: appends all given bytes;
/// panics when they would not fit, so room for them is required.
#[verifier::external_body]
pub(crate) fn sv_extend_from_slice(v: &mut SliceVec<'_, u8>, s: &[u8])
    requires
        sv_contents(*old(v)).len() + s@.len() <= sv_capacity(*old(v)),
    ensures
        sv_contents(*final(v)) == sv_contents(*old(v)) + s@,
        sv_capacity(*final(v)) == sv_capacity(*old(v)),
{
    v.extend_from_slice(s)
}

/// Relies on `tinyvec::SliceVec::truncate`: clamps the logical length to the
/// given value; a value at or above the current length changes nothing.
#[verifier::external_body]
pub(crate) fn sv_truncate(v: &mut SliceVec<'_, u8>, new_len: usize)
    ensures
        sv_contents(*final(v)) == if new_len < sv_contents(*old(v)).len() {
            sv_contents(*old(v)).subrange(0, new_len as int)
        } else {
            sv_contents(*old(v))
        },
        sv_capacity(*final(v)) == sv_capacity(*old(v)),
{
    v.truncate(new_len)
}

/// Relies on `tinyvec::SliceVec::split_off`: divides the backing region at
/// `at`; the original keeps bytes `[0, at)` of the region (now full, with
/// capacity `at`) and the new container owns the rest of the region with the
/// remaining occupied bytes.  Panics when `at` exceeds the logical length.
#[verifier::external_body]
pub(crate) fn sv_split_off<'s>(v: &mut SliceVec<'s, u8>, at: usize) -> (r: SliceVec<'s, u8>)
    requires
        at <= sv_contents(*old(v)).len(),
        sv_contents(*old(v)).len() <= sv_capacity(*old(v)),
    ensures
        sv_contents(*final(v)) == sv_contents(*old(v)).subrange(0, at as int),
        sv_capacity(*final(v)) == at,
        sv_contents(r) == sv_contents(*old(v)).subrange(
            at as int,
            sv_contents(*old(v)).len() as int,
        ),
        sv_capacity(r) == sv_capacity(*old(v)) - at,
{
    v.split_off(at)
}

} // verus!
