//! A fixed-capacity, UTF-8 validated string view over a caller-owned byte
//! buffer: it never allocates, never grows past the region it was given, and
//! keeps the invariant that its occupied prefix is well-formed UTF-8 text.

use vstd::prelude::*;

pub mod buffer;
pub mod laws;
pub mod slice_string;
pub mod unicode;

pub use slice_string::SliceString;

verus! {

/// Error returned when an append would exceed the backing buffer's capacity.
/// The failed operation leaves the view completely unchanged.
#[derive(Debug, Copy, Clone, PartialEq, Eq, PartialOrd, Ord, Hash, Structural)]
pub struct Error;

/// Error returned when bytes claimed to hold text are not valid UTF-8.
///
/// `valid_up_to` is the length of the longest well-formed prefix: bytes
/// `[0, valid_up_to)` decode correctly and the sequence starting at
/// `valid_up_to` does not.
#[derive(Debug, Copy, Clone, PartialEq, Eq, Structural)]
pub struct Utf8Error {
    pub valid_up_to: usize,
}

} // verus!
