//! A fixed-capacity, UTF-8 validated string view over a caller-owned byte
//! region.

use tinyvec::SliceVec;
use vstd::prelude::*;

use crate::buffer::{
    sv_as_mut_slice, sv_as_slice, sv_capacity, sv_capacity_exec, sv_contents, sv_extend_from_slice,
    sv_from_slice_len, sv_len, sv_push, sv_split_off, sv_truncate,
};
use crate::unicode::{
    bytes_as_mut_str, bytes_as_str, compare_bytes, lex_cmp, truncated, utf8_error_at, validate_utf8,
};
use crate::{Error, Utf8Error};

verus! {

use vstd::string::StringSliceAdditionalSpecFns;
use vstd::utf8::{decode_last_scalar, decode_utf8, encode_scalar, is_char_boundary, valid_utf8};

/// A string view over a borrowed fixed-size byte region.
///
/// The view tracks a logical length and maintains two invariants at every
/// observable point: the occupied prefix (bytes `[0, len)` of the region) is
/// valid UTF-8 text, and the length never exceeds the region's size.
pub struct SliceString<'a> {
    buf: SliceVec<'a, u8>,
}

impl<'a> View for SliceString<'a> {
    type V = Seq<u8>;

    /// The occupied bytes of the view, in order.
    closed spec fn view(&self) -> Seq<u8> {
        sv_contents(self.buf)
    }
}

impl<'a> SliceString<'a> {
    /// The size of the backing region; fixed for the view's lifetime.
    pub closed spec fn spec_capacity(&self) -> nat {
        sv_capacity(self.buf)
    }

    /// The view's invariant: the occupied prefix is valid UTF-8 and fits in
    /// the backing region.
    pub open spec fn wf(&self) -> bool {
        &&& valid_utf8(self@)
        &&& self@.len() <= self.spec_capacity()
    }

    /// Builds an empty view over any byte region; the empty string is
    /// trivially valid UTF-8.
    pub fn new(buf: &'a mut [u8]) -> (s: Self)
        ensures
            s.wf(),
            s@ == Seq::<u8>::empty(),
            s.spec_capacity() == old(buf)@.len(),
    {
        let v = sv_from_slice_len(buf, 0);
        proof {
            assert(sv_contents(v) =~= Seq::<u8>::empty());
        }
        SliceString { buf: v }
    }

    /// Wraps a container whose occupied bytes the caller attests are already
    /// valid UTF-8 and fit in its backing region; no validation is performed.
    /// This is the trust boundary of the type: every other operation relies
    /// on the attestation.
    pub fn new_unchecked(buf: SliceVec<'a, u8>) -> (s: Self)
        requires
            valid_utf8(sv_contents(buf)),
            sv_contents(buf).len() <= sv_capacity(buf),
        ensures
            s.wf(),
            s@ == sv_contents(buf),
            s.spec_capacity() == sv_capacity(buf),
    {
        SliceString { buf }
    }

    /// Builds a view over the first `len` bytes of the region after checking
    /// that they are valid UTF-8; on failure reports where decoding fails,
    /// produces no view, and leaves the region's bytes unchanged, so the
    /// caller may correct the data and retry.  `len` must not exceed the
    /// region's size.
    pub fn from_utf8(buf: &'a mut [u8], len: usize) -> (r: Result<Self, Utf8Error>)
        requires
            len <= buf@.len(),
        ensures
            match r {
                Ok(s) => {
                    &&& valid_utf8(old(buf)@.subrange(0, len as int))
                    &&& s.wf()
                    &&& s@ == old(buf)@.subrange(0, len as int)
                    &&& s.spec_capacity() == old(buf)@.len()
                },
                Err(e) => {
                    &&& !valid_utf8(old(buf)@.subrange(0, len as int))
                    &&& utf8_error_at(old(buf)@.subrange(0, len as int), e.valid_up_to as int)
                    &&& final(buf)@ == old(buf)@
                },
            },
    {
        let valid = {
            let prefix = vstd::slice::slice_subrange(buf, 0, len);
            validate_utf8(prefix)
        };
        match valid {
            None => Ok(SliceString { buf: sv_from_slice_len(buf, len) }),
            Some(i) => Err(Utf8Error { valid_up_to: i }),
        }
    }

    /// Builds a view over the first `len` bytes of the region without
    /// validating them; the caller attests that they are valid UTF-8.  `len`
    /// must not exceed the region's size.
    pub fn from_utf8_unchecked(buf: &'a mut [u8], len: usize) -> (s: Self)
        requires
            len <= buf@.len(),
            valid_utf8(buf@.subrange(0, len as int)),
        ensures
            s.wf(),
            s@ == old(buf)@.subrange(0, len as int),
            s.spec_capacity() == old(buf)@.len(),
    {
        SliceString { buf: sv_from_slice_len(buf, len) }
    }

    /// Builds a view from a container after checking that its whole occupied
    /// contents are valid UTF-8; on failure reports where decoding fails and
    /// produces no view.
    pub fn try_from_slicevec(buf: SliceVec<'a, u8>) -> (r: Result<Self, Utf8Error>)
        ensures
            match r {
                Ok(s) => {
                    &&& valid_utf8(sv_contents(buf))
                    &&& s.wf()
                    &&& s@ == sv_contents(buf)
                    &&& s.spec_capacity() == sv_capacity(buf)
                },
                Err(e) => {
                    &&& !valid_utf8(sv_contents(buf))
                    &&& utf8_error_at(sv_contents(buf), e.valid_up_to as int)
                },
            },
    {
        let valid = validate_utf8(sv_as_slice(&buf));
        match valid {
            None => Ok(SliceString { buf }),
            Some(i) => Err(Utf8Error { valid_up_to: i }),
        }
    }

    /// Exposes the underlying container for direct mutation, for advanced
    /// callers that must work on the raw bytes.  Mutation through it must
    /// leave the occupied prefix valid UTF-8 before the view is used again:
    /// the view's state afterwards is exactly what the caller left in the
    /// container, and every other operation requires `wf` of it.
    pub fn as_mut_slicevec(&mut self) -> (r: &mut SliceVec<'a, u8>)
        ensures
            sv_contents(*r) == old(self)@,
            sv_capacity(*r) == old(self).spec_capacity(),
            final(self)@ == sv_contents(*final(r)),
            final(self).spec_capacity() == sv_capacity(*final(r)),
    {
        &mut self.buf
    }

    /// Consumes the view and hands the underlying container back to the
    /// caller; always succeeds and preserves the occupied bytes.
    pub fn into_slicevec(self) -> (r: SliceVec<'a, u8>)
        ensures
            sv_contents(r) == self@,
            sv_capacity(r) == self.spec_capacity(),
    {
        self.buf
    }

    /// The number of occupied bytes.
    pub fn len(&self) -> (r: usize)
        ensures
            r == self@.len(),
    {
        sv_len(&self.buf)
    }

    /// The size of the backing region, in bytes.
    pub fn capacity(&self) -> (r: usize)
        ensures
            r == self.spec_capacity(),
    {
        sv_capacity_exec(&self.buf)
    }

    /// True when no bytes are occupied.
    pub fn is_empty(&self) -> (r: bool)
        ensures
            r == (self@.len() == 0),
    {
        self.len() == 0
    }

    /// Sets the occupied length to zero; always succeeds.
    pub fn clear(&mut self)
        ensures
            final(self).wf(),
            final(self)@ == Seq::<u8>::empty(),
            final(self).spec_capacity() == old(self).spec_capacity(),
    {
        sv_truncate(&mut self.buf, 0);
        proof {
            assert(self@ =~= Seq::<u8>::empty());
        }
    }

    /// Shortens the occupied range to `new_len` bytes; a value at or above
    /// the current length changes nothing.  A value below the current length
    /// must land on a UTF-8 character boundary.
    pub fn truncate(&mut self, new_len: usize)
        requires
            old(self).wf(),
            new_len < old(self)@.len() ==> is_char_boundary(old(self)@, new_len as int),
        ensures
            final(self).wf(),
            final(self)@ == truncated(old(self)@, new_len as int),
            final(self).spec_capacity() == old(self).spec_capacity(),
    {
        sv_truncate(&mut self.buf, new_len);
        proof {
            if new_len < old(self)@.len() {
                vstd::utf8::valid_utf8_split(old(self)@, new_len as int);
            }
        }
    }

    /// Encodes the character and appends its bytes if there is room; fails
    /// with a capacity error, leaving the view unchanged, when the encoded
    /// bytes do not fit.
    pub fn push(&mut self, c: char) -> (r: Result<(), Error>)
        requires
            old(self).wf(),
        ensures
            final(self).wf(),
            final(self).spec_capacity() == old(self).spec_capacity(),
            match r {
                Ok(()) => {
                    &&& old(self)@.len() + encode_scalar(c as u32).len()
                        <= old(self).spec_capacity()
                    &&& final(self)@ == old(self)@ + encode_scalar(c as u32)
                },
                Err(_) => {
                    &&& old(self)@.len() + encode_scalar(c as u32).len()
                        > old(self).spec_capacity()
                    &&& final(self)@ == old(self)@
                },
            },
    {
        proof {
            crate::unicode::lemma_encode_scalar_singleton(c);
        }
        let u = c as u32;
        let clen: usize = if u < 0x80 {
            1
        } else if u < 0x800 {
            2
        } else if u < 0x10000 {
            3
        } else {
            4
        };
        assert(clen == encode_scalar(u).len());
        let len = self.len();
        let cap = self.capacity();
        if cap - len < clen {
            return Err(Error);
        }
        if clen == 1 {
            sv_push(&mut self.buf, (u & 0x7F) as u8);
        } else if clen == 2 {
            sv_push(&mut self.buf, 0xC0 | ((u >> 6) & 0x1F) as u8);
            sv_push(&mut self.buf, 0x80 | (u & 0x3F) as u8);
        } else if clen == 3 {
            sv_push(&mut self.buf, 0xE0 | ((u >> 12) & 0x0F) as u8);
            sv_push(&mut self.buf, 0x80 | ((u >> 6) & 0x3F) as u8);
            sv_push(&mut self.buf, 0x80 | (u & 0x3F) as u8);
        } else {
            sv_push(&mut self.buf, 0xF0 | ((u >> 18) & 0x7) as u8);
            sv_push(&mut self.buf, 0x80 | ((u >> 12) & 0x3F) as u8);
            sv_push(&mut self.buf, 0x80 | ((u >> 6) & 0x3F) as u8);
            sv_push(&mut self.buf, 0x80 | (u & 0x3F) as u8);
        }
        proof {
            assert(self@ =~= old(self)@ + encode_scalar(u));
            vstd::utf8::valid_utf8_concat(old(self)@, encode_scalar(u));
        }
        Ok(())
    }

    /// Appends the bytes of the given text if there is room; fails with a
    /// capacity error, leaving the view unchanged, when they do not fit.
    pub fn push_str(&mut self, string: &str) -> (r: Result<(), Error>)
        requires
            old(self).wf(),
        ensures
            final(self).wf(),
            final(self).spec_capacity() == old(self).spec_capacity(),
            match r {
                Ok(()) => {
                    &&& old(self)@.len() + string.spec_bytes().len()
                        <= old(self).spec_capacity()
                    &&& final(self)@ == old(self)@ + string.spec_bytes()
                },
                Err(_) => {
                    &&& old(self)@.len() + string.spec_bytes().len()
                        > old(self).spec_capacity()
                    &&& final(self)@ == old(self)@
                },
            },
    {
        let bytes = string.as_bytes();
        let len = self.len();
        let cap = self.capacity();
        if cap - len < bytes.len() {
            return Err(Error);
        }
        sv_extend_from_slice(&mut self.buf, bytes);
        proof {
            vstd::utf8::encode_utf8_valid_utf8(string@);
            vstd::utf8::valid_utf8_concat(old(self)@, string.spec_bytes());
        }
        Ok(())
    }

    /// Divides the occupied range at byte offset `at`, which must land on a
    /// UTF-8 character boundary at or below the current length.  Bytes
    /// `[0, at)` remain in this view, whose backing region shrinks to exactly
    /// `at` bytes; the rest of the region, holding bytes `[at, len)`, becomes
    /// a new independent view.  The two views' storage never overlaps, and
    /// their concatenation is the original occupied text.
    pub fn split_off(&mut self, at: usize) -> (r: SliceString<'a>)
        requires
            old(self).wf(),
            at <= old(self)@.len(),
            is_char_boundary(old(self)@, at as int),
        ensures
            final(self).wf(),
            r.wf(),
            final(self)@ == old(self)@.subrange(0, at as int),
            r@ == old(self)@.subrange(at as int, old(self)@.len() as int),
            old(self)@ == final(self)@ + r@,
            final(self).spec_capacity() == at,
            r.spec_capacity() == old(self).spec_capacity() - at,
    {
        let nv = sv_split_off(&mut self.buf, at);
        proof {
            vstd::utf8::valid_utf8_split(old(self)@, at as int);
            assert(old(self)@ =~= old(self)@.subrange(0, at as int) + old(self)@.subrange(
                at as int,
                old(self)@.len() as int,
            ));
        }
        SliceString { buf: nv }
    }

    /// Removes and returns the last character, shrinking the occupied range
    /// by that character's encoded byte length; returns `None` on an empty
    /// view.
    pub fn pop(&mut self) -> (r: Option<char>)
        requires
            old(self).wf(),
        ensures
            final(self).wf(),
            final(self).spec_capacity() == old(self).spec_capacity(),
            match r {
                None => old(self)@.len() == 0 && final(self)@ == old(self)@,
                Some(c) => {
                    &&& old(self)@.len() > 0
                    &&& c as u32 == decode_last_scalar(old(self)@)
                    &&& final(self)@ == old(self)@.subrange(
                        0,
                        old(self)@.len() - encode_scalar(c as u32).len(),
                    )
                    &&& old(self)@ == final(self)@ + encode_scalar(c as u32)
                },
            },
    {
        let n = self.len();
        if n == 0 {
            return None;
        }
        let ghost gs = old(self)@;
        let ghost gn = gs.len() as int;
        proof {
            crate::unicode::lemma_last_scalar(gs);
        }
        let ghost gk = vstd::utf8::length_of_last_scalar(gs);
        let (u, k): (u32, usize) = {
            let s = sv_as_slice(&self.buf);
            let b1 = s[n - 1];
            if !(0x80 <= b1 && b1 <= 0xBF) {
                ((b1 & 0x7F) as u32, 1)
            } else {
                proof {
                    assert(gk >= 2);
                }
                let b2 = s[n - 2];
                if !(0x80 <= b2 && b2 <= 0xBF) {
                    ((((b2 & 0x1F) as u32) << 6) | ((b1 & 0x3F) as u32), 2)
                } else {
                    proof {
                        assert(gk >= 3);
                    }
                    let b3 = s[n - 3];
                    if !(0x80 <= b3 && b3 <= 0xBF) {
                        (
                            (((b3 & 0x0F) as u32) << 12) | (((b2 & 0x3F) as u32) << 6) | (
                            (b1 & 0x3F) as u32),
                            3,
                        )
                    } else {
                        proof {
                            assert(gk >= 4);
                        }
                        let b4 = s[n - 4];
                        (
                            (((b4 & 0x07) as u32) << 18) | (((b3 & 0x3F) as u32) << 12) | ((
                            (b2 & 0x3F) as u32) << 6) | ((b1 & 0x3F) as u32),
                            4,
                        )
                    }
                }
            }
        };
        proof {
            assert(k == gk);
            assert(u == decode_last_scalar(gs));
            crate::unicode::lemma_first_scalar_is_scalar(gs.subrange(gn - gk, gn));
        }
        let c = match char::from_u32(u) {
            Some(c) => c,
            None => vstd::pervasive::unreached(),
        };
        sv_truncate(&mut self.buf, n - k);
        proof {
            let tail = gs.subrange(gn - gk, gn);
            vstd::utf8::decode_utf8_first_scalar(tail);
            vstd::utf8::char_u32_cast(c, u);
            assert(vstd::utf8::take_first_scalar(tail) =~= tail);
            assert(encode_scalar(c as u32) == tail);
            assert(gs =~= gs.subrange(0, gn - gk) + tail);
        }
        Some(c)
    }

    /// Borrows the occupied bytes as text.
    pub fn as_str(&self) -> (r: &str)
        requires
            self.wf(),
        ensures
            r.spec_bytes() == self@,
            r@ == decode_utf8(self@),
    {
        let r = bytes_as_str(sv_as_slice(&self.buf));
        proof {
            vstd::utf8::encode_utf8_decode_utf8(r@);
        }
        r
    }

    /// Borrows the occupied bytes as text open to in-place editing.  Safe
    /// text mutation cannot change the byte length and keeps the text valid
    /// UTF-8, so the view's invariant survives any edit made through the
    /// result; the view afterwards holds exactly the edited text.
    pub fn as_mut_str(&mut self) -> (r: &mut str)
        requires
            old(self).wf(),
        ensures
            r.spec_bytes() == old(self)@,
            final(self)@ == final(r).spec_bytes(),
            final(r).spec_bytes().len() == old(self)@.len(),
            final(self).spec_capacity() == old(self).spec_capacity(),
            final(self).wf(),
    {
        let r = bytes_as_mut_str(sv_as_mut_slice(&mut self.buf));
        proof {
            vstd::utf8::encode_utf8_valid_utf8(final(r)@);
        }
        r
    }

    /// Borrows the occupied bytes.
    pub fn as_bytes(&self) -> (r: &[u8])
        ensures
            r@ == self@,
    {
        sv_as_slice(&self.buf)
    }
}

impl<'a> Default for SliceString<'a> {
    /// The default view is empty, over an empty region.
    fn default() -> (s: Self)
        ensures
            s.wf(),
            s@ == Seq::<u8>::empty(),
            s.spec_capacity() == 0,
    {
        SliceString::new(&mut [])
    }
}

impl<'a> PartialEq for SliceString<'a> {
    /// Views are equal when their occupied bytes are equal; for valid views
    /// this is equality of the text.
    fn eq(&self, other: &SliceString<'a>) -> (r: bool) {
        let c = compare_bytes(self.as_bytes(), other.as_bytes());
        proof {
            crate::unicode::lemma_lex_cmp_equal(self@, other@);
        }
        matches!(c, core::cmp::Ordering::Equal)
    }
}

impl<'a> vstd::std_specs::cmp::PartialEqSpecImpl for SliceString<'a> {
    open spec fn obeys_eq_spec() -> bool {
        true
    }

    open spec fn eq_spec(&self, other: &SliceString<'a>) -> bool {
        self@ == other@
    }
}

impl<'a> Eq for SliceString<'a> {}

impl<'a> PartialOrd for SliceString<'a> {
    /// Views are ordered lexicographically by their occupied bytes, which on
    /// valid views agrees with ordering the text by Unicode scalar sequence.
    fn partial_cmp(&self, other: &SliceString<'a>) -> (r: Option<core::cmp::Ordering>) {
        Some(compare_bytes(self.as_bytes(), other.as_bytes()))
    }
}

impl<'a> vstd::std_specs::cmp::PartialOrdSpecImpl for SliceString<'a> {
    open spec fn obeys_partial_cmp_spec() -> bool {
        true
    }

    open spec fn partial_cmp_spec(&self, other: &SliceString<'a>) -> Option<core::cmp::Ordering> {
        Some(lex_cmp(self@, other@))
    }
}

} // verus!
