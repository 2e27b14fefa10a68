//! Byte-level text specifications and proofs shared by the view's operations,
//! together with the two trusted text primitives (checked bytes-to-text
//! conversion and scalar-to-`char` conversion).

use vstd::prelude::*;

verus! {

use vstd::string::StringSliceAdditionalSpecFns;
use vstd::utf8::{
    decode_first_scalar, decode_last_scalar, encode_scalar, encode_utf8, is_char_boundary,
    is_continuation_byte, is_scalar, length_of_first_scalar, length_of_last_scalar,
    pop_first_scalar, valid_first_scalar, valid_utf8,
};

/// The result of shortening `s` to `n` bytes: a proper truncation when
/// `n < s.len()`, and `s` unchanged otherwise.
pub open spec fn truncated(s: Seq<u8>, n: int) -> Seq<u8> {
    if n < s.len() {
        s.subrange(0, n)
    } else {
        s
    }
}

/// True when decoding `s` as UTF-8 fails exactly at offset `i`: everything
/// before `i` decodes, and no well-formed scalar encoding starts at `i`.
pub open spec fn utf8_error_at(s: Seq<u8>, i: int) -> bool {
    &&& 0 <= i < s.len()
    &&& valid_utf8(s.subrange(0, i))
    &&& !valid_first_scalar(s.subrange(i, s.len() as int))
}

/// A sequence with a decode error at some offset is not valid UTF-8.
pub proof fn lemma_utf8_error_not_valid(s: Seq<u8>, i: int)
    requires
        utf8_error_at(s, i),
    ensures
        !valid_utf8(s),
{
    let tail = s.subrange(i, s.len() as int);
    assert(tail.len() > 0);
    assert(!valid_utf8(tail));
    vstd::utf8::partial_valid_partial_invalid_utf8(s, i);
}

/// The encoding of a single character: `encode_utf8` of the one-character
/// sequence is `encode_scalar` of the character's scalar value, which is a
/// valid UTF-8 sequence of one to four bytes.
pub proof fn lemma_encode_scalar_singleton(c: char)
    ensures
        encode_utf8(seq![c]) == encode_scalar(c as u32),
        valid_utf8(encode_scalar(c as u32)),
        is_scalar(c as u32),
        1 <= encode_scalar(c as u32).len() <= 4,
{
    vstd::utf8::char_is_scalar(c);
    let s = seq![c];
    assert(s.drop_first() =~= Seq::<char>::empty());
    assert(encode_utf8(s) =~= encode_scalar(c as u32) + encode_utf8(Seq::<char>::empty()));
    assert(encode_utf8(s) =~= encode_scalar(c as u32));
    vstd::utf8::encode_utf8_valid_utf8(s);
}

/// The byte structure of a well-formed scalar encoding at the head of a
/// sequence: the leading byte is not a continuation byte and the remaining
/// bytes of the encoding are.
pub proof fn lemma_first_scalar_bytes(s: Seq<u8>)
    requires
        valid_first_scalar(s),
    ensures
        ({
            let f = length_of_first_scalar(s);
            &&& 1 <= f <= 4
            &&& f <= s.len()
            &&& !is_continuation_byte(s[0])
            &&& forall|i: int| 1 <= i < f ==> is_continuation_byte(s[i])
        }),
{
}

/// A well-formed scalar encoding decodes to a Unicode scalar value.
pub proof fn lemma_first_scalar_is_scalar(s: Seq<u8>)
    requires
        valid_first_scalar(s),
    ensures
        is_scalar(decode_first_scalar(s)),
{
    let b0 = s[0];
    if vstd::utf8::is_leading_byte_width_1(b0) {
        assert((b0 & 0x7F) as u32 <= 0x7F) by (bit_vector);
    } else if vstd::utf8::is_leading_byte_width_2(b0) {
        let b1 = s[1];
        assert((((b0 & 0x1F) as u32) << 6) | ((b1 & 0x3F) as u32) <= 0x7FF) by (bit_vector);
    } else if vstd::utf8::is_leading_byte_width_3(b0) {
        let b1 = s[1];
        let b2 = s[2];
        assert((((b0 & 0x0F) as u32) << 12) | (((b1 & 0x3F) as u32) << 6) | ((b2 & 0x3F) as u32)
            <= 0xFFFF) by (bit_vector);
    } else {
    }
}

/// Where the last scalar of a valid UTF-8 sequence starts, what it decodes
/// to, and that everything before it is itself valid UTF-8.
pub proof fn lemma_last_scalar(s: Seq<u8>)
    requires
        valid_utf8(s),
        s.len() > 0,
    ensures
        ({
            let k = length_of_last_scalar(s);
            let n = s.len() as int;
            &&& 1 <= k <= 4
            &&& k <= n
            &&& !is_continuation_byte(s[n - k])
            &&& forall|m: int| n - k < m < n ==> is_continuation_byte(s[m])
            &&& is_char_boundary(s, n - k)
            &&& valid_utf8(s.subrange(0, n - k))
            &&& valid_utf8(s.subrange(n - k, n))
            &&& valid_first_scalar(s.subrange(n - k, n))
            &&& length_of_first_scalar(s.subrange(n - k, n)) == k
            &&& decode_first_scalar(s.subrange(n - k, n)) == decode_last_scalar(s)
        }),
    decreases s.len(),
{
    let n = s.len() as int;
    let f = length_of_first_scalar(s);
    let rest = pop_first_scalar(s);
    lemma_first_scalar_bytes(s);
    if rest.len() == 0 {
        let k = length_of_last_scalar(s);
        assert(n == f);
        assert(k == f);
        assert(s.subrange(n - k, n) =~= s);
        assert(valid_utf8(s.subrange(n - k, n)));
        assert(s.subrange(0, 0) =~= Seq::<u8>::empty());
        assert(decode_first_scalar(s) == decode_last_scalar(s));
    } else {
        lemma_last_scalar(rest);
        let k = length_of_last_scalar(rest);
        let rn = rest.len() as int;
        assert(rn == n - f);
        assert(forall|i: int| 0 <= i < rn ==> rest[i] == s[f + i]);
        assert(!is_continuation_byte(s[n - k]));
        assert(forall|m: int| n - k < m < n ==> is_continuation_byte(s[m]));
        assert(length_of_last_scalar(s) == k);
        assert(s.subrange(n - k, n) =~= rest.subrange(rn - k, rn));
        assert(decode_last_scalar(s) == decode_last_scalar(rest));
        assert(is_char_boundary(s, n - k));
        vstd::utf8::valid_utf8_split(s, n - k);
    }
}

/// Checks whether `b` is valid UTF-8.  Returns `None` when it is; otherwise
/// returns the length of the longest well-formed prefix, which is also the
/// offset where decoding fails.
pub fn validate_utf8(b: &[u8]) -> (r: Option<usize>)
    ensures
        match r {
            None => valid_utf8(b@),
            Some(i) => utf8_error_at(b@, i as int) && !valid_utf8(b@),
        },
{
    let n = b.len();
    let mut i: usize = 0;
    while i < n
        invariant
            i <= n,
            n == b@.len(),
            valid_utf8(b@.subrange(0, i as int)),
        decreases n - i,
    {
        let ghost tail = b@.subrange(i as int, n as int);
        let b0 = b[i];
        assert(tail[0] == b0);
        if b0 < 0x80 {
            proof {
                assert(((b0 & 0x7F) as u32) < 0xD800) by (bit_vector);
                assert(valid_first_scalar(tail));
                assert(length_of_first_scalar(tail) == 1);
                vstd::utf8::partial_valid_utf8_extend(b@, i as int);
            }
            i = i + 1;
        } else if b0 < 0xC2 {
            proof {
                if 0xC0 <= b0 {
                    let t1 = tail[1];
                    assert(((((b0 & 0x1F) as u32) << 6) | ((t1 & 0x3F) as u32)) < 0x80)
                        by (bit_vector)
                        requires 0xC0 <= b0 < 0xC2;
                }
                assert(!valid_first_scalar(tail));
                lemma_utf8_error_not_valid(b@, i as int);
            }
            return Some(i);
        } else if b0 < 0xE0 {
            if n - i < 2 {
                proof {
                    assert(!valid_first_scalar(tail));
                    lemma_utf8_error_not_valid(b@, i as int);
                }
                return Some(i);
            }
            let b1 = b[i + 1];
            assert(tail[1] == b1);
            if !(0x80 <= b1 && b1 <= 0xBF) {
                proof {
                    assert(!valid_first_scalar(tail));
                    lemma_utf8_error_not_valid(b@, i as int);
                }
                return Some(i);
            }
            proof {
                assert(0x80 <= ((((b0 & 0x1F) as u32) << 6) | ((b1 & 0x3F) as u32)) < 0xD800)
                    by (bit_vector)
                    requires 0xC2 <= b0 < 0xE0;
                assert(valid_first_scalar(tail));
                assert(length_of_first_scalar(tail) == 2);
                vstd::utf8::partial_valid_utf8_extend(b@, i as int);
            }
            i = i + 2;
        } else if b0 < 0xF0 {
            if n - i < 3 {
                proof {
                    assert(!valid_first_scalar(tail));
                    lemma_utf8_error_not_valid(b@, i as int);
                }
                return Some(i);
            }
            let b1 = b[i + 1];
            let b2 = b[i + 2];
            assert(tail[1] == b1 && tail[2] == b2);
            if !(0x80 <= b1 && b1 <= 0xBF) || !(0x80 <= b2 && b2 <= 0xBF) {
                proof {
                    assert(!valid_first_scalar(tail));
                    lemma_utf8_error_not_valid(b@, i as int);
                }
                return Some(i);
            }
            let ghost c3 = (((b0 & 0x0F) as u32) << 12) | (((b1 & 0x3F) as u32) << 6) | (
            (b2 & 0x3F) as u32);
            if b0 == 0xE0 && b1 < 0xA0 {
                proof {
                    assert(c3 < 0x800) by (bit_vector)
                        requires
                            c3 == (((b0 & 0x0F) as u32) << 12) | (((b1 & 0x3F) as u32) << 6) | (
                            (b2 & 0x3F) as u32),
                            b0 == 0xE0,
                            0x80 <= b1 < 0xA0,
                    ;
                    assert(!valid_first_scalar(tail));
                    lemma_utf8_error_not_valid(b@, i as int);
                }
                return Some(i);
            }
            if b0 == 0xED && b1 >= 0xA0 {
                proof {
                    assert(0xD800 <= c3 <= 0xDFFF) by (bit_vector)
                        requires
                            c3 == (((b0 & 0x0F) as u32) << 12) | (((b1 & 0x3F) as u32) << 6) | (
                            (b2 & 0x3F) as u32),
                            b0 == 0xED,
                            0xA0 <= b1 <= 0xBF,
                    ;
                    assert(!valid_first_scalar(tail));
                    lemma_utf8_error_not_valid(b@, i as int);
                }
                return Some(i);
            }
            proof {
                assert(0x800 <= c3 && !(0xD800 <= c3 <= 0xDFFF)) by (bit_vector)
                    requires
                        c3 == (((b0 & 0x0F) as u32) << 12) | (((b1 & 0x3F) as u32) << 6) | (
                        (b2 & 0x3F) as u32),
                        0xE0 <= b0 < 0xF0,
                        0x80 <= b1 <= 0xBF,
                        !(b0 == 0xE0 && b1 < 0xA0),
                        !(b0 == 0xED && b1 >= 0xA0),
                ;
                assert(valid_first_scalar(tail));
                assert(length_of_first_scalar(tail) == 3);
                vstd::utf8::partial_valid_utf8_extend(b@, i as int);
            }
            i = i + 3;
        } else if b0 < 0xF5 {
            if n - i < 4 {
                proof {
                    assert(!valid_first_scalar(tail));
                    lemma_utf8_error_not_valid(b@, i as int);
                }
                return Some(i);
            }
            let b1 = b[i + 1];
            let b2 = b[i + 2];
            let b3 = b[i + 3];
            assert(tail[1] == b1 && tail[2] == b2 && tail[3] == b3);
            if !(0x80 <= b1 && b1 <= 0xBF) || !(0x80 <= b2 && b2 <= 0xBF) || !(0x80 <= b3
                && b3 <= 0xBF) {
                proof {
                    assert(!valid_first_scalar(tail));
                    lemma_utf8_error_not_valid(b@, i as int);
                }
                return Some(i);
            }
            let ghost c4 = (((b0 & 0x07) as u32) << 18) | (((b1 & 0x3F) as u32) << 12) | ((
            (b2 & 0x3F) as u32) << 6) | ((b3 & 0x3F) as u32);
            if (b0 == 0xF0 && b1 < 0x90) || (b0 == 0xF4 && b1 > 0x8F) {
                proof {
                    assert(c4 < 0x10000 || c4 > 0x10FFFF) by (bit_vector)
                        requires
                            c4 == (((b0 & 0x07) as u32) << 18) | (((b1 & 0x3F) as u32) << 12) | ((
                            (b2 & 0x3F) as u32) << 6) | ((b3 & 0x3F) as u32),
                            (b0 == 0xF0 && 0x80 <= b1 < 0x90) || (b0 == 0xF4 && 0x8F < b1
                                <= 0xBF),
                    ;
                    assert(!valid_first_scalar(tail));
                    lemma_utf8_error_not_valid(b@, i as int);
                }
                return Some(i);
            }
            proof {
                assert(0x10000 <= c4 <= 0x10FFFF) by (bit_vector)
                    requires
                        c4 == (((b0 & 0x07) as u32) << 18) | (((b1 & 0x3F) as u32) << 12) | ((
                        (b2 & 0x3F) as u32) << 6) | ((b3 & 0x3F) as u32),
                        0xF0 <= b0 < 0xF5,
                        0x80 <= b1 <= 0xBF,
                        !(b0 == 0xF0 && b1 < 0x90),
                        !(b0 == 0xF4 && b1 > 0x8F),
                ;
                assert(valid_first_scalar(tail));
                assert(length_of_first_scalar(tail) == 4);
                vstd::utf8::partial_valid_utf8_extend(b@, i as int);
            }
            i = i + 4;
        } else {
            proof {
                if b0 < 0xF8 {
                    let t1 = tail[1];
                    let t2 = tail[2];
                    let t3 = tail[3];
                    assert((((b0 & 0x07) as u32) << 18) | (((t1 & 0x3F) as u32) << 12) | ((
                    (t2 & 0x3F) as u32) << 6) | ((t3 & 0x3F) as u32) > 0x10FFFF) by (bit_vector)
                        requires 0xF5 <= b0 < 0xF8;
                }
                assert(!valid_first_scalar(tail));
                lemma_utf8_error_not_valid(b@, i as int);
            }
            return Some(i);
        }
    }
    proof {
        assert(b@.subrange(0, n as int) =~= b@);
    }
    None
}

/// Lexicographic order on byte sequences.  On UTF-8 encoded text this agrees
/// with ordering by Unicode scalar sequence.
pub open spec fn lex_cmp(a: Seq<u8>, b: Seq<u8>) -> core::cmp::Ordering
    decreases a.len(),
{
    if a.len() == 0 && b.len() == 0 {
        core::cmp::Ordering::Equal
    } else if a.len() == 0 {
        core::cmp::Ordering::Less
    } else if b.len() == 0 {
        core::cmp::Ordering::Greater
    } else if a[0] < b[0] {
        core::cmp::Ordering::Less
    } else if a[0] > b[0] {
        core::cmp::Ordering::Greater
    } else {
        lex_cmp(a.drop_first(), b.drop_first())
    }
}

/// Sequences sharing their first `i` elements compare as their remainders do.
proof fn lemma_lex_cmp_common_prefix(a: Seq<u8>, b: Seq<u8>, i: int)
    requires
        0 <= i <= a.len(),
        i <= b.len(),
        forall|j: int| 0 <= j < i ==> a[j] == b[j],
    ensures
        lex_cmp(a, b) == lex_cmp(a.skip(i), b.skip(i)),
    decreases i,
{
    if i > 0 {
        lemma_lex_cmp_common_prefix(a.drop_first(), b.drop_first(), i - 1);
        assert(a.drop_first().skip(i - 1) =~= a.skip(i));
        assert(b.drop_first().skip(i - 1) =~= b.skip(i));
    } else {
        assert(a.skip(0) =~= a);
        assert(b.skip(0) =~= b);
    }
}

/// Two byte sequences compare equal exactly when they are the same sequence.
pub proof fn lemma_lex_cmp_equal(a: Seq<u8>, b: Seq<u8>)
    ensures
        lex_cmp(a, b) == core::cmp::Ordering::Equal <==> a == b,
    decreases a.len(),
{
    if a.len() == 0 && b.len() == 0 {
        assert(a =~= b);
    } else if a.len() > 0 && b.len() > 0 {
        lemma_lex_cmp_equal(a.drop_first(), b.drop_first());
        if a[0] == b[0] {
            if a.drop_first() == b.drop_first() {
                assert(a.len() == b.len());
                assert forall|j: int| 0 <= j < a.len() implies a[j] == b[j] by {
                    if j > 0 {
                        assert(a[j] == a.drop_first()[j - 1]);
                        assert(b[j] == b.drop_first()[j - 1]);
                    }
                }
                assert(a =~= b);
            }
            if a == b {
                assert(a.drop_first() =~= b.drop_first());
            }
        }
    }
}

/// Compares two byte sequences lexicographically.
pub fn compare_bytes(a: &[u8], b: &[u8]) -> (r: core::cmp::Ordering)
    ensures
        r == lex_cmp(a@, b@),
{
    let an = a.len();
    let bn = b.len();
    let n = if an < bn {
        an
    } else {
        bn
    };
    let mut i: usize = 0;
    while i < n
        invariant
            i <= n,
            n <= a@.len(),
            n <= b@.len(),
            n == a@.len() || n == b@.len(),
            forall|j: int| 0 <= j < i ==> a@[j] == b@[j],
        decreases n - i,
    {
        let x = a[i];
        let y = b[i];
        if x < y {
            proof {
                lemma_lex_cmp_common_prefix(a@, b@, i as int);
            }
            return core::cmp::Ordering::Less;
        }
        if x > y {
            proof {
                lemma_lex_cmp_common_prefix(a@, b@, i as int);
            }
            return core::cmp::Ordering::Greater;
        }
        i = i + 1;
    }
    proof {
        lemma_lex_cmp_common_prefix(a@, b@, n as int);
    }
    if a.len() == b.len() {
        core::cmp::Ordering::Equal
    } else if a.len() < b.len() {
        core::cmp::Ordering::Less
    } else {
        core::cmp::Ordering::Greater
    }
}

/// Relies on `core::str::from_utf8`: for valid UTF-8 input it returns `Ok`
/// with the `&str` covering exactly the given bytes, so under the
/// precondition the `unwrap` cannot fail.
#[verifier::external_body]
pub(crate) fn bytes_as_str<'v>(b: &'v [u8]) -> (r: &'v str)
    requires
        valid_utf8(b@),
    ensures
        r.spec_bytes() == b@,
{
    core::str::from_utf8(b).unwrap()
}

/// Relies on `core::str::from_utf8_mut`: for valid UTF-8 input it returns
/// `Ok` with the mutable `&str` covering exactly the given bytes, so under
/// the precondition the `unwrap` cannot fail.  The text and the bytes are
/// the same memory, so they stay equal under mutation, and safe text
/// mutation cannot change the byte length.
#[verifier::external_body]
pub(crate) fn bytes_as_mut_str<'v>(b: &'v mut [u8]) -> (r: &'v mut str)
    requires
        valid_utf8(b@),
    ensures
        r.spec_bytes() == old(b)@,
        final(b)@ == final(r).spec_bytes(),
        final(r).spec_bytes().len() == old(b)@.len(),
{
    core::str::from_utf8_mut(b).unwrap()
}

/// Relies on `char::from_u32`: returns `Some` exactly for Unicode scalar
/// values (codepoints outside the surrogate range and at most 0x10FFFF), and
/// the returned character has the given scalar value.
pub assume_specification[ char::from_u32 ](v: u32) -> (r: Option<char>)
    ensures
        match r {
            Some(c) => is_scalar(v) && c as u32 == v,
            None => !is_scalar(v),
        },
;

} // verus!
