//! Laws relating the view's operations, stated over the byte sequences and
//! spec functions that the operations' contracts use.

use vstd::prelude::*;

use crate::unicode::truncated;

verus! {

use vstd::utf8::{
    decode_first_scalar, decode_last_scalar, encode_scalar, is_continuation_byte,
    length_of_first_scalar, length_of_last_scalar, valid_utf8,
};

/// Pop inverts push: appending the encoding of a character `c` to valid text
/// `s` yields valid text whose last scalar is exactly `c`'s encoding.  So a
/// `push(c)` that fits, followed by `pop()`, removes exactly the appended
/// bytes — restoring the original length and bytes — and returns `c`.
pub proof fn lemma_push_pop_inverse(s: Seq<u8>, c: char)
    requires
        valid_utf8(s),
    ensures
        ({
            let e = encode_scalar(c as u32);
            let t = s + e;
            &&& valid_utf8(t)
            &&& t.len() > 0
            &&& length_of_last_scalar(t) == e.len()
            &&& decode_last_scalar(t) == c as u32
            &&& t.subrange(0, t.len() - e.len()) == s
        }),
{
    let e = encode_scalar(c as u32);
    let t = s + e;
    let n = t.len() as int;
    let k = e.len() as int;
    crate::unicode::lemma_encode_scalar_singleton(c);
    vstd::utf8::valid_utf8_concat(s, e);
    vstd::utf8::encode_utf8_first_scalar(seq![c]);
    crate::unicode::lemma_first_scalar_bytes(e);
    assert(forall|i: int| 0 <= i < k ==> t[s.len() + i] == e[i]);
    crate::unicode::lemma_last_scalar(t);
    let k2 = length_of_last_scalar(t);
    assert(k2 == k) by {
        if k2 < k {
            assert(is_continuation_byte(t[n - k2]));
        } else if k2 > k {
            assert(is_continuation_byte(t[n - k]));
        }
    }
    assert(t.subrange(n - k, n) =~= e);
    assert(decode_last_scalar(t) == decode_first_scalar(e));
    assert(t.subrange(0, n - k) =~= s);
}

/// Truncation is idempotent and a no-op at or above the current length:
/// shortening to at least the current length leaves the text unchanged, and
/// shortening twice to the same offset equals shortening once.
pub proof fn lemma_truncate_idempotent(s: Seq<u8>, n: int)
    requires
        0 <= n,
    ensures
        n >= s.len() ==> truncated(s, n) == s,
        truncated(truncated(s, n), n) == truncated(s, n),
{
}

} // verus!
