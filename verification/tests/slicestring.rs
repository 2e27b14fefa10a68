use slicestring::SliceString;
use tinyvec::SliceVec;

#[test]
fn new() {
    let mut buf = [0u8; 16];
    let mut s = SliceString::new(&mut buf[..]);
    assert_eq!(0, s.len());

    s.push_str("Hello world!").unwrap();
    assert_eq!(s.as_str(), "Hello world!");

    assert!(!s.is_empty());
    s.clear();
    assert_eq!(s.len(), 0);

    s.push_str("foo").unwrap();
    s.truncate(2);
    assert_eq!(s.len(), 2);
    assert_eq!(s.as_str(), "fo");

    s.push('r').unwrap();
    assert_eq!(s.as_str(), "for");

    assert!(s.push_str("oooooooooooooooooooooo").is_err());

    let a = s.split_off(2);
    assert_eq!(s.as_str(), "fo");
    assert_eq!(a.as_str(), "r");

    let _r = s.as_mut_slicevec();
}

#[test]
fn cmp() {
    let mut b1 = "abcd".as_bytes().to_owned();
    let s1 = SliceString::from_utf8(&mut b1[..], 4).unwrap();
    let mut b2 = "zzzz".as_bytes().to_owned();
    let s2 = SliceString::from_utf8(&mut b2[..], 4).unwrap();
    assert!(s1 < s2);
}

#[test]
fn pop_empty_returns_none() {
    let mut buf = [0u8; 8];
    let mut s = SliceString::new(&mut buf[..]);
    assert_eq!(s.pop(), None);
    assert_eq!(s.len(), 0);
}

#[test]
fn pop_returns_last_char() {
    let mut buf = [0u8; 8];
    let mut s = SliceString::new(&mut buf[..]);
    s.push_str("for").unwrap();
    assert_eq!(s.pop(), Some('r'));
    assert_eq!(s.as_str(), "fo");
    assert_eq!(s.len(), 2);
}

#[test]
fn push_pop_inverse_multibyte() {
    let mut buf = [0u8; 16];
    let mut s = SliceString::new(&mut buf[..]);
    s.push_str("ab").unwrap();
    for c in ['z', '\u{e9}', '\u{65e5}', '\u{1f980}'] {
        let before_len = s.len();
        let before = s.as_str().to_owned();
        s.push(c).unwrap();
        assert_eq!(s.pop(), Some(c));
        assert_eq!(s.len(), before_len);
        assert_eq!(s.as_str(), before);
    }
}

#[test]
fn pop_walks_back_through_widths() {
    let mut buf = [0u8; 16];
    let mut s = SliceString::new(&mut buf[..]);
    s.push_str("a\u{e9}\u{65e5}\u{1f980}").unwrap();
    assert_eq!(s.len(), 1 + 2 + 3 + 4);
    assert_eq!(s.pop(), Some('\u{1f980}'));
    assert_eq!(s.pop(), Some('\u{65e5}'));
    assert_eq!(s.pop(), Some('\u{e9}'));
    assert_eq!(s.pop(), Some('a'));
    assert_eq!(s.pop(), None);
}

#[test]
fn push_capacity_error_is_atomic() {
    let mut buf = [0u8; 3];
    let mut s = SliceString::new(&mut buf[..]);
    s.push_str("ab").unwrap();
    // a two-byte character does not fit in the one remaining byte
    assert!(s.push('\u{e9}').is_err());
    assert_eq!(s.as_str(), "ab");
    assert_eq!(s.len(), 2);
    assert_eq!(s.capacity(), 3);
    // a one-byte character still fits exactly
    s.push('c').unwrap();
    assert_eq!(s.as_str(), "abc");
    assert!(s.push('d').is_err());
    assert_eq!(s.as_str(), "abc");
}

#[test]
fn push_str_capacity_error_is_atomic() {
    let mut buf = [0u8; 4];
    let mut s = SliceString::new(&mut buf[..]);
    s.push_str("ab").unwrap();
    assert!(s.push_str("cde").is_err());
    assert_eq!(s.as_str(), "ab");
    assert_eq!(s.len(), 2);
    assert_eq!(s.as_bytes(), b"ab");
    s.push_str("cd").unwrap();
    assert_eq!(s.as_str(), "abcd");
}

#[test]
fn truncate_above_len_is_noop() {
    let mut buf = [0u8; 8];
    let mut s = SliceString::new(&mut buf[..]);
    s.push_str("foo").unwrap();
    s.truncate(10);
    assert_eq!(s.as_str(), "foo");
    s.truncate(3);
    assert_eq!(s.as_str(), "foo");
    s.truncate(1);
    s.truncate(1);
    assert_eq!(s.as_str(), "f");
}

#[test]
fn split_off_concatenation() {
    let mut buf = [0u8; 16];
    let mut s = SliceString::new(&mut buf[..]);
    s.push_str("hello world").unwrap();
    let tail = s.split_off(5);
    assert_eq!(s.as_str(), "hello");
    assert_eq!(tail.as_str(), " world");
    assert_eq!(s.len() + tail.len(), 11);
    assert_eq!(s.capacity(), 5);
    assert_eq!(tail.capacity(), 11);
}

#[test]
fn split_off_at_len_gives_empty_tail() {
    let mut buf = [0u8; 8];
    let mut s = SliceString::new(&mut buf[..]);
    s.push_str("ab").unwrap();
    let tail = s.split_off(2);
    assert_eq!(s.as_str(), "ab");
    assert_eq!(tail.as_str(), "");
    assert_eq!(tail.capacity(), 6);
}

#[test]
fn from_utf8_rejects_invalid_bytes() {
    let mut buf = [0x66u8, 0x6F, 0xFF, 0x6F];
    let e = match SliceString::from_utf8(&mut buf[..], 4) {
        Err(e) => e,
        Ok(_) => panic!("expected a decode error"),
    };
    assert_eq!(e.valid_up_to, 2);
}

#[test]
fn from_utf8_rejects_truncated_char() {
    // the first byte of a two-byte encoding, with nothing after it
    let mut buf = [0x61u8, 0xC3];
    let e = match SliceString::from_utf8(&mut buf[..], 2) {
        Err(e) => e,
        Ok(_) => panic!("expected a decode error"),
    };
    assert_eq!(e.valid_up_to, 1);
}

#[test]
fn from_utf8_rejects_surrogate_and_overlong() {
    let mut surrogate = [0xEDu8, 0xA0, 0x80];
    let e = match SliceString::from_utf8(&mut surrogate[..], 3) {
        Err(e) => e,
        Ok(_) => panic!("expected a decode error"),
    };
    assert_eq!(e.valid_up_to, 0);

    let mut overlong = [0xC0u8, 0xAF];
    let e = match SliceString::from_utf8(&mut overlong[..], 2) {
        Err(e) => e,
        Ok(_) => panic!("expected a decode error"),
    };
    assert_eq!(e.valid_up_to, 0);
}

#[test]
fn from_utf8_accepts_prefix_only() {
    // only the first `len` bytes are interpreted; the rest is spare capacity
    let mut buf = [0x68u8, 0x69, 0xFF, 0xFF];
    let s = SliceString::from_utf8(&mut buf[..], 2).unwrap();
    assert_eq!(s.as_str(), "hi");
    assert_eq!(s.capacity(), 4);
}

#[test]
fn from_utf8_unchecked_trusts_caller() {
    let mut buf = [0x68u8, 0x69, 0, 0];
    let s = SliceString::from_utf8_unchecked(&mut buf[..], 2);
    assert_eq!(s.as_str(), "hi");
    assert_eq!(s.len(), 2);
    assert_eq!(s.capacity(), 4);
}

#[test]
fn slicevec_roundtrip_preserves_text() {
    let mut buf = *b"hello";
    let sv = SliceVec::from_slice_len(&mut buf[..], 5);
    let s = SliceString::new_unchecked(sv);
    assert_eq!(s.as_str(), "hello");
    let sv2 = s.into_slicevec();
    assert_eq!(sv2.len(), 5);
    assert_eq!(sv2.capacity(), 5);
    let s2 = SliceString::new_unchecked(sv2);
    assert_eq!(s2.as_str(), "hello");
}

#[test]
fn try_from_slicevec_validates() {
    let mut good = *b"abc";
    let sv = SliceVec::from_slice_len(&mut good[..], 3);
    let s = SliceString::try_from_slicevec(sv).unwrap();
    assert_eq!(s.as_str(), "abc");

    let mut bad = [0x61u8, 0x80, 0x62];
    let sv = SliceVec::from_slice_len(&mut bad[..], 3);
    let e = match SliceString::try_from_slicevec(sv) {
        Err(e) => e,
        Ok(_) => panic!("expected a decode error"),
    };
    assert_eq!(e.valid_up_to, 1);
}

#[test]
fn as_mut_slicevec_allows_raw_edits() {
    let mut buf = [0u8; 8];
    let mut s = SliceString::new(&mut buf[..]);
    s.push_str("abc").unwrap();
    {
        let sv = s.as_mut_slicevec();
        sv.as_mut_slice()[0] = b'x';
    }
    assert_eq!(s.as_str(), "xbc");
}

#[test]
fn as_mut_str_edits_in_place() {
    let mut buf = [0u8; 8];
    let mut s = SliceString::new(&mut buf[..]);
    s.push_str("abc").unwrap();
    s.as_mut_str().make_ascii_uppercase();
    assert_eq!(s.as_str(), "ABC");
    assert_eq!(s.len(), 3);
}

#[test]
fn eq_and_order() {
    let mut b1 = [0u8; 4];
    let mut s1 = SliceString::new(&mut b1[..]);
    s1.push_str("abc").unwrap();
    let mut b2 = [0u8; 8];
    let mut s2 = SliceString::new(&mut b2[..]);
    s2.push_str("abc").unwrap();
    // capacities differ; only the occupied text is compared
    assert!(s1 == s2);
    s2.push('d').unwrap();
    assert!(s1 != s2);
    assert!(s1 < s2);
    assert!(s2 > s1);
}

#[test]
fn default_is_empty() {
    let s = SliceString::default();
    assert_eq!(s.len(), 0);
    assert_eq!(s.capacity(), 0);
    assert!(s.is_empty());
}

#[test]
fn clear_keeps_capacity() {
    let mut buf = [0u8; 6];
    let mut s = SliceString::new(&mut buf[..]);
    s.push_str("abc").unwrap();
    s.clear();
    assert_eq!(s.len(), 0);
    assert_eq!(s.capacity(), 6);
    s.push_str("xyzxyz").unwrap();
    assert_eq!(s.as_str(), "xyzxyz");
}
