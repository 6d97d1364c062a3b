use core::cmp::Ordering;
use rawstring::{
    compare_bytes, eq_bytes, Alignment, BStr, BString, RawStr, UTF8_REPLACEMENT_CHARACTER,
};
use std::collections::HashSet;

#[test]
fn raw_str_wraps_bytes_transparently() {
    let data = [1u8, 2, 3];
    let raw = RawStr::new(&data);
    assert_eq!(raw.len(), 3);
    assert_eq!(raw.as_bytes(), &data);
    for i in 0..data.len() {
        assert_eq!(raw.as_bytes()[i], data[i]);
    }
    assert!(!raw.is_empty());
    assert!(RawStr::new(b"").is_empty());
}

#[test]
fn raw_str_from_text() {
    let text = "Hello, world!";
    let raw = RawStr::new(text.as_bytes());
    assert!(raw.eq_bytes(text.as_bytes()));
    assert_eq!(raw.to_display_string(), text);
    assert_eq!(raw.to_debug_string(), "\"Hello, world!\"");
}

#[test]
fn raw_str_to_utf8_ok() {
    let good = RawStr::new("Hello, wörld!".as_bytes());
    assert!(good.is_utf8());
    assert_eq!(good.to_utf8().unwrap(), "Hello, wörld!");
}

#[test]
fn raw_str_to_utf8_err_position() {
    let bad = RawStr::new(b"abc\xFFabc");
    assert!(!bad.is_utf8());
    let err = bad.to_utf8().unwrap_err();
    assert_eq!(err.valid_up_to, 3);
}

#[test]
fn raw_str_to_utf8_err_truncated() {
    // a truncated two-byte encoding: the well-formed prefix ends before it
    let bad = RawStr::new(&[0x61, 0x62, 0xC3]);
    let err = bad.to_utf8().unwrap_err();
    assert_eq!(err.valid_up_to, 2);
}

#[test]
fn raw_str_equality_and_order() {
    let a = RawStr::new(b"abc");
    let b = RawStr::new(b"abd");
    let a2 = RawStr::new(b"abc");
    assert!(a == a2);
    assert!(a != b);
    assert!(a < b);
    assert_eq!(a.compare(&b), Ordering::Less);
    assert_eq!(b.compare(&a), Ordering::Greater);
    assert_eq!(a.compare(&a2), Ordering::Equal);
    assert_eq!(a.cmp_bytes(b"ab"), Ordering::Greater);
    assert_eq!(a.cmp_bytes(b"abca"), Ordering::Less);
}

#[test]
fn order_agrees_with_byte_comparison() {
    let runs: [&[u8]; 5] = [b"", b"a", b"ab", &[0x61, 0xFF], &[0xFF]];
    for x in runs {
        for y in runs {
            assert_eq!(compare_bytes(x, y), x.cmp(y), "{x:?} vs {y:?}");
            assert_eq!(eq_bytes(x, y), x == y);
        }
    }
}

#[test]
fn bstr_wraps_and_renders() {
    let b = BStr::new(&[0x61, 0xFF, 0x62]);
    assert_eq!(b.len(), 3);
    assert_eq!(b.as_bytes(), &[0x61, 0xFF, 0x62]);
    assert_eq!(b.to_display_string(), "a\u{FFFD}b");
    assert_eq!(b.to_debug_string(), "\"a\\xffb\"");
    assert!(b.eq_bytes(&[0x61, 0xFF, 0x62]));
    assert!(BStr::from_bytes(b"x") == BStr::new(b"x"));
    assert!(BStr::new(b"a") < BStr::new(b"b"));
}

#[test]
fn bstring_owns_and_projects() {
    let mut s = BString::new(b"ab".to_vec());
    assert_eq!(s.len(), 2);
    s.push(0xFF);
    assert_eq!(s.len(), 3);
    assert_eq!(s.as_bytes(), &[0x61, 0x62, 0xFF]);
    let view = s.as_bstr();
    assert_eq!(view.as_bytes(), s.as_bytes());
    assert_eq!(view.to_display_string(), "ab\u{FFFD}");
    assert_eq!(s.to_display_string(), "ab\u{FFFD}");
    assert_eq!(s.to_debug_string(), "\"ab\\xff\"");
    assert_eq!(s.into_bytes(), vec![0x61, 0x62, 0xFF]);
}

#[test]
fn bstring_equality_and_order() {
    let a = BString::from_slice(b"abc");
    let b = BString::from_slice(b"abd");
    assert!(a == BString::new(b"abc".to_vec()));
    assert!(a != b);
    assert!(a < b);
    assert_eq!(a.compare(&b), Ordering::Less);
    assert!(a.eq_bytes(b"abc"));
    assert!(!a.eq_bytes(b"ab"));
}

#[test]
fn bstring_into_utf8() {
    let good = BString::from_slice("text".as_bytes());
    assert_eq!(good.into_utf8().unwrap(), "text");
    let bad = BString::new(vec![0xC3]);
    assert_eq!(bad.into_utf8().unwrap_err().valid_up_to, 0);
}

#[test]
fn raw_str_padded_method() {
    let raw = RawStr::new("ab".as_bytes());
    assert_eq!(raw.to_display_string_padded(Alignment::Center, 6, '*'), "**ab**");
    assert_eq!(raw.display_len(), 2);
}

#[test]
fn bstring_default_empty() {
    let s: BString = Default::default();
    assert!(s.is_empty());
    assert_eq!(s.len(), 0);
}

#[test]
fn bstring_hashes_by_bytes() {
    let mut set = HashSet::new();
    set.insert(BString::from_slice(b"a"));
    set.insert(BString::from_slice(b"a"));
    set.insert(BString::from_slice(&[0xFF]));
    assert_eq!(set.len(), 2);
}

#[test]
fn replacement_character_constant() {
    assert_eq!(UTF8_REPLACEMENT_CHARACTER, '\u{FFFD}');
    assert_eq!(UTF8_REPLACEMENT_CHARACTER as u32, 0xFFFD);
}
