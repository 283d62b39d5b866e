//! Text functions against those of std.

use localdb_core::text::{
    chars_of, find_from, is_whitespace, join, replace_all, same_text, stands_before, to_decimal,
    trim,
};

#[test]
fn white_space_is_that_of_unicode() {
    for n in 0..=0x10ffffu32 {
        if let Some(c) = char::from_u32(n) {
            assert_eq!(is_whitespace(c), c.is_whitespace(), "{n:x}");
        }
    }
}

#[test]
fn trimming_joining_and_replacing() {
    for s in ["", " ", "a", " a ", "\u{2003}x y\n", "\u{85}\u{a0}z"] {
        assert_eq!(trim(s), s.trim());
    }
    let parts: Vec<String> = vec!["a".to_string(), String::new(), "ü".to_string()];
    assert_eq!(join(&parts, ", "), parts.join(", "));
    assert_eq!(join(&[], ", "), "");
    for (s, p, w) in [("aaaa", "aa", "b"), ("xyx", "x", ""), ("abc", "d", "e"), ("ü-ü", "ü", "üü")] {
        assert_eq!(replace_all(s, p, w), s.replace(p, w));
    }
}

#[test]
fn texts_are_ordered_as_std_orders_them() {
    let texts = ["", "a", "ab", "b", "B", "ä", "\u{ffff}", "\u{10000}", "a\u{0}"];
    for a in texts {
        for b in texts {
            assert_eq!(stands_before(a, b), a < b, "{a:?} {b:?}");
            assert_eq!(same_text(a, b), a == b);
        }
    }
}

#[test]
fn searching_counts_characters() {
    let chars = chars_of("äbäb");
    assert_eq!(find_from(&chars, "äb", 0), Some(0));
    assert_eq!(find_from(&chars, "äb", 1), Some(2));
    assert_eq!(find_from(&chars, "äb", 3), None);
    assert_eq!(find_from(&chars, "", 4), Some(4));
    assert_eq!(find_from(&chars, "", 5), None);
}

#[test]
fn decimals() {
    for n in [0, 9, 10, 101, 4_294_967_295, u64::MAX] {
        assert_eq!(to_decimal(n), n.to_string());
    }
}
