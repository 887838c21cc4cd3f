//! Texts, numbers and their order.

use forge::numbers::{count_text, hex_text, number_text, signed_text, two_digits};
use forge::order::{sorted, text_le};
use forge::text::{
    after_prefix, contains_text, head_line, is_blank, is_whitespace, join, split_at_char,
    to_lowercase, trim,
};

#[test]
fn whitespace_is_that_of_unicode() {
    for code in 0..=0x10ffffu32 {
        if let Some(c) = char::from_u32(code) {
            assert_eq!(is_whitespace(c), c.is_whitespace(), "{code:x}");
        }
    }
}

#[test]
fn trimming() {
    for s in ["", " ", "a", " a ", "\u{2003}x y\u{a0}\n", "\t\r\n"] {
        assert_eq!(trim(s), s.trim());
        assert_eq!(is_blank(s), s.trim().is_empty());
    }
}

#[test]
fn searching_and_splitting() {
    assert!(contains_text("abcabd", "abd") && contains_text("x", "") && !contains_text("", "x"));
    assert_eq!(after_prefix("gitdir: x", "gitdir:").as_deref(), Some(" x"));
    assert_eq!(after_prefix("git", "gitdir:"), None);
    for s in ["", "a", "a\nb", "\n", "a\n\n", "\nb"] {
        let std: Vec<&str> = s.split('\n').collect();
        assert_eq!(split_at_char(s, '\n'), std);
    }
    for s in ["", "a", "a\nb", "\nb", "a\r\nb", "a\r", "\r\n"] {
        assert_eq!(head_line(s), s.lines().next().unwrap_or(s), "{s:?}");
    }
    assert_eq!(join(&["a".to_string(), "b".to_string()], " -> "), "a -> b");
    assert_eq!(join(&[], ", "), "");
    assert_eq!(to_lowercase("ÄbC-Z@[`{"), "ÄbC-Z@[`{".to_ascii_lowercase());
}

#[test]
fn numbers_are_written_in_decimal() {
    for n in [0u128, 9, 10, 99, 12345678901234567890, u128::MAX] {
        assert_eq!(number_text(n), n.to_string());
    }
    assert_eq!(count_text(usize::MAX), usize::MAX.to_string());
    for n in [0i64, -1, 42, i64::MIN, i64::MAX] {
        assert_eq!(signed_text(n), n.to_string());
    }
    for n in [0u64, 5, 10, 123] {
        assert_eq!(two_digits(n), format!("{n:02}"));
    }
    for n in [0u64, 0xabc, u64::MAX] {
        assert_eq!(hex_text(n, 16), format!("{n:016x}"));
    }
}

#[test]
fn texts_are_ordered_as_by_std() {
    let words = ["", "a", "b", "ab", "B", "é", "z", "ab ", "\u{10ffff}", "aa"];
    for x in words {
        for y in words {
            assert_eq!(text_le(x, y), x <= y, "{x} {y}");
        }
    }
    let list: Vec<String> = words.iter().chain(["a", "b"].iter()).map(|w| w.to_string()).collect();
    let mut std = list.clone();
    std.sort();
    assert_eq!(sorted(&list), std);
}
