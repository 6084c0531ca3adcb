//! Text operations, held against those of the standard library.

use jishuken::order::{not_after, sorted};
use jishuken::text::{
    begins_with, chars_of, contains_text, decimal_text, digit, join, letter, read_decimal,
    same, space, split_first, split_last, split_text, string_of, to_small, to_small_text, trimmed,
    trimmed_end, trimmed_start,
};

const SAMPLES: [&str; 12] = [
    "",
    " ",
    "a",
    "a.b.c",
    "  a b\t\n",
    "\u{3000}日本\u{a0}",
    "ÀÉ é",
    "..",
    ".x.",
    "x: y: z",
    "\u{feff}x\u{200b}",
    "naïve Café",
];

#[test]
fn characters_are_classed_as_by_the_standard_library() {
    for c in '\0'..=char::MAX {
        assert_eq!(space(c), c.is_whitespace(), "{c:?}");
        assert_eq!(digit(c), c.is_ascii_digit(), "{c:?}");
        assert_eq!(letter(c), c.is_ascii_alphabetic(), "{c:?}");
        assert_eq!(to_small(c), c.to_ascii_lowercase(), "{c:?}");
    }
}

#[test]
fn texts_are_trimmed_and_split_as_by_the_standard_library() {
    for s in SAMPLES {
        assert_eq!(trimmed(s), s.trim());
        assert_eq!(trimmed_start(s), s.trim_start());
        assert_eq!(trimmed_end(s), s.trim_end());
        assert_eq!(to_small_text(s), s.to_ascii_lowercase());
        let pair = |p: Option<(&str, &str)>| p.map(|(a, b)| (a.to_string(), b.to_string()));
        assert_eq!(split_first(s, '.'), pair(s.split_once('.')));
        assert_eq!(split_last(s, '.'), pair(s.rsplit_once('.')));
        assert_eq!(split_text(s, ": "), pair(s.split_once(": ")));
        for p in SAMPLES {
            assert_eq!(contains_text(s, p), s.contains(p), "{s:?} {p:?}");
            assert_eq!(begins_with(s, p), s.starts_with(p), "{s:?} {p:?}");
            assert_eq!(same(s, p), s == p);
            assert_eq!(not_after(s, p), s <= p, "{s:?} {p:?}");
        }
    }
}

#[test]
fn texts_are_joined_and_sorted() {
    let list: Vec<String> = SAMPLES.iter().map(|s| s.to_string()).collect();
    assert_eq!(join(&list, ", "), SAMPLES.join(", "));
    assert_eq!(join(&vec![], ", "), "");
    assert_eq!(jishuken::text::concat(&list), SAMPLES.concat());
    let mut expected = list.clone();
    expected.sort();
    assert_eq!(sorted(&list), expected);
}

#[test]
fn numbers_are_read_and_written() {
    for n in [0u128, 7, 10, 99, 100, 1_234_567_890, u128::MAX] {
        assert_eq!(decimal_text(n), n.to_string());
        let digits = chars_of(&n.to_string());
        assert_eq!(read_decimal(&digits, 0, digits.len()), Some(n));
    }
    let over = chars_of("340282366920938463463374607431768211456");
    assert_eq!(read_decimal(&over, 0, over.len()), None);
    let v = chars_of("x日本y");
    assert_eq!(string_of(&v, 1, 3), "日本");
}
