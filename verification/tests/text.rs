//! The vocabulary of string operations.
use wispers_access::text;

#[test]
fn texts_are_cut_and_trimmed() {
    assert_eq!(text::trim("\u{3000} a b\t\n"), "a b");
    assert_eq!(text::trim(" \u{2003}"), "");
    assert_eq!(text::trim_end_matches("a//", '/'), "a");
    assert_eq!(
        text::split_once("a.b.c", '.'),
        Some(("a".to_owned(), "b.c".to_owned()))
    );
    assert_eq!(
        text::rsplit_once("a.b.c", '.'),
        Some(("a.b".to_owned(), "c".to_owned()))
    );
    assert_eq!(text::split_once("abc", '.'), None);
    assert_eq!(text::split(",a,", ','), ["", "a", ""]);
    assert_eq!(text::strip_prefix("W/x", "W/").as_deref(), Some("x"));
    assert_eq!(text::strip_prefix("x", "W/"), None);
}

#[test]
fn white_space_is_unicodes() {
    for n in 0..=0x10ffffu32 {
        if let Some(c) = char::from_u32(n) {
            assert_eq!(text::is_white(c), c.is_whitespace(), "{n:x}");
        }
    }
}

#[test]
fn numbers_are_written_and_read() {
    for n in [0, 9, 10, 65535, u64::MAX] {
        let mut s = String::new();
        text::push_decimal(&mut s, n);
        assert_eq!(s, n.to_string());
        assert_eq!(text::parse_number(&s, 10, u64::MAX), Some(n));
    }
    for n in [i64::MIN, -1, 0, i64::MAX] {
        let mut s = String::new();
        text::push_signed(&mut s, n);
        assert_eq!(s, n.to_string());
    }
    for s in ["", "+", "-1", "+7", "007", "65536", "1 ", "٣"] {
        assert_eq!(
            text::parse_number(s, 10, 65535),
            s.parse::<u16>().ok().map(u64::from),
            "{s}"
        );
    }
    let mut s = String::new();
    text::push_hex(&mut s, 0xabc, 5);
    assert_eq!(s, "00abc");
}

#[test]
fn texts_are_ordered_as_their_bytes() {
    let all = ["", "a", "ab", "b", "z", "é", "\u{ffff}", "\u{10000}"];
    for a in all {
        for b in all {
            assert_eq!(text::precedes(a, b), a < b, "{a} {b}");
            assert_eq!(text::same_text(a, b), a == b);
        }
    }
    let mut v: Vec<String> = ["b", "", "é", "a", "b"].iter().map(|s| (*s).to_owned()).collect();
    text::sort(&mut v);
    assert_eq!(v, ["", "a", "b", "b", "é"]);
    assert_eq!(text::join(&v, "-"), "-a-b-b-é");
}
