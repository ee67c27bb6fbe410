use modular_agent_jev::text::{chars_of, is_blank, is_whitespace, push_decimal, trim_end_char, trim_str, truncate};

#[test]
fn truncate_keeps_short_text() {
    assert_eq!(truncate("hello", 5), "hello");
    assert_eq!(truncate("", 0), "");
    assert_eq!(truncate("hello", 3), "hel...");
    assert_eq!(truncate("héllo wörld", 4), "héll...");
    assert_eq!(truncate("ab", 0), "...");
}

#[test]
fn trim_matches_std() {
    for s in ["", "  ", " a ", "\u{a0}x y\u{2029}", "\tab\r\n", "x", "\u{200b}a"] {
        assert_eq!(trim_str(s), s.trim());
        assert_eq!(is_blank(s), s.trim().is_empty());
    }
    for c in ['\u{0}', ' ', '\u{85}', '\u{180e}', '\u{2000}', '\u{200a}', '\u{200b}', '\u{3000}', 'a'] {
        assert_eq!(is_whitespace(c), c.is_whitespace());
    }
}

#[test]
fn trim_end_char_drops_every_trailing_match() {
    assert_eq!(trim_end_char("https://a///", '/'), "https://a");
    assert_eq!(trim_end_char("///", '/'), "");
    assert_eq!(trim_end_char("a/b", '/'), "a/b");
}

#[test]
fn decimal_notation() {
    for n in [0u64, 7, 10, 401, u64::MAX] {
        let mut s = String::new();
        push_decimal(&mut s, n);
        assert_eq!(s, n.to_string());
    }
    assert_eq!(chars_of("añb"), vec!['a', 'ñ', 'b']);
}
