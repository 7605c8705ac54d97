use tinyweb::config::ConfigRoute;
use tinyweb::decimal::{decimal_text, parse_u64};
use tinyweb::text::{
    chars_start_with, find_char, find_last_char, joined, same_text, split_chars, split_words,
    to_chars, to_text, trim_bounds, without_prefix,
};

fn accepts(matcher: &str, path: &str) -> bool {
    let route = ConfigRoute { matcher: matcher.to_owned(), directive: vec![] };
    route.is_match(path)
}

#[test]
fn matcher_of_one_path() {
    assert!(accepts("/a", "/a"));
    assert!(!accepts("/a", "/a/"));
    assert!(!accepts("/a", "/"));
    assert!(!accepts("/A", "/a"));
}

#[test]
fn matcher_of_a_prefix() {
    assert!(accepts("/api/*", "/api/"));
    assert!(accepts("/api/*", "/api/x/y"));
    assert!(!accepts("/api/*", "/api"));
    assert!(!accepts("/api/*", "/ap"));
    assert!(accepts("/é*", "/été"));
    assert!(!accepts("/é*", "/e"));
}

#[test]
fn star_matches_all() {
    assert!(accepts("*", "/"));
    assert!(accepts("*", ""));
    assert!(accepts("/x *", "/anything"));
}

#[test]
fn matcher_items_are_alternatives() {
    let both = "/a /b*";
    for path in ["/a", "/b", "/bc", "/ab", "/c", ""] {
        assert_eq!(accepts(both, path), accepts("/a", path) || accepts("/b*", path));
        assert_eq!(accepts(" /b*", path), accepts("", path) || accepts("/b*", path));
        assert_eq!(accepts("/a ", path), accepts("/a", path) || accepts("", path));
        assert_eq!(accepts(" ", path), accepts("", path));
    }
}

#[test]
fn matcher_skips_empty_items() {
    assert!(accepts("  /a   /b\t", "/b"));
    assert!(!accepts("  /a   /b ", ""));
    assert!(!accepts("", ""));
    assert!(!accepts("   ", ""));
}

#[test]
fn matcher_trims_unicode_white_space_but_splits_at_spaces() {
    assert!(accepts("\u{3000}\u{a0}/a\u{2003}\n", "/a"));
    assert!(!accepts("/a\t/b", "/a"));
    assert!(accepts("/a\t/b", "/a\t/b"));
    assert!(!accepts("\u{200b}/a", "/a"));
}

#[test]
fn matcher_with_a_star_elsewhere_accepts_nothing() {
    assert!(!accepts("/a*b", "/a*b"));
    assert!(!accepts("/a*b*", "/a*bc"));
    assert!(!accepts("**", "/"));
    assert!(accepts("/a*b /c", "/c"));
}

#[test]
fn directive_is_split_at_its_first_space() {
    assert_eq!(ConfigRoute::parse_directive("cache 60"), ("cache", "60"));
    assert_eq!(
        ConfigRoute::parse_directive("  wol 01:02:03:04:05:06 10.0.0.1 \n"),
        ("wol", "01:02:03:04:05:06 10.0.0.1")
    );
    assert_eq!(ConfigRoute::parse_directive("file_server"), ("file_server", ""));
    assert_eq!(ConfigRoute::parse_directive("redir  /x"), ("redir", " /x"));
    assert_eq!(ConfigRoute::parse_directive("redir\t/x"), ("redir\t/x", ""));
    assert_eq!(ConfigRoute::parse_directive(""), ("", ""));
    assert_eq!(ConfigRoute::parse_directive("é ü"), ("é", "ü"));
}

#[test]
fn directive_of_a_name_and_a_parameter() {
    for (name, param) in [("rewrite", "/a b"), ("x", "y"), ("redir", " z")] {
        let text = format!("{} {}", name, param);
        assert_eq!(ConfigRoute::parse_directive(&text), (name, param));
    }
}

#[test]
fn numbers_are_read() {
    assert_eq!(parse_u64("0"), Some(0));
    assert_eq!(parse_u64("+007"), Some(7));
    assert_eq!(parse_u64("18446744073709551615"), Some(u64::MAX));
    assert_eq!(parse_u64("00000000000000000000018446744073709551615"), Some(u64::MAX));
    for text in ["", "+", "-1", "1 ", "1.0", "++1", "18446744073709551616", "１"] {
        assert_eq!(parse_u64(text), None);
        assert!(text.parse::<u64>().is_err());
    }
}

#[test]
fn numbers_are_written() {
    assert_eq!(decimal_text(0), "0");
    assert_eq!(decimal_text(9), "9");
    assert_eq!(decimal_text(10), "10");
    assert_eq!(decimal_text(u64::MAX), "18446744073709551615");
}

#[test]
fn numbers_are_read_as_written() {
    for n in [0, 1, 10, 262144, u64::MAX] {
        assert_eq!(parse_u64(&decimal_text(n)), Some(n));
    }
}

#[test]
fn text_is_searched() {
    let chars = to_chars("a@é@b");
    assert_eq!(chars, ['a', '@', 'é', '@', 'b']);
    assert_eq!(find_char(&chars, 0, '@'), 1);
    assert_eq!(find_char(&chars, 2, '@'), 3);
    assert_eq!(find_char(&chars, 4, '@'), 5);
    assert_eq!(find_last_char(&chars, '@'), Some(3));
    assert_eq!(find_last_char(&chars, 'x'), None);
    assert_eq!(to_text(&chars, 2, 4), "é@");
}

#[test]
fn text_is_split() {
    let pieces = split_chars(&to_chars(" a  b"), ' ');
    let texts: Vec<String> = pieces.iter().map(|p| p.iter().collect()).collect();
    assert_eq!(texts, ["", "a", "", "b"]);
    let pieces = split_words(&to_chars("\t a\u{c}\r\nb\u{b}c "));
    let texts: Vec<String> = pieces.iter().map(|p| p.iter().collect()).collect();
    assert_eq!(texts, ["a", "b\u{b}c"]);
    assert!(split_words(&to_chars(" \n")).is_empty());
}

#[test]
fn white_space_is_trimmed() {
    let white = |n: u32| {
        matches!(n, 9..=13 | 32 | 0x85 | 0xa0 | 0x1680 | 0x2000..=0x200a | 0x2028 | 0x2029)
            || matches!(n, 0x202f | 0x205f | 0x3000)
    };
    for n in 0..0x110000 {
        if let Some(c) = char::from_u32(n) {
            let bounds = if white(n) { (1, 1) } else { (0, 1) };
            assert_eq!(trim_bounds(&vec![c]), bounds);
        }
    }
}

#[test]
fn text_is_trimmed_and_compared() {
    assert_eq!(trim_bounds(&to_chars(" \u{85}ab c\u{2029} ")), (2, 6));
    assert_eq!(trim_bounds(&to_chars("  ")), (2, 2));
    assert!(chars_start_with(&to_chars("abc"), &to_chars("ab")));
    assert!(!chars_start_with(&to_chars("a"), &to_chars("ab")));
    assert!(same_text("é", "é"));
    assert!(!same_text("e", "é"));
    assert_eq!(without_prefix("/é/x", "/é"), Some("/x"));
    assert_eq!(without_prefix("/é/x", "/e"), None);
    assert_eq!(joined("file:", "/x"), "file:/x");
}
