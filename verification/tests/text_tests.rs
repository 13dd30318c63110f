use playlist_catalog::text::{
    char_is_whitespace, chars_of, contains_text, find_char, find_first, is_lex_less, matches_at,
    push_chars, push_decimal, push_str, same_chars, same_text, split_lines, starts_with, string_of,
    trimmed, without_prefixes,
};

fn chars(s: &str) -> Vec<char> {
    s.chars().collect()
}

fn text(c: &[char]) -> String {
    c.iter().collect()
}

#[test]
fn chars_and_strings_round_trip() {
    for s in ["", "a", "héllo wörld", "日本語\n\t", "a\u{10FFFF}b"] {
        assert_eq!(chars_of(s), chars(s));
        assert_eq!(string_of(&chars(s)), s);
    }
}

#[test]
fn whitespace_is_the_unicode_property() {
    for code in 0u32..=0x10FFFF {
        if let Some(c) = char::from_u32(code) {
            assert_eq!(char_is_whitespace(c), c.is_whitespace(), "code point {:x}", code);
        }
    }
}

#[test]
fn trimmed_cuts_both_ends() {
    for s in ["", " ", "  a b  ", "\t\u{a0}x\u{3000}\r\n", "x", " x", "x ", "\u{2003}é \u{2003}"] {
        assert_eq!(text(trimmed(&chars(s))), s.trim());
    }
}

#[test]
fn without_prefixes_cuts_every_repetition() {
    let cases = [
        ("", "ab"),
        ("ababc", "ab"),
        ("abab", "ab"),
        ("xab", "ab"),
        ("aaa", "a"),
        ("aaa", ""),
        ("#EXTINF:-1#EXTINF:-1 x", "#EXTINF:-1"),
        ("tvg-id=\"\" rest", "tvg-id=\"\""),
    ];
    for (s, p) in cases {
        assert_eq!(text(without_prefixes(&chars(s), &chars(p))), s.trim_start_matches(p), "{:?} {:?}", s, p);
    }
}

#[test]
fn find_first_gives_the_leftmost_place() {
    let cases = [
        ("", ""),
        ("abc", ""),
        ("", "a"),
        ("abcabc", "bc"),
        ("abcabc", "abcabc"),
        ("abcabc", "abcabcd"),
        ("aaab", "aab"),
        ("group=\"x\" group-title=\"y\"", "group-title=\""),
        ("äöü", "ü"),
    ];
    for (s, p) in cases {
        let expected = s.find(p).map(|byte| s[..byte].chars().count());
        assert_eq!(find_first(&chars(s), &chars(p)), expected, "{:?} {:?}", s, p);
        assert_eq!(contains_text(&chars(s), &chars(p)), s.contains(p));
        assert_eq!(starts_with(&chars(s), &chars(p)), s.starts_with(p));
    }
}

#[test]
fn matches_at_tests_one_place() {
    let s = chars("abcabc");
    assert!(matches_at(&s, &chars("bc"), 1));
    assert!(matches_at(&s, &chars("bc"), 4));
    assert!(!matches_at(&s, &chars("bc"), 0));
    assert!(!matches_at(&s, &chars("bc"), 5));
    assert!(matches_at(&s, &chars(""), 6));
    assert!(!matches_at(&s, &chars(""), 7));
    assert!(!matches_at(&s, &chars("a"), usize::MAX));
}

#[test]
fn find_char_gives_the_leftmost_place() {
    assert_eq!(find_char(&chars("a,b,c"), ','), Some(1));
    assert_eq!(find_char(&chars(",a"), ','), Some(0));
    assert_eq!(find_char(&chars("abc"), ','), None);
    assert_eq!(find_char(&chars(""), ','), None);
}

#[test]
fn same_text_is_equality() {
    assert!(same_text("", ""));
    assert!(same_text("mpv", "mpv"));
    assert!(!same_text("mpv", "mpv "));
    assert!(!same_text("mpv", "mpw"));
    assert!(!same_text("Mpv", "mpv"));
    assert!(same_chars(&chars("äb"), &chars("äb")));
    assert!(!same_chars(&chars("a"), &chars("")));
}

#[test]
fn lexicographic_order_is_that_of_strings() {
    let words = ["", "a", "A", "ab", "abc", "b", "B", "é", "z", "日本", "\u{10FFFF}", "a\u{0}", "ESPN", "BBC News HD"];
    for a in words {
        for b in words {
            assert_eq!(is_lex_less(&chars(a), &chars(b)), a < b, "{:?} {:?}", a, b);
        }
    }
}

#[test]
fn decimal_numerals() {
    for n in [0usize, 1, 9, 10, 11, 99, 100, 101, 12345, 1000000, usize::MAX] {
        let mut out = chars("n=");
        push_decimal(&mut out, n);
        assert_eq!(text(&out), format!("n={}", n));
    }
}

#[test]
fn push_str_and_push_chars_append() {
    let mut out = chars("ab");
    push_str(&mut out, "çd");
    push_chars(&mut out, &chars("ef"));
    push_str(&mut out, "");
    assert_eq!(text(&out), "abçdef");
}

#[test]
fn split_lines_splits_at_line_feeds() {
    let cases = [
        "",
        "\n",
        "a",
        "a\n",
        "a\nb",
        "a\r\nb\r\n",
        "a\r\n\r\nb",
        "\r\n",
        "a\rb\nc\r",
        "\n\n",
        "x\r\r\ny",
        "#EXTM3U\n#EXTINF:-1,A\nhttp://a\n",
    ];
    for s in cases {
        let expected: Vec<String> = s.lines().map(|l| l.to_string()).collect();
        let lines: Vec<String> = split_lines(&chars(s)).iter().map(|l| text(l)).collect();
        assert_eq!(lines, expected, "{:?}", s);
    }
}

#[test]
fn split_lines_exact() {
    let lines = split_lines(&chars("one\r\ntwo\n\nlast\r"));
    let lines: Vec<String> = lines.iter().map(|l| text(l)).collect();
    assert_eq!(lines, vec!["one", "two", "", "last\r"]);
}
