use luminousity::text::{
    chars_of, expand_tabs, is_white_space, join_lines, pad_right, splice, split_lines, string_of,
    trim, truncate,
};

fn strings(v: &[&str]) -> Vec<String> {
    v.iter().map(|s| s.to_string()).collect()
}

#[test]
fn chars_and_back() {
    let v = chars_of("héllo");
    assert_eq!(v, vec!['h', 'é', 'l', 'l', 'o']);
    assert_eq!(string_of(&v), "héllo");
}

#[test]
fn expand_tabs_to_tab_stops() {
    assert_eq!(expand_tabs("a\tb", 4), "a   b");
    assert_eq!(expand_tabs("\t", 4), "    ");
    assert_eq!(expand_tabs("abcd\te", 4), "abcd    e");
    assert_eq!(expand_tabs("ab\t\tc", 3), "ab    c");
    assert_eq!(expand_tabs("\tx", 1), " x");
}

#[test]
fn expand_tabs_without_tabs_is_identity() {
    assert_eq!(expand_tabs("plain text", 4), "plain text");
    assert_eq!(expand_tabs("plain", 0), "plain");
    assert_eq!(expand_tabs("", 8), "");
}

#[test]
fn truncate_counts_characters() {
    assert_eq!(truncate("hello", 3), "hel");
    assert_eq!(truncate("hi", 5), "hi");
    assert_eq!(truncate("héllo", 2), "hé");
    assert_eq!(truncate("abc", 0), "");
}

#[test]
fn pad_right_fills_with_spaces() {
    assert_eq!(pad_right("ab", 5), "ab   ");
    assert_eq!(pad_right("abcdef", 3), "abcdef");
    assert_eq!(pad_right("", 2), "  ");
    assert_eq!(pad_right("é", 3), format!("{:<3}", "é"));
}

#[test]
fn trim_strips_unicode_white_space() {
    assert_eq!(trim("  a b \n"), "a b");
    assert_eq!(trim("\u{3000}x\u{a0}"), "x");
    assert_eq!(trim("   "), "");
    assert_eq!(trim("name.txt"), "name.txt");
}

#[test]
fn white_space_matches_std() {
    for c in ['\t', '\n', ' ', '\u{85}', '\u{a0}', '\u{1680}', '\u{2000}', '\u{200a}', '\u{2028}', '\u{2029}', '\u{202f}', '\u{205f}', '\u{3000}', 'a', '0', '\u{200b}', '\u{180e}', '_', '\u{b}', '\u{c}', '\r'] {
        assert_eq!(is_white_space(c), c.is_whitespace(), "{:?}", c);
    }
}

#[test]
fn split_lines_like_str_lines() {
    for text in ["a\r\nb\n", "", "a\n\nb", "x\r", "\n", "one", "a\rb\nc\r\n", "\n\n"] {
        let expected: Vec<String> = text.lines().map(|s| s.to_string()).collect();
        assert_eq!(split_lines(text), expected, "{:?}", text);
    }
    assert_eq!(split_lines("a\r\nb\n"), strings(&["a", "b"]));
}

#[test]
fn join_lines_with_newlines() {
    assert_eq!(join_lines(&strings(&["a", "", "b"])), "a\n\nb");
    assert_eq!(join_lines(&strings(&[""])), "");
    assert_eq!(join_lines(&Vec::new()), "");
}

#[test]
fn split_of_join_round_trip() {
    let lines = strings(&["fn main() {", "    let x = 1;", "", "}"]);
    assert_eq!(split_lines(&join_lines(&lines)), lines);
}

#[test]
fn splice_replaces_a_range() {
    let line = chars_of("hello world");
    let ins = chars_of("there");
    assert_eq!(string_of(&splice(&line, 6, 11, &ins)), "hello there");
    assert_eq!(string_of(&splice(&line, 0, 0, &chars_of(">"))), ">hello world");
}
