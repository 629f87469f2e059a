use cargo_with::text::{
    chars_of, contains, is_whitespace, join_with_spaces, lines, replace, split_whitespace, trim,
};

#[test]
fn whitespace_chars() {
    assert!(is_whitespace(' '));
    assert!(is_whitespace('\t'));
    assert!(is_whitespace('\n'));
    assert!(is_whitespace('\u{3000}'));
    assert!(is_whitespace('\u{85}'));
    assert!(!is_whitespace('a'));
    assert!(!is_whitespace('\u{200b}'));
    for c in ['\u{0}', 'x', ' ', '\u{a0}', '\u{1680}', '\u{2009}', '\u{feff}'] {
        assert_eq!(is_whitespace(c), c.is_whitespace());
    }
}

#[test]
fn split_on_whitespace() {
    assert_eq!(split_whitespace("  echo {bin}\t x\n"), vec!["echo", "{bin}", "x"]);
    assert!(split_whitespace("   ").is_empty());
    assert_eq!(split_whitespace("a\u{3000}b"), vec!["a", "b"]);
}

#[test]
fn trimming() {
    assert_eq!(trim("  gdb --args \n"), "gdb --args");
    assert_eq!(trim(""), "");
    assert_eq!(trim(" \t "), "");
}

#[test]
fn contains_pattern() {
    assert!(contains("echo {bin}", "{bin}"));
    assert!(!contains("echo {bi}n", "{bin}"));
    assert!(contains("abc", ""));
    assert!(!contains("ab", "abc"));
}

#[test]
fn replace_pattern() {
    assert_eq!(replace("{bin}-{bin}", "{bin}", "x"), "x-x");
    assert_eq!(replace("aaa", "aa", "b"), "ba");
    assert_eq!(replace("none", "{bin}", "x"), "none");
}

#[test]
fn lines_like_std() {
    for s in ["", "a", "a\n", "a\r\nb", "a\n\nb\r", "\n", "\r\n", "x\ny\n"] {
        let ours: Vec<&str> = lines(s);
        let std: Vec<&str> = s.lines().collect();
        assert_eq!(ours, std, "lines of {:?}", s);
    }
}

#[test]
fn joined_with_spaces() {
    assert_eq!(join_with_spaces(&vec!["a", "b", "c"]), "a b c");
    assert_eq!(join_with_spaces(&vec![]), "");
    assert_eq!(join_with_spaces(&vec!["only"]), "only");
}

#[test]
fn chars_in_order() {
    assert_eq!(chars_of("añb"), vec!['a', 'ñ', 'b']);
}
