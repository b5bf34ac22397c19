use inspect_commits::text::{
    chars_of, contains_str, join_strings, replace_chars, split_str, string_of, trim_str,
};

fn replace(s: &str, from: &str, to: &str) -> String {
    let r = replace_chars(&chars_of(s), &chars_of(from), &chars_of(to));
    string_of(&r)
}

#[test]
fn trim_removes_surrounding_white_space() {
    assert_eq!(trim_str("  main\n"), "main");
    assert_eq!(trim_str("\t a b \u{3000}"), "a b");
    assert_eq!(trim_str("   "), "");
    assert_eq!(trim_str(""), "");
    assert_eq!(trim_str("x"), "x");
}

#[test]
fn trim_agrees_with_std() {
    for s in ["", " ", "\u{85}a\u{a0}", "\u{2028}b c\u{205f}", "\r\nline\r\n", "\u{200b}z"] {
        assert_eq!(trim_str(s), s.trim());
    }
}

#[test]
fn contains_finds_substrings() {
    assert!(contains_str("git@github.com:a/b.git", "github.com"));
    assert!(!contains_str("git@gitlab.com:a/b.git", "github.com"));
    assert!(contains_str("abc", ""));
    assert!(contains_str("", ""));
    assert!(!contains_str("", "a"));
    assert!(contains_str("aab", "ab"));
    assert!(!contains_str("ab", "abc"));
}

#[test]
fn split_keeps_empty_pieces() {
    assert_eq!(split_str("a1\nb2\nc3", '\n'), vec!["a1", "b2", "c3"]);
    assert_eq!(split_str("a1\n", '\n'), vec!["a1", ""]);
    assert_eq!(split_str("", '\n'), vec![""]);
    assert_eq!(split_str("\n\n", '\n'), vec!["", "", ""]);
}

#[test]
fn split_agrees_with_std() {
    for s in ["abc", "a\nb", "\na\n", "héllo\nwörld\n\n"] {
        let ours = split_str(s, '\n');
        let std: Vec<String> = s.split("\n").map(|p| p.to_string()).collect();
        assert_eq!(ours, std);
    }
}

#[test]
fn join_then_split_gives_back_the_text() {
    for s in ["", "a", "a\nb", "\n", "x\n\ny\n"] {
        let pieces = split_str(s, '\n');
        assert_eq!(join_strings(&pieces, "\n"), s);
    }
}

#[test]
fn join_puts_separator_between_pieces() {
    let parts = vec!["a".to_string(), "".to_string(), "c".to_string()];
    assert_eq!(join_strings(&parts, "|"), "a||c");
    assert_eq!(join_strings(&vec![], "|"), "");
    assert_eq!(join_strings(&vec!["only".to_string()], "|"), "only");
}

#[test]
fn replace_agrees_with_std() {
    let cases = [
        ("my password is password", "password", "XX"),
        ("aaa", "aa", "b"),
        ("abc", "", "-"),
        ("", "", "-"),
        ("", "a", "-"),
        ("naïve naïve", "ï", "i"),
    ];
    for (s, from, to) in cases {
        assert_eq!(replace(s, from, to), s.replace(from, to));
    }
}
