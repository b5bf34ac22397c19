use inspect_commits::matcher::{finding_from_match, highlight, PatternError, WordMatcher};

#[test]
fn invalid_pattern_is_refused() {
    assert_eq!(WordMatcher::new("foo(bar").err(), Some(PatternError::Invalid));
    assert!(WordMatcher::new("password|secret").is_ok());
}

#[test]
fn first_match_is_reported_and_marked() {
    let m = WordMatcher::new("password|secret").unwrap();
    let f = m.find_in("my secret and my password\n").unwrap();
    assert_eq!(f.word, "secret");
    assert_eq!(f.text, "my secret and my password\n");
    assert_eq!(f.highlighted, "my \x1b[41;37msecret\x1b[0m and my password\n");
}

#[test]
fn every_occurrence_is_marked() {
    let m = WordMatcher::new("key").unwrap();
    let f = m.find_in("key=1 key=2").unwrap();
    assert_eq!(f.word, "key");
    assert_eq!(f.highlighted, "\x1b[41;37mkey\x1b[0m=1 \x1b[41;37mkey\x1b[0m=2");
}

#[test]
fn no_match_no_finding() {
    let m = WordMatcher::new("password").unwrap();
    assert!(m.find_in("nothing to see").is_none());
}

#[test]
fn pattern_is_a_regular_expression() {
    let m = WordMatcher::new("tok[0-9]+").unwrap();
    assert_eq!(m.find_in("a tok42 b").unwrap().word, "tok42");
}

#[test]
fn empty_alternative_matches_everywhere() {
    let m = WordMatcher::new("a|").unwrap();
    let f = m.find_in("bc").unwrap();
    assert_eq!(f.word, "");
    assert_eq!(f.highlighted, "\x1b[41;37m\x1b[0mb\x1b[41;37m\x1b[0mc\x1b[41;37m\x1b[0m");
}

#[test]
fn finding_marks_the_given_word() {
    assert!(finding_from_match("abc", None).is_none());
    let f = finding_from_match("abcb", Some("b".to_string())).unwrap();
    assert_eq!(f.word, "b");
    assert_eq!(f.highlighted, "a\x1b[41;37mb\x1b[0mc\x1b[41;37mb\x1b[0m");
}

#[test]
fn highlight_agrees_with_std_replace() {
    let line = "pw pw";
    assert_eq!(highlight(line, "pw"), line.replace("pw", "\x1b[41;37mpw\x1b[0m"));
}
