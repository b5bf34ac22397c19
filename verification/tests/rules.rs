use inspect_commits::config::{
    has_configured_words, rule_is_excluded, rule_words_alternation, sensitive_pattern, Config,
    Rule,
};

fn rule(urls: &[&str], words: &[&str]) -> Rule {
    Rule {
        exclude_repo_urls: urls.iter().map(|s| s.to_string()).collect(),
        words: words.iter().map(|s| s.to_string()).collect(),
    }
}

fn readme_rules() -> Vec<Rule> {
    vec![rule(&["github.com"], &["password"]), rule(&["gitlab.com"], &["sensitive"])]
}

#[test]
fn config_without_rules_has_no_words() {
    assert!(!has_configured_words(&Config { rules: None }));
    assert!(!has_configured_words(&Config { rules: Some(vec![]) }));
    assert!(!has_configured_words(&Config { rules: Some(vec![rule(&["x"], &[])]) }));
}

#[test]
fn config_with_a_word_has_words() {
    assert!(has_configured_words(&Config { rules: Some(readme_rules()) }));
    // An empty word still counts as a listed word.
    assert!(has_configured_words(&Config { rules: Some(vec![rule(&[], &[""])]) }));
}

#[test]
fn rule_excluded_when_url_contains_exclusion() {
    let r = rule(&["github.com"], &["password"]);
    assert!(rule_is_excluded(&r, "git@github.com:lei4519/inspect-commits.git\n"));
    assert!(!rule_is_excluded(&r, "git@gitlab.com:a/b.git"));
    assert!(!rule_is_excluded(&r, ""));
    assert!(rule_is_excluded(&rule(&[""], &["w"]), ""));
}

#[test]
fn alternation_skips_empty_words() {
    assert_eq!(rule_words_alternation(&rule(&[], &["a", "", "b"])), "a|b");
    assert_eq!(rule_words_alternation(&rule(&[], &["", ""])), "");
    assert_eq!(rule_words_alternation(&rule(&[], &[])), "");
}

#[test]
fn readme_example_on_github_remote() {
    let p = sensitive_pattern(&readme_rules(), "git@github.com:me/repo.git");
    assert_eq!(p.pattern, "sensitive");
    assert_eq!(p.excluded, vec![0]);
}

#[test]
fn readme_example_on_gitlab_remote() {
    let p = sensitive_pattern(&readme_rules(), "https://gitlab.com/me/repo.git");
    assert_eq!(p.pattern, "password");
    assert_eq!(p.excluded, vec![1]);
}

#[test]
fn readme_example_with_every_commit() {
    let p = sensitive_pattern(&readme_rules(), "");
    assert_eq!(p.pattern, "password|sensitive");
    assert!(p.excluded.is_empty());
}

#[test]
fn pattern_empty_when_every_rule_is_excluded() {
    let rules = vec![rule(&["host"], &["a"]), rule(&["ost"], &["b"])];
    let p = sensitive_pattern(&rules, "https://host/x");
    assert_eq!(p.pattern, "");
    assert_eq!(p.excluded, vec![0, 1]);
}

#[test]
fn rule_without_words_adds_nothing() {
    let rules = vec![rule(&[], &["a"]), rule(&[], &[]), rule(&[], &["b", "c"])];
    assert_eq!(sensitive_pattern(&rules, "").pattern, "a|b|c");
    let rules = vec![rule(&[], &[""]), rule(&[], &["password"])];
    assert_eq!(sensitive_pattern(&rules, "").pattern, "password");
    let rules = vec![rule(&[], &["", ""])];
    assert_eq!(sensitive_pattern(&rules, "").pattern, "");
}

#[test]
fn excluded_rule_adds_nothing() {
    let rules = vec![rule(&[], &["a"]), rule(&["url"], &["b"]), rule(&[], &["c"])];
    let without = vec![rule(&[], &["a"]), rule(&[], &["c"])];
    assert_eq!(
        sensitive_pattern(&rules, "my-url").pattern,
        sensitive_pattern(&without, "my-url").pattern
    );
}

#[test]
fn pattern_alternates_every_included_word() {
    let rules = vec![rule(&[], &["a", "", "b"]), rule(&["x"], &["skip"]), rule(&[], &["c"])];
    assert_eq!(sensitive_pattern(&rules, "x.org").pattern, "a|b|c");
}
