use inspect_commits::refs::{default_branches, log_range_arg, short_branches};

#[test]
fn pre_push_refs_are_cut_to_short_names() {
    assert_eq!(
        short_branches("refs/heads/master", "refs/heads/foreign"),
        ("master".to_string(), "foreign".to_string())
    );
}

#[test]
fn refs_stay_when_one_is_not_a_full_ref() {
    assert_eq!(
        short_branches("refs/heads/master", "foreign"),
        ("refs/heads/master".to_string(), "foreign".to_string())
    );
    assert_eq!(
        short_branches("refs/tags/v1.0.0", "refs/heads/main"),
        ("refs/tags/v1.0.0".to_string(), "refs/heads/main".to_string())
    );
}

#[test]
fn bare_prefix_is_not_cut() {
    assert_eq!(
        short_branches("refs/heads/", "refs/heads/main"),
        ("refs/heads/".to_string(), "refs/heads/main".to_string())
    );
}

#[test]
fn remote_branch_defaults_to_local() {
    assert_eq!(default_branches("feature\n", None), ("feature".to_string(), "feature".to_string()));
    assert_eq!(
        default_branches(" feature ", Some(" dev")),
        ("feature".to_string(), " dev".to_string())
    );
}

#[test]
fn range_names_remote_branch_then_local() {
    assert_eq!(log_range_arg("origin", "main", "feature"), "origin/main..feature");
    assert_eq!(log_range_arg("upstream", "", ""), "upstream/..");
}
