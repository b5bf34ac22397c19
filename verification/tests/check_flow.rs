use inspect_commits::check::{Action, CheckFlow, Outcome, Stage};
use inspect_commits::config::{Config, Rule};

fn config(urls: &[&str], words: &[&str]) -> Config {
    Config {
        rules: Some(vec![Rule {
            exclude_repo_urls: urls.iter().map(|s| s.to_string()).collect(),
            words: words.iter().map(|s| s.to_string()).collect(),
        }]),
    }
}

/// Runs a check whose commits all show `text`, answering each action.
fn run(
    flow_start: (CheckFlow, Action),
    cfg: Config,
    url: &str,
    branch: &str,
    commits: &str,
    text: &dyn Fn(&str) -> Vec<String>,
) -> (Outcome, Vec<String>) {
    let (mut flow, mut action) = flow_start;
    let mut cfg = Some(cfg);
    let mut log = Vec::new();
    loop {
        action = match action {
            Action::CheckRepository => flow.repository_status(Some(0)),
            Action::LoadConfig => flow.config_loaded(cfg.take().unwrap()),
            Action::ReadRemoteUrl(name) => {
                log.push(format!("remote {}", name));
                flow.remote_url_read(url.to_string())
            }
            Action::ReadCurrentBranch => flow.current_branch_read(branch.to_string()),
            Action::ListCommits { range, whole_history, .. } => {
                log.push(format!("range {} {}", range, whole_history));
                flow.commits_listed(commits.to_string(), true)
            }
            Action::ReportPattern(p) => {
                log.push(format!("pattern {} {:?}", p.pattern, p.excluded));
                flow.pattern_reported()
            }
            Action::ShowCommit(c) => {
                log.push(format!("show {}", c));
                let mut next = Action::NextLine;
                for line in text(&c) {
                    next = flow.commit_line(&line);
                    if !matches!(next, Action::NextLine) {
                        break;
                    }
                }
                match next {
                    Action::NextLine => flow.commit_ended(),
                    other => other,
                }
            }
            Action::NextLine => panic!("no line pending"),
            Action::Finish(o) => return (o, log),
        };
    }
}

fn clean(_: &str) -> Vec<String> {
    vec!["subject\n".to_string(), "+fn main() {}\n".to_string()]
}

#[test]
fn not_a_repository_stops_at_once() {
    let (mut flow, a) = CheckFlow::start(None, None, None);
    assert!(matches!(a, Action::CheckRepository));
    assert_eq!(flow.current_stage(), Stage::Repository);
    assert!(matches!(flow.repository_status(Some(128)), Action::Finish(Outcome::NotRepository)));
    assert_eq!(flow.current_stage(), Stage::Done);
}

#[test]
fn killed_rev_parse_still_goes_on() {
    let (mut flow, _) = CheckFlow::start(None, None, None);
    assert!(matches!(flow.repository_status(None), Action::LoadConfig));
}

#[test]
fn no_rules_stops() {
    let (mut flow, _) = CheckFlow::start(None, None, None);
    flow.repository_status(Some(0));
    assert!(matches!(
        flow.config_loaded(Config { rules: None }),
        Action::Finish(Outcome::NoRules)
    ));
}

#[test]
fn unknown_remote_stops() {
    let (mut flow, _) = CheckFlow::start(Some("upstream"), None, None);
    flow.repository_status(Some(0));
    match flow.config_loaded(config(&[], &["pw"])) {
        Action::ReadRemoteUrl(n) => assert_eq!(n, "upstream"),
        _ => panic!("expected a remote lookup"),
    }
    match flow.remote_url_read(String::new()) {
        Action::Finish(Outcome::UnknownRemote(n)) => assert_eq!(n, "upstream"),
        _ => panic!("expected an unknown remote"),
    }
}

#[test]
fn checkall_finds_a_word() {
    let text = |_: &str| vec!["add\n".to_string(), "password = 1\n".to_string()];
    let (o, log) = run(CheckFlow::start(None, None, None), config(&[], &["password"]), "", "", "a1\nb2", &text);
    assert_eq!(log[0], "range HEAD true");
    assert_eq!(log[1], "pattern password []");
    match o {
        Outcome::Found { commit, finding } => {
            assert_eq!(commit, "a1");
            assert_eq!(finding.word, "password");
            assert_eq!(finding.highlighted, "add\n\x1b[41;37mpassword\x1b[0m = 1\n");
        }
        _ => panic!("expected a finding"),
    }
}

#[test]
fn secure_commits_pass() {
    let (o, log) = run(
        CheckFlow::start(Some("origin"), None, None),
        config(&[], &["password"]),
        "git@github.com:a/b.git\n",
        "feature\n",
        "a1\nb2",
        &clean,
    );
    assert!(matches!(o, Outcome::Secure));
    assert_eq!(log, vec![
        "remote origin",
        "range origin/feature..feature false",
        "pattern password []",
        "show a1",
        "show b2",
    ]);
}

#[test]
fn pre_push_refs_give_the_range() {
    let (o, log) = run(
        CheckFlow::start(Some("origin"), Some("refs/heads/foreign"), Some("refs/heads/master")),
        config(&[], &["password"]),
        "url",
        "",
        "c3",
        &clean,
    );
    assert!(matches!(o, Outcome::Secure));
    assert_eq!(log[1], "range origin/foreign..master false");
}

#[test]
fn given_local_branch_is_trimmed() {
    let (_, log) = run(
        CheckFlow::start(Some("origin"), None, Some(" dev ")),
        config(&[], &["password"]),
        "url",
        "",
        "c3",
        &clean,
    );
    assert_eq!(log[1], "range origin/dev..dev false");
}

#[test]
fn no_commits_stops() {
    let (o, _) = run(CheckFlow::start(None, None, None), config(&[], &["pw"]), "", "", " \n", &clean);
    assert!(matches!(o, Outcome::NoCommits));
}

#[test]
fn excluded_remote_leaves_no_words() {
    let (o, log) = run(
        CheckFlow::start(Some("origin"), Some("main"), Some("main")),
        config(&["github.com"], &["password"]),
        "git@github.com:a/b.git",
        "",
        "a1",
        &clean,
    );
    assert!(matches!(o, Outcome::NoWords));
    assert_eq!(log[2], "pattern  [0]");
}

#[test]
fn invalid_pattern_is_reported() {
    let (o, _) = run(CheckFlow::start(None, None, None), config(&[], &["a(b"]), "", "", "a1", &clean);
    assert!(matches!(o, Outcome::InvalidPattern));
}

#[test]
fn word_split_across_chunks_is_not_found() {
    // The text is searched five lines at a time; a pattern spanning two
    // chunks does not match.
    let text = |_: &str| (1..=6).map(|i| format!("l{}\n", i)).collect::<Vec<_>>();
    let (o, _) = run(CheckFlow::start(None, None, None), config(&[], &["l5\nl6"]), "", "", "a1", &text);
    assert!(matches!(o, Outcome::Secure));
    let (o, _) = run(CheckFlow::start(None, None, None), config(&[], &["l4\nl5"]), "", "", "a1", &text);
    assert!(matches!(o, Outcome::Found { .. }));
}

#[test]
fn word_in_last_partial_chunk_is_found() {
    let text = |_: &str| (1..=7).map(|i| format!("l{}\n", i)).collect::<Vec<_>>();
    let (o, _) = run(CheckFlow::start(None, None, None), config(&[], &["l7"]), "", "", "a1\nb2", &text);
    match o {
        Outcome::Found { commit, finding } => {
            assert_eq!(commit, "a1");
            assert_eq!(finding.highlighted, "l6\n\x1b[41;37ml7\x1b[0m\n");
        }
        _ => panic!("expected a finding"),
    }
}

#[test]
fn empty_word_rule_does_not_match_everything() {
    let cfg = Config {
        rules: Some(vec![
            Rule { exclude_repo_urls: vec![], words: vec!["".to_string()] },
            Rule { exclude_repo_urls: vec![], words: vec!["password".to_string()] },
        ]),
    };
    let text = |_: &str| vec!["hello world\n".to_string()];
    let (o, log) = run(CheckFlow::start(None, None, None), cfg, "", "", "abc1234", &text);
    assert!(matches!(o, Outcome::Secure));
    assert_eq!(log[1], "pattern password []");
}

#[test]
fn missing_remote_branch_checks_the_unpushed_commits_of_the_branch() {
    let (mut flow, _) =
        CheckFlow::start(Some("origin"), Some("refs/heads/feat"), Some("refs/heads/feat"));
    flow.repository_status(Some(0));
    flow.config_loaded(config(&[], &["password"]));
    match flow.remote_url_read("url".to_string()) {
        Action::ListCommits { range, whole_history, not_on_remote } => {
            assert_eq!(range, "origin/feat..feat");
            assert!(!whole_history);
            assert_eq!(not_on_remote, None);
        }
        _ => panic!("expected a listing"),
    }
    match flow.commits_listed(String::new(), false) {
        Action::ListCommits { range, whole_history, not_on_remote } => {
            assert_eq!(range, "feat");
            assert!(!whole_history);
            assert_eq!(not_on_remote, Some("origin".to_string()));
        }
        _ => panic!("expected the branch to be listed"),
    }
    assert!(matches!(flow.commits_listed("c1".to_string(), true), Action::ReportPattern(_)));
    assert!(matches!(flow.pattern_reported(), Action::ShowCommit(c) if c == "c1"));
    assert!(matches!(flow.commit_line("password\n"), Action::NextLine));
    assert!(matches!(flow.commit_ended(), Action::Finish(Outcome::Found { .. })));
}

#[test]
fn failed_listing_with_nothing_left_to_try_is_taken_as_printed() {
    let (mut flow, _) = CheckFlow::start(Some("origin"), Some("main"), Some("main"));
    flow.repository_status(Some(0));
    flow.config_loaded(config(&[], &["password"]));
    flow.remote_url_read("url".to_string());
    assert!(matches!(flow.commits_listed(String::new(), false), Action::ListCommits { .. }));
    assert!(matches!(
        flow.commits_listed(String::new(), false),
        Action::Finish(Outcome::NoCommits)
    ));
}

#[test]
fn failed_history_listing_means_no_commits() {
    let (mut flow, _) = CheckFlow::start(None, None, None);
    flow.repository_status(Some(0));
    flow.config_loaded(config(&[], &["password"]));
    assert!(matches!(
        flow.commits_listed(String::new(), false),
        Action::Finish(Outcome::NoCommits)
    ));
}

#[test]
fn unknown_remote_stops_before_the_branch_names_are_cut() {
    // "refs/headsé..." has no character boundary at byte 11.
    let (mut flow, _) =
        CheckFlow::start(Some("up"), Some("refs/headsé-remote"), Some("refs/headsé-local"));
    flow.repository_status(Some(0));
    flow.config_loaded(config(&[], &["password"]));
    assert!(matches!(
        flow.remote_url_read(String::new()),
        Action::Finish(Outcome::UnknownRemote(_))
    ));
}
