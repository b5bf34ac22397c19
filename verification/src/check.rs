//! The check of a branch's commits for sensitive words, as a sequence of
//! steps: each step takes what the last outside command returned and says what
//! to run next, until the check comes to an outcome.

use vstd::prelude::*;
use crate::batch::LineBatcher;
use crate::scan::{feed, lemma_feed, scan_commit, scan_commits, scan_end, scan_line, LINES_PER_CHUNK};
use crate::config::{
    config_has_words, excluded_positions, has_configured_words, pattern_for, sensitive_pattern,
    Config, Rule, SensitivePattern,
};
use crate::matcher::{marked, regex_compiles, regex_first_match, Finding, WordMatcher};
use crate::refs::{
    default_branch_names, default_branches, head_refs_cuttable, log_range, log_range_arg,
    short_branch_names, short_branches,
};
use crate::text::{contains, lemma_split_nonempty, replace_all, split_on, split_str, trim, trim_str, views};

verus! {

/// Where the check stands.
#[derive(Debug, Clone, Copy, PartialEq, Eq, Structural)]
pub enum Stage {
    /// Waiting for the exit code of `git rev-parse`.
    Repository,
    /// Waiting for the configuration.
    Config,
    /// Waiting for the URL of the remote repository.
    RemoteUrl,
    /// Waiting for the name of the current branch.
    CurrentBranch,
    /// Waiting for the list of commits.
    Commits,
    /// Waiting until the pattern of sensitive words has been reported.
    Pattern,
    /// Reading the text of a commit, line by line.
    Scanning,
    /// The check has come to an outcome.
    Done,
}

/// How the check ends.
pub enum Outcome {
    /// The working directory is not in a git repository.
    NotRepository,
    /// No rule lists a word.
    NoRules,
    /// The remote repository of that name has no URL.
    UnknownRemote(String),
    /// There are no commits to check.
    NoCommits,
    /// Every rule with words is set aside for this remote.
    NoWords,
    /// The pattern of sensitive words is not a valid regular expression.
    InvalidPattern,
    /// A commit holds a sensitive word.
    Found { commit: String, finding: Finding },
    /// No commit holds a sensitive word.
    Secure,
}

/// What to do next.
pub enum Action {
    /// Run `git rev-parse`; answer with `repository_status`.
    CheckRepository,
    /// Read the configuration; answer with `config_loaded`.
    LoadConfig,
    /// Run `git config --get remote.<name>.url`; answer with `remote_url_read`.
    ReadRemoteUrl(String),
    /// Run `git branch --show-current`; answer with `current_branch_read`.
    ReadCurrentBranch,
    /// Run `git log --pretty=format:%h <range>`; answer with `commits_listed`.
    /// `whole_history` tells that the range is every commit of the current branch.
    /// `not_on_remote` names a remote whose branches' commits are left out
    /// (`--not --remotes=<name>` after the range).
    ListCommits { range: String, whole_history: bool, not_on_remote: Option<String> },
    /// Report the pattern and the rules set aside; answer with `pattern_reported`.
    ReportPattern(SensitivePattern),
    /// Run `git show <commit> --pretty=format:%s`; hand each line of its output
    /// to `commit_line`, and its end to `commit_ended`.
    ShowCommit(String),
    /// Hand over the next line of the commit's text.
    NextLine,
    /// The check is over.
    Finish(Outcome),
}

/// The range that stands for every commit of the current branch: `HEAD`.
pub open spec fn whole_history_range() -> Seq<char> {
    seq!['H', 'E', 'A', 'D']
}

/// The views of an optional string.
pub open spec fn opt_view(o: Option<String>) -> Option<Seq<char>> {
    match o {
        Some(s) => Some(s@),
        None => None,
    }
}

/// The views of an optional string slice.
pub open spec fn opt_str_view(o: Option<&str>) -> Option<Seq<char>> {
    match o {
        Some(s) => Some(s@),
        None => None,
    }
}

/// Whether `o` reports that the pattern matched in `chunk` of `commit`: the
/// word is the first match, and the chunk is shown with the word marked.
pub open spec fn found_in(o: Outcome, pattern: Seq<char>, commit: Seq<char>, chunk: Seq<char>) -> bool {
    &&& regex_first_match(pattern, chunk) is Some
    &&& o matches Outcome::Found { commit: c, finding: f }
    &&& c@ == commit
    &&& f.word@ == regex_first_match(pattern, chunk)->0
    &&& f.text@ == chunk
    &&& contains(chunk, f.word@)
    &&& f.highlighted@ == replace_all(chunk, f.word@, marked(f.word@))
}

/// The state of a check.
pub struct CheckFlow {
    remote_repo: Option<String>,
    remote_branch: Option<String>,
    local_branch: Option<String>,
    stage: Stage,
    rules: Vec<Rule>,
    remote_url: String,
    fallback: Option<String>,
    commits: Vec<String>,
    current: usize,
    pattern: String,
    matcher: Option<WordMatcher>,
    batcher: LineBatcher,
    read: Ghost<Seq<Seq<Seq<char>>>>,
}

impl CheckFlow {
    /// Where the check stands.
    pub closed spec fn stage(&self) -> Stage {
        self.stage
    }

    /// The name of the remote repository, when only unpushed commits are checked.
    pub closed spec fn remote_repo(&self) -> Option<Seq<char>> {
        opt_view(self.remote_repo)
    }

    /// The remote branch given, if any.
    pub closed spec fn remote_branch(&self) -> Option<Seq<char>> {
        opt_view(self.remote_branch)
    }

    /// The local branch given, if any.
    pub closed spec fn local_branch(&self) -> Option<Seq<char>> {
        opt_view(self.local_branch)
    }

    /// The rules of the configuration.
    pub closed spec fn rules(&self) -> Seq<Rule> {
        self.rules@
    }

    /// The URL of the remote repository (empty when every commit is checked).
    pub closed spec fn remote_url(&self) -> Seq<char> {
        self.remote_url@
    }

    /// The branch to list when listing the unpushed commits fails: the local
    /// branch, whose commits that the remote's branches lack are then checked.
    pub closed spec fn fallback(&self) -> Option<Seq<char>> {
        opt_view(self.fallback)
    }

    /// The commits to check.
    pub closed spec fn commits(&self) -> Seq<Seq<char>> {
        views(self.commits@)
    }

    /// The position of the commit being read.
    pub closed spec fn current(&self) -> int {
        self.current as int
    }

    /// The pattern of sensitive words.
    pub closed spec fn pattern(&self) -> Seq<char> {
        self.pattern@
    }

    /// The number of lines of the commit's text read since the last chunk.
    pub closed spec fn line_count(&self) -> int {
        self.batcher.count()
    }

    /// The text of those lines.
    pub closed spec fn line_buffer(&self) -> Seq<char> {
        self.batcher.buffer()
    }

    /// The texts, line by line, of the commits read to their end, in order.
    pub closed spec fn commits_read(&self) -> Seq<Seq<Seq<char>>> {
        self.read@
    }

    /// The lines of the current commit's text read so far.
    pub closed spec fn lines_read(&self) -> Seq<Seq<char>> {
        self.batcher.fed()
    }

    /// What holds of the state at every stage.
    pub closed spec fn wf(&self) -> bool {
        &&& self.fallback is Some ==> self.remote_repo is Some
        &&& (self.stage == Stage::RemoteUrl || self.stage == Stage::CurrentBranch)
            ==> self.remote_repo is Some
        &&& (self.stage == Stage::Pattern || self.stage == Stage::Scanning)
            ==> self.commits@.len() > 0
        &&& self.stage == Stage::Scanning ==> {
            &&& self.matcher matches Some(m)
            &&& m.pattern() == self.pattern@
            &&& self.current < self.commits@.len()
            &&& self.batcher.wf()
            &&& self.batcher.max_line() == LINES_PER_CHUNK
            &&& self.read@.len() == self.current
            &&& scan_commits(self.pattern@, self.read@) is None
            &&& feed(self.pattern@, self.batcher.fed()).0 is None
        }
    }

    /// Whether `self` and `other` were started with the same arguments.
    pub open spec fn same_setup(&self, other: &CheckFlow) -> bool {
        &&& self.remote_repo() == other.remote_repo()
        &&& self.remote_branch() == other.remote_branch()
        &&& self.local_branch() == other.local_branch()
    }

    /// Whether a listing of commits is taken as printed: when `git log`
    /// succeeded, or failed with no other range left to try.
    pub open spec fn takes_output(&self, succeeded: bool) -> bool {
        succeeded || self.fallback() is None
    }

    /// Whether the branch names, when both were given, can be cut as full references.
    pub open spec fn branches_cuttable(&self) -> bool {
        match (self.local_branch(), self.remote_branch()) {
            (Some(l), Some(rb)) => head_refs_cuttable(l, rb),
            _ => true,
        }
    }

    /// Where the check stands, for the caller to tell which step it may take.
    pub fn current_stage(&self) -> (r: Stage)
        ensures
            r == self.stage(),
    {
        self.stage
    }

    /// Starts a check of the commits on `local_branch` that `remote_repo`'s
    /// `remote_branch` lacks; of every commit when `remote_repo` is `None`.
    pub fn start(
        remote_repo: Option<&str>,
        remote_branch: Option<&str>,
        local_branch: Option<&str>,
    ) -> (r: (CheckFlow, Action))
        ensures
            r.0.wf(),
            r.0.stage() == Stage::Repository,
            r.0.remote_repo() == opt_str_view(remote_repo),
            r.0.remote_branch() == opt_str_view(remote_branch),
            r.0.local_branch() == opt_str_view(local_branch),
            r.1 is CheckRepository,
    {
        let to_owned = |o: Option<&str>| -> (r: Option<String>)
            ensures
                opt_view(r) == opt_str_view(o),
            {
                match o {
                    Some(s) => Some(s.to_owned()),
                    None => None,
                }
            };
        let flow = CheckFlow {
            remote_repo: to_owned(remote_repo),
            remote_branch: to_owned(remote_branch),
            local_branch: to_owned(local_branch),
            stage: Stage::Repository,
            rules: Vec::new(),
            remote_url: String::new(),
            fallback: None,
            commits: Vec::new(),
            current: 0,
            pattern: String::new(),
            matcher: None,
            batcher: LineBatcher::new(LINES_PER_CHUNK),
            read: Ghost(Seq::empty()),
        };
        (flow, Action::CheckRepository)
    }

    /// `git rev-parse` exited with `exit_code` (`None` when killed by a signal).
    pub fn repository_status(&mut self, exit_code: Option<i32>) -> (r: Action)
        requires
            old(self).wf(),
            old(self).stage() == Stage::Repository,
        ensures
            final(self).wf(),
            final(self).same_setup(old(self)),
            (exit_code matches Some(c) && c != 0) ==> {
                &&& r matches Action::Finish(Outcome::NotRepository)
                &&& final(self).stage() == Stage::Done
            },
            !(exit_code matches Some(c) && c != 0) ==> {
                &&& r is LoadConfig
                &&& final(self).stage() == Stage::Config
            },
    {
        match exit_code {
            Some(c) if c != 0 => {
                self.stage = Stage::Done;
                Action::Finish(Outcome::NotRepository)
            },
            _ => {
                self.stage = Stage::Config;
                Action::LoadConfig
            },
        }
    }
}


impl CheckFlow {
    /// The configuration was read.
    pub fn config_loaded(&mut self, config: Config) -> (r: Action)
        requires
            old(self).wf(),
            old(self).stage() == Stage::Config,
        ensures
            final(self).wf(),
            final(self).same_setup(old(self)),
            !config_has_words(config) ==> {
                &&& r matches Action::Finish(Outcome::NoRules)
                &&& final(self).stage() == Stage::Done
            },
            config_has_words(config) ==> {
                &&& final(self).rules() == config.rules->0@
                &&& final(self).remote_url() == Seq::<char>::empty()
                &&& match old(self).remote_repo() {
                    Some(name) => {
                        &&& r matches Action::ReadRemoteUrl(n)
                        &&& n@ == name
                        &&& final(self).stage() == Stage::RemoteUrl
                    },
                    None => {
                        &&& r matches Action::ListCommits { range, whole_history, not_on_remote }
                        &&& not_on_remote is None
                        &&& whole_history
                        &&& range@ == whole_history_range()
                        &&& final(self).fallback() == None::<Seq<char>>
                        &&& final(self).stage() == Stage::Commits
                    },
                }
            },
    {
        if !has_configured_words(&config) {
            self.stage = Stage::Done;
            return Action::Finish(Outcome::NoRules);
        }
        match config.rules {
            Some(rules) => {
                self.rules = rules;
            },
            None => {},
        }
        self.remote_url = String::new();
        match &self.remote_repo {
            Some(name) => {
                self.stage = Stage::RemoteUrl;
                Action::ReadRemoteUrl(name.clone())
            },
            None => {
                self.stage = Stage::Commits;
                let range = "HEAD".to_owned();
                self.fallback = None;
                proof {
                    reveal_strlit("HEAD");
                    assert("HEAD"@ == whole_history_range());
                }
                Action::ListCommits { range, whole_history: true, not_on_remote: None }
            },
        }
    }

    /// The remote repository's URL, as `git config --get` printed it (empty
    /// when there is no such remote).
    pub fn remote_url_read(&mut self, output: String) -> (r: Action)
        requires
            old(self).wf(),
            old(self).stage() == Stage::RemoteUrl,
            output@.len() > 0 ==> old(self).branches_cuttable(),
        ensures
            final(self).wf(),
            final(self).same_setup(old(self)),
            final(self).rules() == old(self).rules(),
            output@.len() == 0 ==> {
                &&& r matches Action::Finish(Outcome::UnknownRemote(n))
                &&& old(self).remote_repo() == Some(n@)
                &&& final(self).stage() == Stage::Done
            },
            output@.len() > 0 ==> {
                &&& final(self).remote_url() == output@
                &&& match (old(self).local_branch(), old(self).remote_branch()) {
                    (Some(l), Some(rb)) => {
                        let (l2, r2) = short_branch_names(l, rb);
                        &&& r matches Action::ListCommits { range, whole_history, not_on_remote }
                        &&& not_on_remote is None
                        &&& !whole_history
                        &&& range@ == log_range(old(self).remote_repo()->0, r2, l2)
                        &&& final(self).fallback() == Some(l2)
                        &&& final(self).stage() == Stage::Commits
                    },
                    (Some(l), None) => {
                        let (l2, r2) = default_branch_names(l, None);
                        &&& r matches Action::ListCommits { range, whole_history, not_on_remote }
                        &&& not_on_remote is None
                        &&& !whole_history
                        &&& range@ == log_range(old(self).remote_repo()->0, r2, l2)
                        &&& final(self).fallback() == Some(l2)
                        &&& final(self).stage() == Stage::Commits
                    },
                    (None, _) => {
                        &&& r is ReadCurrentBranch
                        &&& final(self).stage() == Stage::CurrentBranch
                    },
                }
            },
    {
        let name = match &self.remote_repo {
            Some(n) => n.clone(),
            None => String::new(),
        };
        if output.as_str().is_empty() {
            self.stage = Stage::Done;
            return Action::Finish(Outcome::UnknownRemote(name));
        }
        self.remote_url = output;
        let (local, remote) = match (&self.local_branch, &self.remote_branch) {
            (Some(l), Some(rb)) => short_branches(l.as_str(), rb.as_str()),
            (Some(l), None) => default_branches(l.as_str(), None),
            (None, _) => {
                self.stage = Stage::CurrentBranch;
                return Action::ReadCurrentBranch;
            },
        };
        self.stage = Stage::Commits;
        let range = log_range_arg(name.as_str(), remote.as_str(), local.as_str());
        self.fallback = Some(local);
        Action::ListCommits { range, whole_history: false, not_on_remote: None }
    }

    /// The current branch, as `git branch --show-current` printed it.
    pub fn current_branch_read(&mut self, output: String) -> (r: Action)
        requires
            old(self).wf(),
            old(self).stage() == Stage::CurrentBranch,
        ensures
            final(self).wf(),
            final(self).same_setup(old(self)),
            final(self).rules() == old(self).rules(),
            final(self).remote_url() == old(self).remote_url(),
            final(self).stage() == Stage::Commits,
            ({
                let (l2, r2) = default_branch_names(output@, old(self).remote_branch());
                &&& r matches Action::ListCommits { range, whole_history, not_on_remote }
                        &&& not_on_remote is None
                &&& !whole_history
                &&& range@ == log_range(old(self).remote_repo()->0, r2, l2)
                &&& final(self).fallback() == Some(l2)
            }),
    {
        let name = match &self.remote_repo {
            Some(n) => n.clone(),
            None => String::new(),
        };
        let (local, remote) = match &self.remote_branch {
            Some(rb) => default_branches(output.as_str(), Some(rb.as_str())),
            None => default_branches(output.as_str(), None),
        };
        self.stage = Stage::Commits;
        let range = log_range_arg(name.as_str(), remote.as_str(), local.as_str());
        self.fallback = Some(local);
        Action::ListCommits { range, whole_history: false, not_on_remote: None }
    }
}


impl CheckFlow {
    /// The commits to check, as `git log --pretty=format:%h` printed them;
    /// `succeeded` tells whether `git log` exited with success. When the range
    /// of unpushed commits cannot be listed (the remote has no such branch
    /// yet), the commits of the local branch that no branch of the remote
    /// holds are listed instead; otherwise the output is taken as it is.
    pub fn commits_listed(&mut self, output: String, succeeded: bool) -> (r: Action)
        requires
            old(self).wf(),
            old(self).stage() == Stage::Commits,
        ensures
            final(self).wf(),
            final(self).same_setup(old(self)),
            final(self).rules() == old(self).rules(),
            final(self).remote_url() == old(self).remote_url(),
            !succeeded && old(self).fallback() is Some ==> {
                &&& r matches Action::ListCommits { range, whole_history, not_on_remote }
                &&& !whole_history
                &&& range@ == old(self).fallback()->0
                &&& not_on_remote matches Some(name)
                &&& old(self).remote_repo() == Some(name@)
                &&& final(self).fallback() == None::<Seq<char>>
                &&& final(self).stage() == Stage::Commits
            },
            old(self).takes_output(succeeded) && trim(output@).len() == 0 ==> {
                &&& r matches Action::Finish(Outcome::NoCommits)
                &&& final(self).stage() == Stage::Done
            },
            old(self).takes_output(succeeded) && trim(output@).len() > 0 ==> {
                &&& final(self).commits() == split_on(output@, '\n')
                &&& final(self).pattern() == pattern_for(old(self).rules(), old(self).remote_url())
                &&& r matches Action::ReportPattern(p)
                &&& p.pattern@ == final(self).pattern()
                &&& p.excluded@ == excluded_positions(old(self).rules(), old(self).remote_url())
                &&& final(self).stage() == Stage::Pattern
            },
    {
        if !succeeded && self.fallback.is_some() {
            let local = match self.fallback.take() {
                Some(l) => l,
                None => String::new(),
            };
            let name = match &self.remote_repo {
                Some(n) => n.clone(),
                None => String::new(),
            };
            return Action::ListCommits { range: local, whole_history: false, not_on_remote: Some(name) };
        }
        let trimmed = trim_str(output.as_str());
        if trimmed.as_str().is_empty() {
            self.stage = Stage::Done;
            return Action::Finish(Outcome::NoCommits);
        }
        let commits = split_str(output.as_str(), '\n');
        proof {
            lemma_split_nonempty(output@, '\n');
        }
        self.commits = commits;
        let found = sensitive_pattern(&self.rules, self.remote_url.as_str());
        self.pattern = found.pattern.clone();
        self.stage = Stage::Pattern;
        Action::ReportPattern(found)
    }

    /// The pattern has been reported: compile it and start on the first commit.
    pub fn pattern_reported(&mut self) -> (r: Action)
        requires
            old(self).wf(),
            old(self).stage() == Stage::Pattern,
        ensures
            final(self).wf(),
            final(self).same_setup(old(self)),
            final(self).commits() == old(self).commits(),
            final(self).pattern() == old(self).pattern(),
            old(self).pattern().len() == 0 ==> {
                &&& r matches Action::Finish(Outcome::NoWords)
                &&& final(self).stage() == Stage::Done
            },
            old(self).pattern().len() > 0 && !regex_compiles(old(self).pattern()) ==> {
                &&& r matches Action::Finish(Outcome::InvalidPattern)
                &&& final(self).stage() == Stage::Done
            },
            old(self).pattern().len() > 0 && regex_compiles(old(self).pattern()) ==> {
                &&& r matches Action::ShowCommit(c)
                &&& c@ == old(self).commits()[0]
                &&& final(self).stage() == Stage::Scanning
                &&& final(self).current() == 0
                &&& final(self).line_count() == 0
                &&& final(self).line_buffer() == Seq::<char>::empty()
                &&& final(self).commits_read() == Seq::<Seq<Seq<char>>>::empty()
                &&& final(self).lines_read() == Seq::<Seq<char>>::empty()
            },
    {
        if self.pattern.as_str().is_empty() {
            self.stage = Stage::Done;
            return Action::Finish(Outcome::NoWords);
        }
        match WordMatcher::new(self.pattern.as_str()) {
            Err(_) => {
                self.stage = Stage::Done;
                Action::Finish(Outcome::InvalidPattern)
            },
            Ok(m) => {
                self.matcher = Some(m);
                self.current = 0;
                self.batcher = LineBatcher::new(LINES_PER_CHUNK);
                self.read = Ghost(Seq::empty());
                self.stage = Stage::Scanning;
                Action::ShowCommit(self.commits[0].clone())
            },
        }
    }

    /// The search of one chunk of the current commit's text.
    fn search_chunk(&self, chunk: &str) -> (r: Option<Finding>)
        requires
            self.matcher matches Some(m) && m.pattern() == self.pattern@,
        ensures
            r is Some <==> regex_first_match(self.pattern(), chunk@) is Some,
            r matches Some(f) ==> {
                &&& f.word@ == regex_first_match(self.pattern(), chunk@)->0
                &&& f.text@ == chunk@
                &&& contains(chunk@, f.word@)
                &&& f.highlighted@ == replace_all(chunk@, f.word@, marked(f.word@))
            },
    {
        match &self.matcher {
            Some(m) => m.find_in(chunk),
            None => None,
        }
    }

    /// One more line of the current commit's text.
    pub fn commit_line(&mut self, line: &str) -> (r: Action)
        requires
            old(self).wf(),
            old(self).stage() == Stage::Scanning,
        ensures
            final(self).wf(),
            final(self).same_setup(old(self)),
            final(self).commits() == old(self).commits(),
            final(self).pattern() == old(self).pattern(),
            final(self).current() == old(self).current(),
            final(self).commits_read() == old(self).commits_read(),
            final(self).lines_read() == old(self).lines_read().push(line@),
            ({
                let (o, c, b) = scan_line(
                    old(self).pattern(),
                    old(self).line_count(),
                    old(self).line_buffer(),
                    line@,
                );
                let commit = old(self).commits()[old(self).current()];
                if o is Some {
                    &&& r matches Action::Finish(out)
                    &&& found_in(out, old(self).pattern(), commit, o->0)
                    &&& scan_commits(
                        old(self).pattern(),
                        final(self).commits_read().push(final(self).lines_read()),
                    ) == Some((old(self).current(), o->0))
                    &&& final(self).stage() == Stage::Done
                } else {
                    &&& r is NextLine
                    &&& final(self).stage() == Stage::Scanning
                    &&& final(self).line_count() == c
                    &&& final(self).line_buffer() == b
                }
            }),
    {
        let ghost p = self.pattern@;
        let ghost before = self.batcher.fed();
        let ghost c0 = self.batcher.count();
        let ghost b0 = self.batcher.buffer();
        proof {
            lemma_feed(p, before);
            self.batcher.lemma_state();
        }
        let chunk = self.batcher.push_line(line);
        let ghost after = self.batcher.fed();
        proof {
            assert(after.drop_last() == before);
            assert(after.last() == line@);
            assert(feed(p, after) == scan_line(p, c0, b0, line@));
            assert(self.read@.push(after).drop_last() =~= self.read@);
            assert(self.read@.push(after).last() == after);
        }
        match chunk {
            None => Action::NextLine,
            Some(text) => match self.search_chunk(text.as_str()) {
                None => Action::NextLine,
                Some(finding) => {
                    self.stage = Stage::Done;
                    let commit = self.commits[self.current].clone();
                    Action::Finish(Outcome::Found { commit, finding })
                },
            },
        }
    }

    /// The current commit's text has ended.
    pub fn commit_ended(&mut self) -> (r: Action)
        requires
            old(self).wf(),
            old(self).stage() == Stage::Scanning,
        ensures
            final(self).wf(),
            final(self).same_setup(old(self)),
            final(self).commits() == old(self).commits(),
            final(self).pattern() == old(self).pattern(),
            ({
                let o = scan_end(
                    old(self).pattern(),
                    old(self).line_count(),
                    old(self).line_buffer(),
                );
                let commit = old(self).commits()[old(self).current()];
                let all_read = old(self).commits_read().push(old(self).lines_read());
                if o is Some {
                    &&& r matches Action::Finish(out)
                    &&& found_in(out, old(self).pattern(), commit, o->0)
                    &&& scan_commits(old(self).pattern(), all_read) == Some(
                        (old(self).current(), o->0),
                    )
                    &&& final(self).stage() == Stage::Done
                } else if old(self).current() + 1 < old(self).commits().len() {
                    &&& r matches Action::ShowCommit(c)
                    &&& c@ == old(self).commits()[old(self).current() + 1]
                    &&& final(self).stage() == Stage::Scanning
                    &&& final(self).current() == old(self).current() + 1
                    &&& final(self).line_count() == 0
                    &&& final(self).line_buffer() == Seq::<char>::empty()
                    &&& final(self).commits_read() == all_read
                    &&& final(self).lines_read() == Seq::<Seq<char>>::empty()
                    &&& scan_commits(old(self).pattern(), all_read) is None
                } else {
                    &&& r matches Action::Finish(Outcome::Secure)
                    &&& all_read.len() == old(self).commits().len()
                    &&& scan_commits(old(self).pattern(), all_read) is None
                    &&& final(self).stage() == Stage::Done
                }
            }),
    {
        let ghost p = self.pattern@;
        let ghost fed = self.batcher.fed();
        let ghost all_read = self.read@.push(fed);
        proof {
            lemma_feed(p, fed);
            self.batcher.lemma_state();
            assert(all_read.drop_last() =~= self.read@);
            assert(all_read.last() == fed);
            assert(scan_commit(p, fed) == scan_end(p, self.batcher.count(), self.batcher.buffer()));
            assert(feed(p, Seq::<Seq<char>>::empty()).0 is None);
        }
        match self.batcher.finish() {
            Some(text) => match self.search_chunk(text.as_str()) {
                Some(finding) => {
                    self.stage = Stage::Done;
                    let commit = self.commits[self.current].clone();
                    return Action::Finish(Outcome::Found { commit, finding });
                },
                None => {},
            },
            None => {},
        }
        if self.current < self.commits.len() - 1 {
            self.current = self.current + 1;
            self.batcher = LineBatcher::new(LINES_PER_CHUNK);
            self.read = Ghost(all_read);
            Action::ShowCommit(self.commits[self.current].clone())
        } else {
            self.stage = Stage::Done;
            Action::Finish(Outcome::Secure)
        }
    }
}

} // verus!
