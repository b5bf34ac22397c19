//! The rules of the configuration file, and the pattern of sensitive words they give.

use vstd::prelude::*;
use crate::text::{contains, contains_str, join, join_strings, lemma_join_concat, views};

verus! {

/// One rule: words to look for, unless the remote repository's URL contains
/// one of `exclude_repo_urls`.
#[derive(Debug)]
pub struct Rule {
    pub exclude_repo_urls: Vec<String>,
    pub words: Vec<String>,
}

/// The configuration: a list of rules, or none at all.
#[derive(Debug)]
pub struct Config {
    pub rules: Option<Vec<Rule>>,
}

/// Whether some rule of `c` lists at least one word (an empty word counts).
pub open spec fn config_has_words(c: Config) -> bool {
    match c.rules {
        Some(rules) => exists|i: int| 0 <= i < rules@.len() && rules@[i].words@.len() > 0,
        None => false,
    }
}

/// Whether `rule` is set aside for a remote whose URL is `url`: one of its
/// excluded URLs occurs in `url`.
pub open spec fn rule_excluded(rule: Rule, url: Seq<char>) -> bool {
    exists|i: int| 0 <= i < rule.exclude_repo_urls@.len() && contains(url, rule.exclude_repo_urls@[i]@)
}

/// The words of `ws` that are not empty, in order.
pub open spec fn nonempty_words(ws: Seq<Seq<char>>) -> Seq<Seq<char>>
    decreases ws.len(),
{
    if ws.len() == 0 {
        Seq::empty()
    } else if ws.last().len() > 0 {
        nonempty_words(ws.drop_last()).push(ws.last())
    } else {
        nonempty_words(ws.drop_last())
    }
}

/// The alternation that one rule contributes: its non-empty words joined by `|`.
pub open spec fn rule_alternation(rule: Rule) -> Seq<char> {
    join(nonempty_words(views(rule.words@)), seq!['|'])
}

/// The alternations of the rules of `rules` that are not set aside for `url`,
/// in order; a rule without a non-empty word adds nothing.
pub open spec fn included_alternations(rules: Seq<Rule>, url: Seq<char>) -> Seq<Seq<char>>
    decreases rules.len(),
{
    if rules.len() == 0 {
        Seq::empty()
    } else if rule_excluded(rules.last(), url) || rule_alternation(rules.last()).len() == 0 {
        included_alternations(rules.drop_last(), url)
    } else {
        included_alternations(rules.drop_last(), url).push(rule_alternation(rules.last()))
    }
}

/// The positions of the rules of `rules` that are set aside for `url`, ascending.
pub open spec fn excluded_positions(rules: Seq<Rule>, url: Seq<char>) -> Seq<usize>
    decreases rules.len(),
{
    if rules.len() == 0 {
        Seq::empty()
    } else if rule_excluded(rules.last(), url) {
        excluded_positions(rules.drop_last(), url).push((rules.len() - 1) as usize)
    } else {
        excluded_positions(rules.drop_last(), url)
    }
}

/// The pattern of sensitive words for a remote whose URL is `url`: the
/// alternations of the rules that are not set aside, joined by `|`.
pub open spec fn pattern_for(rules: Seq<Rule>, url: Seq<char>) -> Seq<char> {
    join(included_alternations(rules, url), seq!['|'])
}

/// The pattern of sensitive words, and which rules were set aside.
pub struct SensitivePattern {
    /// The regular expression to search commits for.
    pub pattern: String,
    /// The positions of the rules whose excluded URLs occur in the remote URL.
    pub excluded: Vec<usize>,
}

/// Whether some rule of `config` lists at least one word; the check has
/// nothing to do otherwise.
pub fn has_configured_words(config: &Config) -> (b: bool)
    ensures
        b == config_has_words(*config),
{
    match &config.rules {
        None => false,
        Some(rules) => {
            let mut i: usize = 0;
            while i < rules.len()
                invariant
                    i <= rules.len(),
                    config.rules == Some(*rules),
                    forall|k: int| 0 <= k < i ==> rules@[k].words@.len() == 0,
                decreases rules.len() - i,
            {
                if rules[i].words.len() > 0 {
                    assert(config.rules->0@[i as int].words@.len() > 0);
                    assert(config_has_words(*config));
                    return true;
                }
                i = i + 1;
            }
            false
        },
    }
}

/// Whether `rule` is set aside for a remote whose URL is `remote_url`.
pub fn rule_is_excluded(rule: &Rule, remote_url: &str) -> (b: bool)
    ensures
        b == rule_excluded(*rule, remote_url@),
{
    let mut i: usize = 0;
    while i < rule.exclude_repo_urls.len()
        invariant
            i <= rule.exclude_repo_urls.len(),
            forall|k: int|
                0 <= k < i ==> !contains(remote_url@, #[trigger] rule.exclude_repo_urls@[k]@),
        decreases rule.exclude_repo_urls.len() - i,
    {
        if contains_str(remote_url, rule.exclude_repo_urls[i].as_str()) {
            return true;
        }
        i = i + 1;
    }
    false
}

/// The non-empty words of `rule` joined by `|`.
pub fn rule_words_alternation(rule: &Rule) -> (r: String)
    ensures
        r@ == rule_alternation(*rule),
{
    let ws = &rule.words;
    let mut kept: Vec<String> = Vec::new();
    let mut i: usize = 0;
    assert(views(ws@).take(0) == Seq::<Seq<char>>::empty());
    while i < ws.len()
        invariant
            i <= ws.len(),
            views(kept@) == nonempty_words(views(ws@).take(i as int)),
        decreases ws.len() - i,
    {
        let ghost taken = views(ws@).take(i + 1);
        assert(taken.drop_last() == views(ws@).take(i as int));
        assert(taken.last() == ws@[i as int]@);
        if !ws[i].as_str().is_empty() {
            let ghost prev = kept@;
            kept.push(ws[i].clone());
            assert(views(kept@) == views(prev).push(ws@[i as int]@));
        }
        i = i + 1;
    }
    assert(views(ws@).take(ws.len() as int) == views(ws@));
    proof {
        reveal_strlit("|");
        assert("|"@ == seq!['|']);
    }
    join_strings(&kept, "|")
}


/// The pattern of sensitive words for a remote whose URL is `remote_url`,
/// with the positions of the rules that were set aside.
pub fn sensitive_pattern(rules: &Vec<Rule>, remote_url: &str) -> (r: SensitivePattern)
    ensures
        r.pattern@ == pattern_for(rules@, remote_url@),
        r.excluded@ == excluded_positions(rules@, remote_url@),
{
    let mut parts: Vec<String> = Vec::new();
    let mut excluded: Vec<usize> = Vec::new();
    let mut i: usize = 0;
    assert(rules@.take(0) == Seq::<Rule>::empty());
    while i < rules.len()
        invariant
            i <= rules.len(),
            views(parts@) == included_alternations(rules@.take(i as int), remote_url@),
            excluded@ == excluded_positions(rules@.take(i as int), remote_url@),
        decreases rules.len() - i,
    {
        let ghost taken = rules@.take(i + 1);
        assert(taken.drop_last() == rules@.take(i as int));
        assert(taken.last() == rules@[i as int]);
        if rule_is_excluded(&rules[i], remote_url) {
            excluded.push(i);
        } else {
            let alt = rule_words_alternation(&rules[i]);
            if !alt.as_str().is_empty() {
                let ghost prev = parts@;
                parts.push(alt);
                assert(views(parts@) == views(prev).push(alt@));
            }
        }
        i = i + 1;
    }
    assert(rules@.take(rules.len() as int) == rules@);
    proof {
        reveal_strlit("|");
        assert("|"@ == seq!['|']);
    }
    let pattern = join_strings(&parts, "|");
    SensitivePattern { pattern, excluded }
}


/// Leaving out a rule that is set aside does not change which alternations are kept.
proof fn lemma_included_without_excluded(rules: Seq<Rule>, url: Seq<char>, i: int)
    requires
        0 <= i < rules.len(),
        rule_excluded(rules[i], url),
    ensures
        included_alternations(rules.remove(i), url) == included_alternations(rules, url),
    decreases rules.len(),
{
    if i == rules.len() - 1 {
        assert(rules.remove(i) == rules.drop_last());
    } else {
        assert(rules.remove(i).drop_last() == rules.drop_last().remove(i));
        assert(rules.remove(i).last() == rules.last());
        lemma_included_without_excluded(rules.drop_last(), url, i);
    }
}

/// A rule whose excluded URLs occur in the remote URL adds nothing to the
/// pattern of sensitive words: the pattern is the same with the rule left out.
pub proof fn lemma_excluded_rule_adds_nothing(rules: Seq<Rule>, url: Seq<char>, i: int)
    requires
        0 <= i < rules.len(),
        rule_excluded(rules[i], url),
    ensures
        pattern_for(rules.remove(i), url) == pattern_for(rules, url),
{
    lemma_included_without_excluded(rules, url, i);
}


/// The non-empty words of the rules not set aside for `url`, rule after rule.
pub open spec fn included_words(rules: Seq<Rule>, url: Seq<char>) -> Seq<Seq<char>>
    decreases rules.len(),
{
    if rules.len() == 0 {
        Seq::empty()
    } else if rule_excluded(rules.last(), url) {
        included_words(rules.drop_last(), url)
    } else {
        included_words(rules.drop_last(), url) + nonempty_words(views(rules.last().words@))
    }
}

/// The words kept by `nonempty_words` are not empty.
proof fn lemma_nonempty_words_are_nonempty(ws: Seq<Seq<char>>)
    ensures
        forall|k: int|
            0 <= k < nonempty_words(ws).len() ==> #[trigger] nonempty_words(ws)[k].len() > 0,
    decreases ws.len(),
{
    if ws.len() > 0 {
        let init = nonempty_words(ws.drop_last());
        lemma_nonempty_words_are_nonempty(ws.drop_last());
        assert forall|k: int|
            0 <= k < nonempty_words(ws).len() implies #[trigger] nonempty_words(ws)[k].len()
            > 0 by {
            if k < init.len() {
                assert(nonempty_words(ws)[k] == init[k]);
            }
        }
    }
}

/// Joining a non-empty list whose last piece is not empty gives a non-empty text.
proof fn lemma_join_nonempty(parts: Seq<Seq<char>>, sep: Seq<char>)
    requires
        parts.len() > 0,
        parts.last().len() > 0,
    ensures
        join(parts, sep).len() > 0,
{
}

/// A rule's alternation is empty exactly when it has no non-empty word.
proof fn lemma_alternation_empty(rule: Rule)
    ensures
        (rule_alternation(rule).len() == 0) == (nonempty_words(views(rule.words@)).len() == 0),
{
    let w = nonempty_words(views(rule.words@));
    if w.len() > 0 {
        lemma_nonempty_words_are_nonempty(views(rule.words@));
        assert(w.last() == w[w.len() - 1]);
        lemma_join_nonempty(w, seq!['|']);
    }
}

/// There are alternations exactly when there are words, and the pattern
/// joins the words.
proof fn lemma_included_words(rules: Seq<Rule>, url: Seq<char>)
    ensures
        (included_alternations(rules, url).len() > 0) == (included_words(rules, url).len() > 0),
        pattern_for(rules, url) == join(included_words(rules, url), seq!['|']),
    decreases rules.len(),
{
    if rules.len() > 0 {
        let init = rules.drop_last();
        lemma_included_words(init, url);
        if !rule_excluded(rules.last(), url) {
            let w = nonempty_words(views(rules.last().words@));
            lemma_alternation_empty(rules.last());
            if w.len() == 0 {
                assert(included_words(rules, url) == included_words(init, url));
            } else {
                let a = included_alternations(init, url);
                let p = a.push(rule_alternation(rules.last()));
                assert(p.drop_last() == a);
                if a.len() == 0 {
                    assert(included_words(init, url) == Seq::<Seq<char>>::empty());
                    assert(included_words(rules, url) == w);
                } else {
                    lemma_join_concat(included_words(init, url), w, seq!['|']);
                }
            }
        }
    }
}

/// The pattern is the alternation, joined by `|`, of exactly the non-empty
/// words of the rules not set aside, in order: each such word is looked for,
/// and no other; a rule with no non-empty word adds nothing.
pub proof fn lemma_pattern_alternates_included_words(rules: Seq<Rule>, url: Seq<char>)
    ensures
        pattern_for(rules, url) == join(included_words(rules, url), seq!['|']),
{
    lemma_included_words(rules, url);
}


/// A configuration has words exactly when some rule, at any position, lists
/// a word; with no rules at all it has none.
pub proof fn lemma_config_words(c: Config)
    ensures
        c.rules is None ==> !config_has_words(c),
        c.rules matches Some(rules) ==> (config_has_words(c) <==> exists|i: int|
            0 <= i < rules@.len() && #[trigger] rules@[i].words@.len() > 0),
        c.rules matches Some(rules) ==> forall|i: int|
            0 <= i < rules@.len() && #[trigger] rules@[i].words@.len() > 0 ==> config_has_words(
                c,
            ),
{
}

/// A rule is set aside for a URL exactly when one of its excluded URLs, at
/// any position of the list, occurs in the URL.
pub proof fn lemma_rule_excluded_by_any_url(rule: Rule, url: Seq<char>)
    ensures
        rule_excluded(rule, url) <==> exists|j: int|
            0 <= j < rule.exclude_repo_urls@.len() && contains(
                url,
                #[trigger] rule.exclude_repo_urls@[j]@,
            ),
        forall|j: int|
            0 <= j < rule.exclude_repo_urls@.len() && contains(
                url,
                #[trigger] rule.exclude_repo_urls@[j]@,
            ) ==> rule_excluded(rule, url),
{
}

/// The positions reported as set aside are exactly the rules one of whose
/// excluded URLs occurs in the URL.
pub proof fn lemma_excluded_positions(rules: Seq<Rule>, url: Seq<char>)
    requires
        rules.len() <= usize::MAX,
    ensures
        forall|i: int|
            0 <= i < rules.len() ==> (excluded_positions(rules, url).contains(i as usize)
                <==> rule_excluded(#[trigger] rules[i], url)),
        forall|k: int|
            0 <= k < excluded_positions(rules, url).len() ==> (#[trigger] excluded_positions(
                rules,
                url,
            )[k] as int) < rules.len(),
    decreases rules.len(),
{
    if rules.len() > 0 {
        let init = rules.drop_last();
        lemma_excluded_positions(init, url);
        let e = excluded_positions(init, url);
        let n = rules.len() - 1;
        assert forall|i: int| 0 <= i < rules.len() implies (excluded_positions(
            rules,
            url,
        ).contains(i as usize) <==> rule_excluded(#[trigger] rules[i], url)) by {
            if i < n {
                assert(rules[i] == init[i]);
                if rule_excluded(rules.last(), url) {
                    let e2 = e.push(n as usize);
                    if e2.contains(i as usize) {
                        let k = choose|k: int| 0 <= k < e2.len() && e2[k] == i as usize;
                        if k < e.len() {
                            assert(e.contains(i as usize));
                        }
                    }
                    if e.contains(i as usize) {
                        let k = choose|k: int| 0 <= k < e.len() && e[k] == i as usize;
                        assert(e2[k] == i as usize);
                    }
                }
            } else {
                assert(rules[i] == rules.last());
                if rule_excluded(rules.last(), url) {
                    let e2 = e.push(n as usize);
                    assert(e2[e.len() as int] == n as usize);
                } else {
                    if e.contains(n as usize) {
                        let k = choose|k: int| 0 <= k < e.len() && e[k] == n as usize;
                        assert((e[k] as int) < init.len());
                    }
                }
            }
        }
    }
}

/// An excluded URL, at any position of a rule's list, that occurs in the
/// remote URL sets the rule aside: it is reported as set aside, and its words
/// are not in the pattern (the pattern is the same without it).
pub proof fn lemma_any_exclude_url_sets_rule_aside(rules: Seq<Rule>, url: Seq<char>, i: int, j: int)
    requires
        0 <= i < rules.len() <= usize::MAX,
        0 <= j < rules[i].exclude_repo_urls@.len(),
        contains(url, rules[i].exclude_repo_urls@[j]@),
    ensures
        excluded_positions(rules, url).contains(i as usize),
        pattern_for(rules.remove(i), url) == pattern_for(rules, url),
{
    lemma_excluded_positions(rules, url);
    lemma_excluded_rule_adds_nothing(rules, url, i);
}


/// The words a rule contributes are its non-empty words, in order: the words
/// of the list kept by the filter "not empty".
pub proof fn lemma_nonempty_words_filter(ws: Seq<Seq<char>>)
    ensures
        nonempty_words(ws) == ws.filter(|w: Seq<char>| w.len() > 0),
    decreases ws.len(),
{
    reveal(Seq::filter);
    if ws.len() > 0 {
        lemma_nonempty_words_filter(ws.drop_last());
    }
}

} // verus!
