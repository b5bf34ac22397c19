//! Searching text for the pattern of sensitive words, and marking what was found.

use vstd::prelude::*;
use crate::text::{chars_of, contains, replace_all, replace_chars, string_of};

verus! {

#[verifier::external_type_specification]
#[verifier::external_body]
pub struct ExRegex(regex::Regex);

#[verifier::external_type_specification]
#[verifier::external_body]
pub struct ExRegexError(regex::Error);

/// Whether `regex::Regex::new` accepts `pattern`.
pub uninterp spec fn regex_compiles(pattern: Seq<char>) -> bool;

/// The leftmost-first match of the regular expression `pattern` in `text`, as
/// `regex::Regex::find` reports it.
pub uninterp spec fn regex_first_match(pattern: Seq<char>, text: Seq<char>) -> Option<Seq<char>>;

/// A compiled pattern of sensitive words.
pub struct WordMatcher {
    pattern: String,
    re: regex::Regex,
}

impl WordMatcher {
    /// The pattern this matcher was compiled from.
    pub closed spec fn pattern(&self) -> Seq<char> {
        self.pattern@
    }
}

/// `regex::Regex::new` on `pattern`; the compiled expression is kept with the
/// pattern it came from. The contract claims that the call succeeds exactly when
/// `regex_compiles` holds of the pattern, which names the crate's parser and
/// size limit: they are not stated here.
#[verifier::external_body]
fn compile_regex(pattern: String) -> (r: Result<WordMatcher, regex::Error>)
    ensures
        r is Ok <==> regex_compiles(pattern@),
        r matches Ok(m) ==> m.pattern() == pattern@,
{
    match regex::Regex::new(&pattern) {
        Ok(re) => Ok(WordMatcher { pattern, re }),
        Err(e) => Err(e),
    }
}

/// `regex::Regex::find` on `text`, giving the matched text. The contract
/// claims that the result is `regex_first_match` of the matcher's pattern and
/// the text, and, as the crate documents, that a match is a piece of the text.
/// Which piece matches is left to the name.
#[verifier::external_body]
fn regex_find(m: &WordMatcher, text: &str) -> (r: Option<String>)
    ensures
        r is Some <==> regex_first_match(m.pattern(), text@) is Some,
        r matches Some(w) ==> w@ == regex_first_match(m.pattern(), text@)->0 && contains(text@, w@),
{
    m.re.find(text).map(|found| found.as_str().to_string())
}

/// A pattern that the regular expression engine refuses.
#[derive(Debug, PartialEq, Eq)]
pub enum PatternError {
    Invalid,
}

impl WordMatcher {
    /// Compiles the pattern of sensitive words.
    pub fn new(pattern: &str) -> (r: Result<WordMatcher, PatternError>)
        ensures
            r is Ok <==> regex_compiles(pattern@),
            r matches Ok(m) ==> m.pattern() == pattern@,
            r matches Err(e) ==> e == PatternError::Invalid,
    {
        match compile_regex(pattern.to_owned()) {
            Ok(m) => Ok(m),
            Err(_) => Err(PatternError::Invalid),
        }
    }
}

/// What a report shows before a sensitive word: red background, white text.
pub open spec fn mark_open() -> Seq<char> {
    seq!['\u{1b}', '[', '4', '1', ';', '3', '7', 'm']
}

/// What a report shows after a sensitive word: back to plain text.
pub open spec fn mark_close() -> Seq<char> {
    seq!['\u{1b}', '[', '0', 'm']
}

/// `word` between the marks.
pub open spec fn marked(word: Seq<char>) -> Seq<char> {
    mark_open() + word + mark_close()
}

/// `line` with every occurrence of `word` marked.
pub fn highlight(line: &str, word: &str) -> (r: String)
    ensures
        r@ == replace_all(line@, word@, marked(word@)),
{
    let open = chars_of("\u{1b}[41;37m");
    let close = chars_of("\u{1b}[0m");
    proof {
        reveal_strlit("\u{1b}[41;37m");
        reveal_strlit("\u{1b}[0m");
        assert(open@ == mark_open());
        assert(close@ == mark_close());
    }
    let w = chars_of(word);
    let mut to = open;
    let mut k: usize = 0;
    while k < w.len()
        invariant
            k <= w.len(),
            to@ == mark_open() + w@.take(k as int),
        decreases w.len() - k,
    {
        to.push(w[k]);
        assert(w@.take(k + 1) == w@.take(k as int).push(w@[k as int]));
        k = k + 1;
    }
    assert(w@.take(w.len() as int) == w@);
    let mut k: usize = 0;
    let ghost base = to@;
    while k < close.len()
        invariant
            k <= close.len(),
            to@ == base + close@.take(k as int),
        decreases close.len() - k,
    {
        to.push(close[k]);
        assert(close@.take(k + 1) == close@.take(k as int).push(close@[k as int]));
        k = k + 1;
    }
    assert(close@.take(close.len() as int) == close@);
    assert(to@ == marked(word@));
    let l = chars_of(line);
    let r = replace_chars(&l, &w, &to);
    string_of(&r)
}

/// A sensitive word found in a piece of commit text.
pub struct Finding {
    /// The text that matched the pattern.
    pub word: String,
    /// The piece of commit text that was searched.
    pub text: String,
    /// The piece of commit text with every occurrence of the word marked.
    pub highlighted: String,
}

/// The finding for a piece of text `chunk` in which the pattern matched
/// `found`, if it matched at all.
pub fn finding_from_match(chunk: &str, found: Option<String>) -> (r: Option<Finding>)
    ensures
        r is Some <==> found is Some,
        r matches Some(f) ==> f.word@ == found->0@ && f.text@ == chunk@ && f.highlighted@ == replace_all(
            chunk@,
            f.word@,
            marked(f.word@),
        ),
{
    match found {
        None => None,
        Some(word) => {
            let highlighted = highlight(chunk, word.as_str());
            Some(Finding { word, text: chunk.to_owned(), highlighted })
        },
    }
}

impl WordMatcher {
    /// Searches `chunk` for the first sensitive word.
    pub fn find_in(&self, chunk: &str) -> (r: Option<Finding>)
        ensures
            r is Some <==> regex_first_match(self.pattern(), chunk@) is Some,
            r matches Some(f) ==> {
                &&& f.word@ == regex_first_match(self.pattern(), chunk@)->0
                &&& f.text@ == chunk@
                &&& contains(chunk@, f.word@)
                &&& f.highlighted@ == replace_all(chunk@, f.word@, marked(f.word@))
            },
    {
        let found = regex_find(self, chunk);
        finding_from_match(chunk, found)
    }
}

} // verus!
