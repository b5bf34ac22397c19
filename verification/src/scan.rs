//! What a whole scan of the commits comes to: the search of each commit's
//! text, chunk after chunk, stopping at the first chunk that matches.

use vstd::prelude::*;
use crate::batch::{chunks, last_chunk, run, step};
use crate::matcher::regex_first_match;

verus! {

/// How many lines of a commit's text are searched at a time.
pub const LINES_PER_CHUNK: u32 = 5;

/// Whether the pattern matches in `chunk`.
pub open spec fn chunk_matches(pattern: Seq<char>, chunk: Seq<char>) -> bool {
    regex_first_match(pattern, chunk) is Some
}

/// One line of a commit's text read during the scan: the chunk in which the
/// pattern matched, if the line completed one, and the new count and buffer.
pub open spec fn scan_line(pattern: Seq<char>, count: int, buffer: Seq<char>, line: Seq<char>) -> (
    Option<Seq<char>>,
    int,
    Seq<char>,
) {
    let (c, b, o) = step(LINES_PER_CHUNK as int, count, buffer, line);
    if o matches Some(x) && chunk_matches(pattern, x) {
        (o, c, b)
    } else {
        (None, c, b)
    }
}

/// The end of a commit's text: the last, unfinished chunk, if the pattern matches in it.
pub open spec fn scan_end(pattern: Seq<char>, count: int, buffer: Seq<char>) -> Option<Seq<char>> {
    let o = last_chunk(LINES_PER_CHUNK as int, count, buffer);
    if o matches Some(x) && chunk_matches(pattern, x) {
        o
    } else {
        None
    }
}

/// Reading `lines` one by one with `scan_line`, stopping at the first match.
pub open spec fn feed(pattern: Seq<char>, lines: Seq<Seq<char>>) -> (Option<Seq<char>>, int, Seq<char>)
    decreases lines.len(),
{
    if lines.len() == 0 {
        (None, 0, Seq::empty())
    } else {
        let (f, c, b) = feed(pattern, lines.drop_last());
        if f is Some {
            (f, c, b)
        } else {
            scan_line(pattern, c, b, lines.last())
        }
    }
}

/// The scan of one commit whose text is `lines`: the chunk in which the
/// pattern matched, if any.
pub open spec fn scan_commit(pattern: Seq<char>, lines: Seq<Seq<char>>) -> Option<Seq<char>> {
    let (f, c, b) = feed(pattern, lines);
    if f is Some {
        f
    } else {
        scan_end(pattern, c, b)
    }
}

/// The first of `cs` in which the pattern matches.
pub open spec fn first_matching(pattern: Seq<char>, cs: Seq<Seq<char>>) -> Option<Seq<char>>
    decreases cs.len(),
{
    if cs.len() == 0 {
        None
    } else {
        match first_matching(pattern, cs.drop_last()) {
            Some(x) => Some(x),
            None => if chunk_matches(pattern, cs.last()) {
                Some(cs.last())
            } else {
                None
            },
        }
    }
}

/// The scan of the commits whose texts are `texts`, in order: the position of
/// the first commit in which the pattern matched, and the chunk.
pub open spec fn scan_commits(pattern: Seq<char>, texts: Seq<Seq<Seq<char>>>) -> Option<(int, Seq<char>)>
    decreases texts.len(),
{
    if texts.len() == 0 {
        None
    } else {
        match scan_commits(pattern, texts.drop_last()) {
            Some(r) => Some(r),
            None => match scan_commit(pattern, texts.last()) {
                Some(x) => Some(((texts.len() - 1) as int, x)),
                None => None,
            },
        }
    }
}

/// Scanning line by line finds what searching the chunks of the whole text
/// in order finds.
pub proof fn lemma_feed(pattern: Seq<char>, lines: Seq<Seq<char>>)
    ensures
        ({
            let (f, c, b) = feed(pattern, lines);
            let (rc, rb, e) = run(LINES_PER_CHUNK as int, lines);
            &&& f == first_matching(pattern, e)
            &&& f is None ==> c == rc && b == rb
        }),
    decreases lines.len(),
{
    if lines.len() > 0 {
        let init = lines.drop_last();
        lemma_feed(pattern, init);
        let (rc, rb, e) = run(LINES_PER_CHUNK as int, init);
        let (c2, b2, o) = step(LINES_PER_CHUNK as int, rc, rb, lines.last());
        if o is Some {
            assert(e.push(o->0).drop_last() == e);
        }
    }
}

/// The scan of a commit stops at the first chunk of its text, taken five
/// lines at a time, in which the pattern matches; it finds nothing when the
/// pattern matches in none.
pub proof fn lemma_scan_commit_finds_first_matching_chunk(pattern: Seq<char>, lines: Seq<Seq<char>>)
    ensures
        scan_commit(pattern, lines) == first_matching(pattern, chunks(LINES_PER_CHUNK as int, lines)),
{
    lemma_feed(pattern, lines);
    let (rc, rb, e) = run(LINES_PER_CHUNK as int, lines);
    let o = last_chunk(LINES_PER_CHUNK as int, rc, rb);
    if o is Some {
        assert(e.push(o->0).drop_last() == e);
    }
}

/// `first_matching` finds the first chunk in which the pattern matches.
pub proof fn lemma_first_matching(pattern: Seq<char>, cs: Seq<Seq<char>>)
    ensures
        first_matching(pattern, cs) is None <==> forall|k: int|
            0 <= k < cs.len() ==> !chunk_matches(pattern, #[trigger] cs[k]),
        first_matching(pattern, cs) is Some ==> exists|k: int|
            0 <= k < cs.len() && cs[k] == first_matching(pattern, cs)->0 && chunk_matches(
                pattern,
                cs[k],
            ) && forall|j: int| 0 <= j < k ==> !chunk_matches(pattern, #[trigger] cs[j]),
    decreases cs.len(),
{
    if cs.len() > 0 {
        let init = cs.drop_last();
        lemma_first_matching(pattern, init);
        assert forall|k: int| 0 <= k < init.len() implies init[k] == cs[k] by {}
        if first_matching(pattern, init) is Some {
            let k = choose|k: int|
                0 <= k < init.len() && init[k] == first_matching(pattern, init)->0
                    && chunk_matches(pattern, init[k]) && forall|j: int|
                    0 <= j < k ==> !chunk_matches(pattern, #[trigger] init[j]);
            assert(cs[k] == init[k]);
            assert forall|j: int| 0 <= j < k implies !chunk_matches(pattern, #[trigger] cs[j]) by {
                assert(cs[j] == init[j]);
            }
        } else {
            assert forall|j: int| 0 <= j < init.len() implies !chunk_matches(
                pattern,
                #[trigger] cs[j],
            ) by {
                assert(cs[j] == init[j]);
            }
            if chunk_matches(pattern, cs.last()) {
                let k = cs.len() - 1;
                assert(cs[k] == cs.last());
            } else {
                assert forall|j: int| 0 <= j < cs.len() implies !chunk_matches(
                    pattern,
                    #[trigger] cs[j],
                ) by {
                    if j < init.len() {
                        assert(cs[j] == init[j]);
                    }
                }
            }
        }
    }
}

/// A whole scan reports a commit exactly when the pattern matches in some
/// five-line chunk of some commit's text; it then reports the first such
/// commit, in the order listed, and the first such chunk of it, and no
/// earlier commit has a matching chunk.
pub proof fn lemma_scan_commits(pattern: Seq<char>, texts: Seq<Seq<Seq<char>>>)
    ensures
        scan_commits(pattern, texts) is None <==> forall|i: int|
            0 <= i < texts.len() ==> first_matching(
                pattern,
                chunks(LINES_PER_CHUNK as int, #[trigger] texts[i]),
            ) is None,
        scan_commits(pattern, texts) matches Some((i, x)) ==> {
            &&& 0 <= i < texts.len()
            &&& first_matching(pattern, chunks(LINES_PER_CHUNK as int, texts[i])) == Some(x)
            &&& forall|j: int|
                0 <= j < i ==> first_matching(
                    pattern,
                    chunks(LINES_PER_CHUNK as int, #[trigger] texts[j]),
                ) is None
        },
    decreases texts.len(),
{
    if texts.len() > 0 {
        let init = texts.drop_last();
        lemma_scan_commits(pattern, init);
        lemma_scan_commit_finds_first_matching_chunk(pattern, texts.last());
        assert forall|i: int| 0 <= i < init.len() implies init[i] == texts[i] by {}
        assert(texts.last() == texts[texts.len() - 1]);
        if scan_commits(pattern, init) is None {
            assert forall|j: int| 0 <= j < init.len() implies first_matching(
                pattern,
                chunks(LINES_PER_CHUNK as int, #[trigger] texts[j]),
            ) is None by {
                assert(texts[j] == init[j]);
            }
        } else {
            let (i, x) = scan_commits(pattern, init)->0;
            assert(texts[i] == init[i]);
            assert forall|j: int| 0 <= j < i implies first_matching(
                pattern,
                chunks(LINES_PER_CHUNK as int, #[trigger] texts[j]),
            ) is None by {
                assert(texts[j] == init[j]);
            }
            assert(first_matching(pattern, chunks(LINES_PER_CHUNK as int, init[i])) is Some);
        }
    }
}

} // verus!
