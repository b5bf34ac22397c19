//! Grouping the lines of a command's output into chunks of a fixed number of
//! lines, handed out one by one as they fill up.

use vstd::prelude::*;

verus! {

/// The state after the start-of-round reset: a full chunk starts over empty.
pub open spec fn after_reset(max: int, count: int, buffer: Seq<char>) -> (int, Seq<char>) {
    if count == max {
        (0, Seq::empty())
    } else {
        (count, buffer)
    }
}

/// One line read: the new count, the new buffer, and the chunk handed out, if
/// the line filled one.
pub open spec fn step(max: int, count: int, buffer: Seq<char>, line: Seq<char>) -> (
    int,
    Seq<char>,
    Option<Seq<char>>,
) {
    let (c, b) = after_reset(max, count, buffer);
    let nb = b + line;
    (c + 1, nb, if c + 1 == max { Some(nb) } else { None })
}

/// What is handed out when the output ends: the lines of an unfinished chunk, if any.
pub open spec fn last_chunk(max: int, count: int, buffer: Seq<char>) -> Option<Seq<char>> {
    let (c, b) = after_reset(max, count, buffer);
    if b.len() > 0 {
        Some(b)
    } else {
        None
    }
}

/// The lines one after the other.
pub open spec fn concat(parts: Seq<Seq<char>>) -> Seq<char>
    decreases parts.len(),
{
    if parts.len() == 0 {
        Seq::empty()
    } else {
        concat(parts.drop_last()) + parts.last()
    }
}

/// Feeding `lines` to a new batcher with chunks of `max` lines: the count, the
/// buffer, and the chunks handed out so far.
pub open spec fn run(max: int, lines: Seq<Seq<char>>) -> (int, Seq<char>, Seq<Seq<char>>)
    decreases lines.len(),
{
    if lines.len() == 0 {
        (0, Seq::empty(), Seq::empty())
    } else {
        let (c, b, e) = run(max, lines.drop_last());
        let (c2, b2, o) = step(max, c, b, lines.last());
        (
            c2,
            b2,
            match o {
                Some(x) => e.push(x),
                None => e,
            },
        )
    }
}

/// Every chunk handed out for `lines`, the last unfinished one included.
pub open spec fn chunks(max: int, lines: Seq<Seq<char>>) -> Seq<Seq<char>> {
    let (c, b, e) = run(max, lines);
    match last_chunk(max, c, b) {
        Some(x) => e.push(x),
        None => e,
    }
}

/// Groups lines into chunks of `max_line` lines. A `max_line` of 0 never
/// completes a chunk: everything is handed out when the output ends.
pub struct LineBatcher {
    max_line: u32,
    count: u32,
    buffer: String,
    fed: Ghost<Seq<Seq<char>>>,
    handed: Ghost<Seq<Seq<char>>>,
}

impl LineBatcher {
    /// The count never passes the chunk size, and the state is what feeding
    /// the lines read so far to a new batcher gives.
    pub closed spec fn wf(self) -> bool {
        let (c, b, e) = run(self.max_line as int, self.fed@);
        &&& self.max_line == 0 || self.count <= self.max_line
        &&& self.count == c
        &&& self.buffer@ == b
        &&& self.handed@ == e
    }

    /// A well-formed batcher holds what feeding its lines to a new batcher gives.
    pub proof fn lemma_state(self)
        requires
            self.wf(),
        ensures
            run(self.max_line(), self.fed()) == (self.count(), self.buffer(), self.handed()),
    {
    }

    /// The lines read so far, in order.
    pub closed spec fn fed(self) -> Seq<Seq<char>> {
        self.fed@
    }

    /// The chunks handed out so far, in order.
    pub closed spec fn handed(self) -> Seq<Seq<char>> {
        self.handed@
    }

    /// The number of lines in a full chunk.
    pub closed spec fn max_line(self) -> int {
        self.max_line as int
    }

    /// The number of lines read since the last reset.
    pub closed spec fn count(self) -> int {
        self.count as int
    }

    /// The text of those lines.
    pub closed spec fn buffer(self) -> Seq<char> {
        self.buffer@
    }

    /// A batcher that has read nothing yet.
    pub fn new(max_line: u32) -> (r: LineBatcher)
        ensures
            r.wf(),
            r.max_line() == max_line,
            r.count() == 0,
            r.buffer() == Seq::<char>::empty(),
            r.fed() == Seq::<Seq<char>>::empty(),
            r.handed() == Seq::<Seq<char>>::empty(),
    {
        LineBatcher {
            max_line,
            count: 0,
            buffer: String::new(),
            fed: Ghost(Seq::empty()),
            handed: Ghost(Seq::empty()),
        }
    }

    /// Whether one more line can be counted: with no chunk size, the count of
    /// lines must stay below `u32::MAX`.
    pub open spec fn can_push(self) -> bool {
        self.max_line() == 0 ==> self.count() < u32::MAX
    }

    /// Whether one more line can be counted.
    pub fn has_room(&self) -> (r: bool)
        ensures
            r == self.can_push(),
    {
        self.max_line != 0 || self.count < u32::MAX
    }

    /// Reads one line; hands out the chunk that the line completes, if it does.
    pub fn push_line(&mut self, line: &str) -> (r: Option<String>)
        requires
            old(self).wf(),
            old(self).can_push(),
        ensures
            final(self).wf(),
            final(self).max_line() == old(self).max_line(),
            final(self).fed() == old(self).fed().push(line@),
            final(self).handed() == match r {
                Some(x) => old(self).handed().push(x@),
                None => old(self).handed(),
            },
            ({
                let (c, b, o) = step(
                    old(self).max_line(),
                    old(self).count(),
                    old(self).buffer(),
                    line@,
                );
                &&& final(self).count() == c
                &&& final(self).buffer() == b
                &&& r is Some <==> o is Some
                &&& r matches Some(x) ==> x@ == o->0
            }),
    {
        if self.count == self.max_line {
            self.count = 0;
            self.buffer = String::new();
        }
        self.count = self.count + 1;
        self.buffer.append(line);
        let ghost prev = self.fed@;
        self.fed = Ghost(self.fed@.push(line@));
        assert(self.fed@.drop_last() == prev);
        proof {
            lemma_run(self.max_line as int, self.fed@);
        }
        if self.count == self.max_line {
            let chunk = self.buffer.clone();
            self.handed = Ghost(self.handed@.push(chunk@));
            Some(chunk)
        } else {
            None
        }
    }

    /// The output has ended: hands out the lines of an unfinished chunk, if any.
    pub fn finish(&self) -> (r: Option<String>)
        requires
            self.wf(),
        ensures
            ({
                let o = last_chunk(self.max_line(), self.count(), self.buffer());
                &&& r is Some <==> o is Some
                &&& r matches Some(x) ==> x@ == o->0
            }),
            chunks(self.max_line(), self.fed()) == match r {
                Some(x) => self.handed().push(x@),
                None => self.handed(),
            },
    {
        if self.count == self.max_line || self.buffer.as_str().is_empty() {
            None
        } else {
            Some(self.buffer.clone())
        }
    }
}


/// One more line at the end adds it at the end of the text.
proof fn lemma_concat_push(parts: Seq<Seq<char>>, x: Seq<char>)
    ensures
        concat(parts.push(x)) == concat(parts) + x,
{
    assert(parts.push(x).drop_last() == parts);
}

/// Positions of the chunks before the `n`-th.
proof fn lemma_chunk_positions(k: int, n: int, max: int)
    by (nonlinear_arith)
    requires
        0 <= k < n,
        max > 0,
    ensures
        0 <= k * max,
        k * max + max <= n * max,
        (k + 1) * max == k * max + max,
{
}

/// Positions after one more full chunk.
proof fn lemma_next_chunk_position(n: int, max: int)
    by (nonlinear_arith)
    requires
        0 <= n,
        max > 0,
    ensures
        (n + 1) * max == n * max + max,
        0 <= n * max,
{
}

/// What feeding a batcher keeps true: the chunks handed out and the lines
/// still held make up all the text read, and with a chunk size, every chunk
/// handed out holds the next `max` lines.
proof fn lemma_run(max: int, lines: Seq<Seq<char>>)
    requires
        max >= 0,
    ensures
        ({
            let (c, b, e) = run(max, lines);
            let (ec, eb) = after_reset(max, c, b);
            &&& 0 <= c
            &&& max > 0 ==> c <= max
            &&& concat(e) + eb == concat(lines)
            &&& max > 0 ==> {
                &&& 0 <= ec < max
                &&& lines.len() == e.len() * max + ec
                &&& 0 <= e.len() * max
                &&& eb == concat(lines.skip(e.len() * max))
                &&& forall|k: int|
                    0 <= k < e.len() ==> #[trigger] e[k] == concat(
                        lines.subrange(k * max, k * max + max),
                    )
            }
        }),
    decreases lines.len(),
{
    if lines.len() == 0 {
        assert(lines.skip(0) == lines);
    } else {
        let init = lines.drop_last();
        let l = lines.last();
        lemma_run(max, init);
        let (c, b, e) = run(max, init);
        let (ec, eb) = after_reset(max, c, b);
        assert(lines == init.push(l));
        lemma_concat_push(init, l);
        let c2 = ec + 1;
        let b2 = eb + l;
        if max > 0 {
            lemma_next_chunk_position(e.len() as int, max);
            let start = e.len() * max;
            assert(lines.skip(start) == init.skip(start).push(l));
            lemma_concat_push(init.skip(start), l);
            assert forall|k: int| 0 <= k < e.len() implies #[trigger] e[k] == concat(
                lines.subrange(k * max, k * max + max),
            ) by {
                lemma_chunk_positions(k, e.len() as int, max);
                assert(lines.subrange(k * max, k * max + max) == init.subrange(
                    k * max,
                    k * max + max,
                ));
            }
        }
        if c2 == max {
            let e2 = e.push(b2);
            lemma_concat_push(e, b2);
            if max > 0 {
                let start = e.len() * max;
                assert(lines.subrange(start, start + max) == lines.skip(start));
                assert forall|k: int| 0 <= k < e2.len() implies #[trigger] e2[k] == concat(
                    lines.subrange(k * max, k * max + max),
                ) by {
                    if k < e.len() {
                        assert(e2[k] == e[k]);
                    }
                }
                assert(lines.skip(e2.len() * max) == Seq::<Seq<char>>::empty());
            }
        }
    }
}

/// No text is lost or reordered: the chunks handed out, the last unfinished one
/// included, make up exactly the lines read, in order.
pub proof fn lemma_chunks_keep_all_text(max: int, lines: Seq<Seq<char>>)
    requires
        max >= 0,
    ensures
        concat(chunks(max, lines)) == concat(lines),
{
    lemma_run(max, lines);
    let (c, b, e) = run(max, lines);
    let (ec, eb) = after_reset(max, c, b);
    if eb.len() > 0 {
        lemma_concat_push(e, eb);
    } else {
        assert(eb == Seq::<char>::empty());
        assert(concat(e) + eb == concat(e));
    }
}

/// With a chunk size of `max` lines, the full chunks handed out are the lines
/// taken `max` at a time, and there are as many of them as `max` fits in the
/// number of lines.
pub proof fn lemma_full_chunks_hold_max_lines(max: int, lines: Seq<Seq<char>>)
    requires
        max > 0,
    ensures
        run(max, lines).2.len() == (lines.len() as int) / max,
        forall|k: int|
            0 <= k < run(max, lines).2.len() ==> #[trigger] run(max, lines).2[k] == concat(
                lines.subrange(k * max, k * max + max),
            ),
{
    lemma_run(max, lines);
    let (c, b, e) = run(max, lines);
    let (ec, eb) = after_reset(max, c, b);
    vstd::arithmetic::div_mod::lemma_fundamental_div_mod_converse_div(
        lines.len() as int,
        max,
        e.len() as int,
        ec,
    );
}


/// Where the `k`-th chunk of `n` lines, `max` at a time, ends.
pub open spec fn chunk_end(k: int, max: int, n: int) -> int {
    if k * max + max <= n {
        k * max + max
    } else {
        n
    }
}

/// Lines that are not empty make up a text that is not empty.
proof fn lemma_concat_nonempty(parts: Seq<Seq<char>>)
    requires
        parts.len() > 0,
        forall|k: int| 0 <= k < parts.len() ==> #[trigger] parts[k].len() > 0,
    ensures
        concat(parts).len() > 0,
{
    assert(parts.last() == parts[parts.len() - 1]);
}

/// With a chunk size of `max` lines, and lines that are not empty (as read
/// from a command's output), the chunks handed out, the last unfinished one
/// included, are the lines taken `max` at a time, the last chunk holding what
/// is left; there are as many chunks as `max` fits in the number of lines,
/// rounded up.
pub proof fn lemma_chunks_of_lines(max: int, lines: Seq<Seq<char>>)
    requires
        max > 0,
        forall|k: int| 0 <= k < lines.len() ==> #[trigger] lines[k].len() > 0,
    ensures
        chunks(max, lines).len() == (lines.len() + max - 1) / max,
        forall|k: int|
            0 <= k < chunks(max, lines).len() ==> #[trigger] chunks(max, lines)[k] == concat(
                lines.subrange(k * max, chunk_end(k, max, lines.len() as int)),
            ),
{
    lemma_run(max, lines);
    let (c, b, e) = run(max, lines);
    let (ec, eb) = after_reset(max, c, b);
    let n = lines.len() as int;
    let q = e.len() as int;
    assert forall|k: int| 0 <= k < q implies chunk_end(k, max, n) == k * max + max by {
        lemma_chunk_positions(k, q, max);
    }
    if ec == 0 {
        assert(lines.skip(q * max).len() == 0);
        assert(lines.skip(q * max) == Seq::<Seq<char>>::empty());
        assert(chunks(max, lines) == e);
        vstd::arithmetic::div_mod::lemma_fundamental_div_mod_converse_div(
            n + max - 1,
            max,
            q,
            max - 1,
        );
    } else {
        let rest = lines.skip(q * max);
        assert forall|k: int| 0 <= k < rest.len() implies #[trigger] rest[k].len() > 0 by {
            assert(rest[k] == lines[q * max + k]);
        }
        lemma_concat_nonempty(rest);
        let all = e.push(eb);
        assert(chunks(max, lines) == all);
        lemma_next_chunk_position(q, max);
        vstd::arithmetic::div_mod::lemma_fundamental_div_mod_converse_div(
            n + max - 1,
            max,
            q + 1,
            ec - 1,
        );
        assert(chunk_end(q, max, n) == n);
        assert(lines.subrange(q * max, n) == rest);
        assert forall|k: int| 0 <= k < all.len() implies #[trigger] all[k] == concat(
            lines.subrange(k * max, chunk_end(k, max, n)),
        ) by {
            if k < q {
                assert(all[k] == e[k]);
            }
        }
    }
}

} // verus!
