//! Text utilities over strings, viewed as sequences of characters.

use vstd::prelude::*;

verus! {

/// Appends one character to a string.
/// `String::push` adds the character at the end and changes nothing else.
#[verifier::external_body]
fn push_char(s: &mut String, c: char)
    ensures
        final(s)@ == old(s)@.push(c),
{
    s.push(c);
}

/// The characters of `s`, in order.
pub fn chars_of(s: &str) -> (v: Vec<char>)
    ensures
        v@ == s@,
{
    let mut v: Vec<char> = Vec::new();
    for c in it: s.chars()
        invariant
            v@ == it.seq().take(it.index()),
    {
        v.push(c);
    }
    v
}

/// The string made of the characters `v`.
pub fn string_of(v: &Vec<char>) -> (s: String)
    ensures
        s@ == v@,
{
    let mut s = String::new();
    let mut i: usize = 0;
    while i < v.len()
        invariant
            i <= v.len(),
            s@ == v@.take(i as int),
        decreases v.len() - i,
    {
        push_char(&mut s, v[i]);
        assert(v@.take(i + 1) == v@.take(i as int).push(v@[i as int]));
        i = i + 1;
    }
    assert(v@.take(v.len() as int) == v@);
    s
}


/// Unicode `White_Space`: the characters that `str::trim` removes.
pub open spec fn is_white_space(c: char) -> bool {
    let u = c as u32;
    ||| 0x9 <= u <= 0xd
    ||| u == 0x20
    ||| u == 0x85
    ||| u == 0xa0
    ||| u == 0x1680
    ||| 0x2000 <= u <= 0x200a
    ||| u == 0x2028
    ||| u == 0x2029
    ||| u == 0x202f
    ||| u == 0x205f
    ||| u == 0x3000
}

/// `s` without its leading white space.
pub open spec fn trim_start(s: Seq<char>) -> Seq<char>
    decreases s.len(),
{
    if s.len() > 0 && is_white_space(s[0]) {
        trim_start(s.drop_first())
    } else {
        s
    }
}

/// `s` without its trailing white space.
pub open spec fn trim_end(s: Seq<char>) -> Seq<char>
    decreases s.len(),
{
    if s.len() > 0 && is_white_space(s.last()) {
        trim_end(s.drop_last())
    } else {
        s
    }
}

/// `s` without white space at either end.
pub open spec fn trim(s: Seq<char>) -> Seq<char> {
    trim_end(trim_start(s))
}

/// Whether `c` is Unicode white space.
pub fn is_white_space_char(c: char) -> (b: bool)
    ensures
        b == is_white_space(c),
{
    let u = c as u32;
    (0x9 <= u && u <= 0xd) || u == 0x20 || u == 0x85 || u == 0xa0 || u == 0x1680 || (0x2000 <= u
        && u <= 0x200a) || u == 0x2028 || u == 0x2029 || u == 0x202f || u == 0x205f || u == 0x3000
}

/// The characters of `v` from `start` up to `end`.
fn sub_vec(v: &Vec<char>, start: usize, end: usize) -> (r: Vec<char>)
    requires
        start <= end <= v.len(),
    ensures
        r@ == v@.subrange(start as int, end as int),
{
    let mut r: Vec<char> = Vec::new();
    let mut i = start;
    while i < end
        invariant
            start <= i <= end <= v.len(),
            r@ == v@.subrange(start as int, i as int),
        decreases end - i,
    {
        r.push(v[i]);
        assert(v@.subrange(start as int, i + 1) == v@.subrange(start as int, i as int).push(
            v@[i as int],
        ));
        i = i + 1;
    }
    r
}

/// The characters of `v` without white space at either end.
pub fn trim_chars(v: &Vec<char>) -> (r: Vec<char>)
    ensures
        r@ == trim(v@),
{
    let n = v.len();
    let mut i: usize = 0;
    assert(v@.skip(0) == v@);
    while i < n && is_white_space_char(v[i])
        invariant
            i <= n == v.len(),
            trim_start(v@) == trim_start(v@.skip(i as int)),
        decreases n - i,
    {
        assert(v@.skip(i as int).drop_first() == v@.skip(i + 1));
        i = i + 1;
    }
    assert(trim_start(v@) == v@.skip(i as int));
    let mut j: usize = n;
    assert(v@.skip(i as int) == v@.subrange(i as int, n as int));
    while j > i && is_white_space_char(v[j - 1])
        invariant
            i <= j <= n == v.len(),
            trim_end(v@.skip(i as int)) == trim_end(v@.subrange(i as int, j as int)),
        decreases j,
    {
        assert(v@.subrange(i as int, j as int).drop_last() == v@.subrange(i as int, j - 1));
        j = j - 1;
    }
    sub_vec(v, i, j)
}

/// `s` without white space at either end, as `str::trim` gives it.
pub fn trim_str(s: &str) -> (r: String)
    ensures
        r@ == trim(s@),
{
    let v = chars_of(s);
    let t = trim_chars(&v);
    string_of(&t)
}

/// Whether `needle` occurs in `hay` starting at position `i`.
pub open spec fn occurs_at(hay: Seq<char>, needle: Seq<char>, i: int) -> bool {
    0 <= i && i + needle.len() <= hay.len() && hay.subrange(i, i + needle.len()) == needle
}

/// Whether `needle` occurs somewhere in `hay`, as `str::contains` tells it.
pub open spec fn contains(hay: Seq<char>, needle: Seq<char>) -> bool {
    exists|i: int| occurs_at(hay, needle, i)
}

/// Whether `needle` occurs in `hay` at position `i`.
fn occurs_at_exec(hay: &Vec<char>, needle: &Vec<char>, i: usize) -> (b: bool)
    ensures
        b == occurs_at(hay@, needle@, i as int),
{
    if i > hay.len() || needle.len() > hay.len() - i {
        return false;
    }
    let mut k: usize = 0;
    while k < needle.len()
        invariant
            i + needle.len() <= hay.len(),
            k <= needle.len(),
            forall|m: int| 0 <= m < k ==> hay@[i + m] == needle@[m],
        decreases needle.len() - k,
    {
        if hay[i + k] != needle[k] {
            assert(hay@.subrange(i as int, i + needle.len())[k as int] != needle@[k as int]);
            return false;
        }
        k = k + 1;
    }
    assert(hay@.subrange(i as int, i + needle.len()) == needle@);
    true
}

/// Whether `needle` occurs in `hay`.
pub fn contains_chars(hay: &Vec<char>, needle: &Vec<char>) -> (b: bool)
    ensures
        b == contains(hay@, needle@),
{
    if needle.len() > hay.len() {
        assert forall|i: int| !occurs_at(hay@, needle@, i) by {}
        return false;
    }
    let last = hay.len() - needle.len();
    let mut i: usize = 0;
    while i < last
        invariant
            i <= last,
            last + needle.len() == hay.len(),
            forall|m: int| 0 <= m < i ==> !occurs_at(hay@, needle@, m),
        decreases last - i,
    {
        if occurs_at_exec(hay, needle, i) {
            return true;
        }
        i = i + 1;
    }
    if occurs_at_exec(hay, needle, last) {
        return true;
    }
    assert forall|m: int| !occurs_at(hay@, needle@, m) by {
        if 0 <= m && m <= last {
        }
    }
    false
}

/// Whether `needle` occurs in `hay`, as `str::contains` tells it.
pub fn contains_str(hay: &str, needle: &str) -> (b: bool)
    ensures
        b == contains(hay@, needle@),
{
    let h = chars_of(hay);
    let n = chars_of(needle);
    contains_chars(&h, &n)
}


/// The pieces of `s` between the occurrences of `d`, as `str::split` gives them:
/// one more piece than there are occurrences, empty pieces included.
pub open spec fn split_on(s: Seq<char>, d: char) -> Seq<Seq<char>>
    decreases s.len(),
{
    if s.len() == 0 {
        seq![Seq::empty()]
    } else {
        let init = split_on(s.drop_last(), d);
        if s.last() == d {
            init.push(Seq::empty())
        } else {
            init.update(init.len() - 1, init.last().push(s.last()))
        }
    }
}

/// The pieces `parts` with `sep` between each two of them, as `[String]::join` gives it.
pub open spec fn join(parts: Seq<Seq<char>>, sep: Seq<char>) -> Seq<char>
    decreases parts.len(),
{
    if parts.len() == 0 {
        Seq::empty()
    } else if parts.len() == 1 {
        parts[0]
    } else {
        join(parts.drop_last(), sep) + sep + parts.last()
    }
}

/// The views of a sequence of strings.
pub open spec fn views(v: Seq<String>) -> Seq<Seq<char>> {
    v.map_values(|x: String| x@)
}

/// Splitting never yields an empty list of pieces.
pub proof fn lemma_split_nonempty(s: Seq<char>, d: char)
    ensures
        split_on(s, d).len() >= 1,
    decreases s.len(),
{
    if s.len() > 0 {
        lemma_split_nonempty(s.drop_last(), d);
    }
}

/// Splitting at `d` and joining the pieces again with `d` gives back the text.
pub proof fn lemma_join_split(s: Seq<char>, d: char)
    ensures
        join(split_on(s, d), seq![d]) == s,
    decreases s.len(),
{
    if s.len() > 0 {
        let init = split_on(s.drop_last(), d);
        lemma_split_nonempty(s.drop_last(), d);
        lemma_join_split(s.drop_last(), d);
        if s.last() == d {
            let p = init.push(Seq::<char>::empty());
            assert(p.drop_last() == init);
            assert(join(p, seq![d]) == join(init, seq![d]) + seq![d] + Seq::<char>::empty());
            assert(s == s.drop_last().push(d));
        } else {
            let k = init.len() - 1;
            let p = init.update(k, init.last().push(s.last()));
            if init.len() == 1 {
                assert(join(p, seq![d]) == p[0]);
                assert(s == s.drop_last().push(s.last()));
            } else {
                assert(p.drop_last() == init.drop_last());
                assert(join(p, seq![d]) == join(init.drop_last(), seq![d]) + seq![d] + p.last());
                assert(join(init, seq![d]) == join(init.drop_last(), seq![d]) + seq![d]
                    + init.last());
                assert(s == s.drop_last().push(s.last()));
                assert(join(p, seq![d]) == join(init, seq![d]).push(s.last()));
            }
        }
    }
}

/// The pieces of `s` between the occurrences of `d`, as `str::split` with a
/// character gives them.
pub fn split_str(s: &str, d: char) -> (r: Vec<String>)
    ensures
        views(r@) == split_on(s@, d),
{
    let v = chars_of(s);
    let mut pieces: Vec<String> = Vec::new();
    let mut cur: Vec<char> = Vec::new();
    let mut i: usize = 0;
    assert(v@.take(0) == Seq::<char>::empty());
    assert(views(pieces@).push(cur@) == split_on(v@.take(0), d));
    while i < v.len()
        invariant
            i <= v.len(),
            v@ == s@,
            views(pieces@).push(cur@) == split_on(v@.take(i as int), d),
        decreases v.len() - i,
    {
        let ghost before = v@.take(i as int);
        assert(v@.take(i + 1).drop_last() == before);
        assert(v@.take(i + 1).last() == v@[i as int]);
        if v[i] == d {
            let ghost prev = pieces@;
            let piece = string_of(&cur);
            pieces.push(piece);
            cur = Vec::new();
            assert(views(pieces@) == views(prev).push(piece@));
        } else {
            cur.push(v[i]);
        }
        i = i + 1;
    }
    let ghost prev = pieces@;
    let piece = string_of(&cur);
    pieces.push(piece);
    assert(views(pieces@) == views(prev).push(piece@));
    assert(v@.take(v.len() as int) == v@);
    pieces
}


/// The strings `parts` with `sep` between each two of them.
pub fn join_strings(parts: &Vec<String>, sep: &str) -> (r: String)
    ensures
        r@ == join(views(parts@), sep@),
{
    let mut r = String::new();
    let mut i: usize = 0;
    assert(views(parts@).take(0) == Seq::<Seq<char>>::empty());
    while i < parts.len()
        invariant
            i <= parts.len(),
            r@ == join(views(parts@).take(i as int), sep@),
        decreases parts.len() - i,
    {
        let ghost taken = views(parts@).take(i + 1);
        assert(taken.drop_last() == views(parts@).take(i as int));
        assert(taken.last() == parts@[i as int]@);
        if i > 0 {
            r.append(sep);
        }
        r.append(parts[i].as_str());
        i = i + 1;
    }
    assert(views(parts@).take(parts.len() as int) == views(parts@));
    r
}

/// `s` with every occurrence of `from` replaced by `to`, as `str::replace` gives it:
/// occurrences are taken from the left without overlap, and an empty `from`
/// occurs before every character and at the end.
pub open spec fn replace_all(s: Seq<char>, from: Seq<char>, to: Seq<char>) -> Seq<char>
    decreases s.len(),
{
    if from.len() == 0 {
        if s.len() == 0 {
            to
        } else {
            to + seq![s[0]] + replace_all(s.drop_first(), from, to)
        }
    } else if s.len() == 0 {
        Seq::empty()
    } else if occurs_at(s, from, 0) {
        to + replace_all(s.skip(from.len() as int), from, to)
    } else {
        seq![s[0]] + replace_all(s.drop_first(), from, to)
    }
}

/// Appends the characters `w` to `r`.
fn extend_chars(r: &mut Vec<char>, w: &Vec<char>)
    ensures
        final(r)@ == old(r)@ + w@,
{
    let mut k: usize = 0;
    while k < w.len()
        invariant
            k <= w.len(),
            r@ == old(r)@ + w@.take(k as int),
        decreases w.len() - k,
    {
        r.push(w[k]);
        assert(w@.take(k + 1) == w@.take(k as int).push(w@[k as int]));
        k = k + 1;
    }
    assert(w@.take(w.len() as int) == w@);
}

/// The characters `v` with every occurrence of `from` replaced by `to`.
pub fn replace_chars(v: &Vec<char>, from: &Vec<char>, to: &Vec<char>) -> (r: Vec<char>)
    ensures
        r@ == replace_all(v@, from@, to@),
{
    let mut r: Vec<char> = Vec::new();
    let mut i: usize = 0;
    assert(v@.skip(0) == v@);
    while i < v.len()
        invariant
            i <= v.len(),
            r@ + replace_all(v@.skip(i as int), from@, to@) == replace_all(v@, from@, to@),
        decreases v.len() - i,
    {
        let ghost rest = v@.skip(i as int);
        let ghost r0 = r@;
        if from.len() == 0 {
            extend_chars(&mut r, to);
            r.push(v[i]);
            assert(rest.drop_first() == v@.skip(i + 1));
            assert(r@ == r0 + to@ + seq![rest[0]]);
            i = i + 1;
        } else if occurs_at_exec(v, from, i) {
            assert(rest.subrange(0, from@.len() as int) == v@.subrange(
                i as int,
                i + from@.len(),
            ));
            assert(occurs_at(rest, from@, 0));
            assert(rest.skip(from@.len() as int) == v@.skip(i + from.len()));
            extend_chars(&mut r, to);
            i = i + from.len();
        } else {
            assert(!occurs_at(rest, from@, 0)) by {
                if occurs_at(rest, from@, 0) {
                    assert(rest.subrange(0, from@.len() as int) == v@.subrange(
                        i as int,
                        i + from@.len(),
                    ));
                }
            }
            r.push(v[i]);
            assert(rest.drop_first() == v@.skip(i + 1));
            assert(r@ == r0 + seq![rest[0]]);
            i = i + 1;
        }
    }
    if from.len() == 0 {
        extend_chars(&mut r, to);
    }
    assert(v@.skip(i as int).len() == 0);
    r
}


/// What `trim_start` leaves: the text from the first character that is not
/// white space on; everything before it is white space.
proof fn lemma_trim_start_shape(s: Seq<char>) -> (i: int)
    ensures
        0 <= i <= s.len(),
        trim_start(s) == s.skip(i),
        forall|k: int| 0 <= k < i ==> is_white_space(#[trigger] s[k]),
        i < s.len() ==> !is_white_space(s[i]),
    decreases s.len(),
{
    if s.len() > 0 && is_white_space(s[0]) {
        let i0 = lemma_trim_start_shape(s.drop_first());
        assert(s.drop_first().skip(i0) == s.skip(i0 + 1));
        assert forall|k: int| 0 <= k < i0 + 1 implies is_white_space(#[trigger] s[k]) by {
            if k > 0 {
                assert(s[k] == s.drop_first()[k - 1]);
            }
        }
        assert(i0 + 1 < s.len() ==> s[i0 + 1] == s.drop_first()[i0]);
        i0 + 1
    } else {
        assert(s.skip(0) == s);
        0
    }
}

/// What `trim_end` leaves: the text up to the last character that is not
/// white space; everything after it is white space.
proof fn lemma_trim_end_shape(s: Seq<char>) -> (j: int)
    ensures
        0 <= j <= s.len(),
        trim_end(s) == s.take(j),
        forall|k: int| j <= k < s.len() ==> is_white_space(#[trigger] s[k]),
        j > 0 ==> !is_white_space(s[j - 1]),
    decreases s.len(),
{
    if s.len() > 0 && is_white_space(s.last()) {
        let j0 = lemma_trim_end_shape(s.drop_last());
        assert(s.drop_last().take(j0) == s.take(j0));
        assert forall|k: int| j0 <= k < s.len() implies is_white_space(#[trigger] s[k]) by {
            if k < s.len() - 1 {
                assert(s[k] == s.drop_last()[k]);
            }
        }
        assert(j0 > 0 ==> s[j0 - 1] == s.drop_last()[j0 - 1]);
        j0
    } else {
        assert(s.take(s.len() as int) == s);
        s.len() as int
    }
}

/// Trimming takes away white space at the ends and nothing else: the result
/// is a stretch `s[i..j]` of the text, everything before and after it is
/// white space, and a non-empty result begins and ends with a character that
/// is not white space.
pub proof fn lemma_trim_shape(s: Seq<char>)
    ensures
        exists|i: int, j: int|
            {
                &&& 0 <= i <= j <= s.len()
                &&& trim(s) == s.subrange(i, j)
                &&& forall|k: int| 0 <= k < i ==> is_white_space(#[trigger] s[k])
                &&& forall|k: int| j <= k < s.len() ==> is_white_space(#[trigger] s[k])
                &&& i < j ==> !is_white_space(s[i]) && !is_white_space(s[j - 1])
            },
{
    let i = lemma_trim_start_shape(s);
    let t = s.skip(i);
    let j0 = lemma_trim_end_shape(t);
    let j = i + j0;
    assert(t.take(j0) == s.subrange(i, j));
    assert forall|k: int| j <= k < s.len() implies is_white_space(#[trigger] s[k]) by {
        assert(s[k] == t[k - i]);
    }
    if i < j {
        assert(s[i] == t[0]);
        assert(s[j - 1] == t[j0 - 1]);
        if j0 == 0 {
        }
    }
    assert(0 <= i <= j <= s.len() && trim(s) == s.subrange(i, j));
}

/// Trimming text that has no white space at its ends gives it back.
pub proof fn lemma_trim_keeps_bare_text(s: Seq<char>)
    requires
        s.len() > 0 ==> !is_white_space(s[0]) && !is_white_space(s.last()),
    ensures
        trim(s) == s,
{
    let i = lemma_trim_start_shape(s);
    if i > 0 {
        assert(is_white_space(s[0]));
    }
    assert(s.skip(0) == s);
    let j = lemma_trim_end_shape(s);
    if j < s.len() {
        assert(is_white_space(s[s.len() - 1]));
    }
    assert(s.take(s.len() as int) == s);
}

/// Replacing in a text that begins with the (non-empty) word gives the
/// replacement followed by the replacement in the rest, whatever the rest
/// begins with: no later occurrence is left unreplaced.
pub proof fn lemma_replace_leading_word(w: Seq<char>, t: Seq<char>, m: Seq<char>)
    requires
        w.len() > 0,
    ensures
        replace_all(w + t, w, m) == m + replace_all(t, w, m),
{
    let s = w + t;
    assert(s.subrange(0, w.len() as int) == w);
    assert(occurs_at(s, w, 0));
    assert(s.skip(w.len() as int) == t);
}

/// Replacing in a text that does not begin with the (non-empty) word keeps
/// its first character and replaces in the rest.
pub proof fn lemma_replace_other_char(c: char, t: Seq<char>, w: Seq<char>, m: Seq<char>)
    requires
        w.len() > 0,
        !occurs_at(seq![c] + t, w, 0),
    ensures
        replace_all(seq![c] + t, w, m) == seq![c] + replace_all(t, w, m),
{
    let s = seq![c] + t;
    assert(s[0] == c);
    assert(s.drop_first() == t);
}

/// Replacing the (non-empty) word in a text where it does not occur changes nothing.
pub proof fn lemma_replace_absent(s: Seq<char>, w: Seq<char>, m: Seq<char>)
    requires
        w.len() > 0,
        !contains(s, w),
    ensures
        replace_all(s, w, m) == s,
    decreases s.len(),
{
    if s.len() > 0 {
        assert(!occurs_at(s, w, 0));
        let t = s.drop_first();
        assert forall|i: int| !occurs_at(t, w, i) by {
            if occurs_at(t, w, i) {
                assert(s.subrange(i + 1, i + 1 + w.len()) == t.subrange(i, i + w.len()));
                assert(occurs_at(s, w, i + 1));
            }
        }
        lemma_replace_absent(t, w, m);
        assert(s == seq![s[0]] + t);
    }
}

/// Replacing the (non-empty) word in the word written `n` times gives the
/// replacement written `n` times: every occurrence is replaced.
pub proof fn lemma_replace_repeated_word(w: Seq<char>, n: nat, m: Seq<char>)
    requires
        w.len() > 0,
    ensures
        replace_all(repeat(w, n), w, m) == repeat(m, n),
    decreases n,
{
    if n > 0 {
        lemma_replace_repeated_word(w, (n - 1) as nat, m);
        lemma_replace_leading_word(w, repeat(w, (n - 1) as nat), m);
    }
}

/// `w` written `n` times one after the other.
pub open spec fn repeat(w: Seq<char>, n: nat) -> Seq<char>
    decreases n,
{
    if n == 0 {
        Seq::empty()
    } else {
        w + repeat(w, (n - 1) as nat)
    }
}


/// No piece of a split holds the separator.
pub proof fn lemma_split_pieces_lack_separator(s: Seq<char>, d: char)
    ensures
        forall|k: int, m: int|
            0 <= k < split_on(s, d).len() && 0 <= m < split_on(s, d)[k].len() ==> #[trigger] split_on(
                s,
                d,
            )[k][m] != d,
    decreases s.len(),
{
    if s.len() > 0 {
        lemma_split_pieces_lack_separator(s.drop_last(), d);
        lemma_split_nonempty(s.drop_last(), d);
        let init = split_on(s.drop_last(), d);
        let r = split_on(s, d);
        assert forall|k: int, m: int| 0 <= k < r.len() && 0 <= m < r[k].len() implies #[trigger] r[k][m]
            != d by {
            if s.last() == d {
                if k < init.len() {
                    assert(r[k] == init[k]);
                }
            } else {
                if k < init.len() - 1 {
                    assert(r[k] == init[k]);
                } else {
                    assert(r[k] == init.last().push(s.last()));
                    if m < init.last().len() {
                        assert(init.last() == init[init.len() - 1]);
                        assert(init[init.len() - 1][m] != d);
                    }
                }
            }
        }
    }
}

/// A split gives one more piece than there are separators in the text.
pub proof fn lemma_split_count(s: Seq<char>, d: char)
    ensures
        split_on(s, d).len() == s.filter(|c: char| c == d).len() + 1,
    decreases s.len(),
{
    reveal(Seq::filter);
    if s.len() > 0 {
        lemma_split_count(s.drop_last(), d);
    }
}

/// Joining two non-empty lists of pieces one after the other puts one more
/// separator between them.
pub proof fn lemma_join_concat(a: Seq<Seq<char>>, b: Seq<Seq<char>>, sep: Seq<char>)
    requires
        a.len() > 0,
        b.len() > 0,
    ensures
        join(a + b, sep) == join(a, sep) + sep + join(b, sep),
    decreases b.len(),
{
    if b.len() == 1 {
        assert((a + b).drop_last() == a);
        assert((a + b).last() == b[0]);
    } else {
        let b2 = b.drop_last();
        lemma_join_concat(a, b2, sep);
        assert((a + b).drop_last() == a + b2);
        assert((a + b).last() == b.last());
    }
}

/// Joining one piece gives the piece; joining none gives nothing.
pub proof fn lemma_join_small(x: Seq<char>, sep: Seq<char>)
    ensures
        join(seq![x], sep) == x,
        join(Seq::<Seq<char>>::empty(), sep) == Seq::<char>::empty(),
{
}

} // verus!
