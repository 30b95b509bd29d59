//! White space at the ends of texts.
use vstd::prelude::*;

use crate::text::{from_chars, to_chars};

verus! {

/// Unicode white space.
pub open spec fn is_white(c: char) -> bool {
    let u = c as u32;
    ||| 0x9 <= u <= 0xd
    ||| u == 0x20
    ||| u == 0x85
    ||| u == 0xa0
    ||| u == 0x1680
    ||| 0x2000 <= u <= 0x200a
    ||| u == 0x2028
    ||| u == 0x2029
    ||| u == 0x202f
    ||| u == 0x205f
    ||| u == 0x3000
}

/// Where the white space that starts at `from` ends.
pub open spec fn skip_white(s: Seq<char>, from: int) -> int
    decreases s.len() - from,
{
    if 0 <= from < s.len() && is_white(s[from]) {
        skip_white(s, from + 1)
    } else {
        from
    }
}

/// Where the white space that ends at `to` starts.
pub open spec fn white_end(s: Seq<char>, to: int) -> int
    decreases to,
{
    if 0 < to <= s.len() && is_white(s[to - 1]) {
        white_end(s, to - 1)
    } else {
        to
    }
}

/// The text without the white space at both ends.
pub open spec fn trimmed(s: Seq<char>) -> Seq<char> {
    let lo = skip_white(s, 0);
    let hi = white_end(s, s.len() as int);
    if lo < hi {
        s.subrange(lo, hi)
    } else {
        Seq::empty()
    }
}

fn white(c: char) -> (r: bool)
    ensures
        r == is_white(c),
{
    let u: u32 = c as u32;
    (0x9 <= u && u <= 0xd) || u == 0x20 || u == 0x85 || u == 0xa0 || u == 0x1680 || (0x2000 <= u
        && u <= 0x200a) || u == 0x2028 || u == 0x2029 || u == 0x202f || u == 0x205f || u == 0x3000
}

/// Where the white space that starts at `from` ends.
pub fn after_white(s: &Vec<char>, from: usize) -> (r: usize)
    requires
        from <= s@.len(),
    ensures
        r == skip_white(s@, from as int),
        from <= r <= s@.len(),
{
    let mut i: usize = from;
    while i < s.len() && white(s[i])
        invariant
            from <= i <= s@.len(),
            skip_white(s@, i as int) == skip_white(s@, from as int),
        decreases s@.len() - i,
    {
        i += 1;
    }
    i
}

/// The characters of a text without the white space at both ends.
pub fn trim_chars(text: &str) -> (r: Vec<char>)
    ensures
        r@ == trimmed(text@),
{
    let all: Vec<char> = to_chars(text);
    let lo: usize = after_white(&all, 0);
    let mut hi: usize = all.len();
    while hi > 0 && white(all[hi - 1])
        invariant
            hi <= all@.len(),
            white_end(all@, hi as int) == white_end(all@, all@.len() as int),
        decreases hi,
    {
        hi -= 1;
    }
    let mut out: Vec<char> = Vec::new();
    if lo >= hi {
        return out;
    }
    let mut i: usize = lo;
    while i < hi
        invariant
            lo <= i <= hi <= all@.len(),
            out@ == all@.subrange(lo as int, i as int),
        decreases hi - i,
    {
        out.push(all[i]);
        assert(out@ =~= all@.subrange(lo as int, i + 1));
        i += 1;
    }
    out
}

/// A text without the white space at both ends.
pub fn trim(text: &str) -> (r: String)
    ensures
        r@ == trimmed(text@),
{
    let c: Vec<char> = trim_chars(text);
    let n: usize = c.len();
    assert(c@.subrange(0, n as int) =~= c@);
    from_chars(&c, 0, n)
}

/// White space is what Unicode calls so: the five control characters from tab
/// to carriage return, the space, and the wide and narrow spaces outside ASCII.
pub proof fn law_which_characters_are_white(c: char)
    ensures
        is_white(c) <==> seq![
            0x9u32,
            0xa,
            0xb,
            0xc,
            0xd,
            0x20,
            0x85,
            0xa0,
            0x1680,
            0x2000,
            0x2001,
            0x2002,
            0x2003,
            0x2004,
            0x2005,
            0x2006,
            0x2007,
            0x2008,
            0x2009,
            0x200a,
            0x2028,
            0x2029,
            0x202f,
            0x205f,
            0x3000,
        ].contains(c as u32),
{
    let list = seq![
        0x9u32,
        0xa,
        0xb,
        0xc,
        0xd,
        0x20,
        0x85,
        0xa0,
        0x1680,
        0x2000,
        0x2001,
        0x2002,
        0x2003,
        0x2004,
        0x2005,
        0x2006,
        0x2007,
        0x2008,
        0x2009,
        0x200a,
        0x2028,
        0x2029,
        0x202f,
        0x205f,
        0x3000,
    ];
    let u = c as u32;
    if 0x9 <= u <= 0xd {
        assert(list[u - 0x9] == u);
    } else if 0x2000 <= u <= 0x200a {
        assert(list[9 + (u - 0x2000)] == u);
    } else if is_white(c) {
        assert(list[5] == 0x20 && list[6] == 0x85 && list[7] == 0xa0 && list[8] == 0x1680);
        assert(list[20] == 0x2028 && list[21] == 0x2029 && list[22] == 0x202f && list[23] == 0x205f
            && list[24] == 0x3000);
    }
}

proof fn lemma_skip_run(s: Seq<char>, from: int, to: int)
    requires
        0 <= from <= to <= s.len(),
        forall|i: int| from <= i < to ==> is_white(s[i]),
        to == s.len() || !is_white(s[to]),
    ensures
        skip_white(s, from) == to,
    decreases to - from,
{
    if from < to {
        lemma_skip_run(s, from + 1, to);
    }
}

proof fn lemma_end_run(s: Seq<char>, from: int, to: int)
    requires
        0 <= from <= to <= s.len(),
        forall|i: int| from <= i < to ==> is_white(s[i]),
        from == 0 || !is_white(s[from - 1]),
    ensures
        white_end(s, to) == from,
    decreases to - from,
{
    if from < to {
        lemma_end_run(s, from, to - 1);
    }
}

/// White space around a text goes, all of it and nothing else: what stands
/// between the first and the last character that is not white stays as it is.
pub proof fn law_only_white_ends_go(before: Seq<char>, body: Seq<char>, after: Seq<char>)
    requires
        forall|i: int| 0 <= i < before.len() ==> is_white(#[trigger] before[i]),
        forall|i: int| 0 <= i < after.len() ==> is_white(#[trigger] after[i]),
        body.len() > 0 ==> !is_white(body[0]) && !is_white(body.last()),
    ensures
        trimmed(before + body + after) == body,
{
    let s = before + body + after;
    if body.len() > 0 {
        assert(s[before.len() as int] == body[0]);
        assert(s[before.len() + body.len() - 1] == body.last());
        lemma_skip_run(s, 0, before.len() as int);
        lemma_end_run(s, (before.len() + body.len()) as int, s.len() as int);
        assert(s.subrange(before.len() as int, (before.len() + body.len()) as int) =~= body);
    } else {
        assert forall|i: int| 0 <= i < s.len() implies is_white(s[i]) by {
            if i < before.len() {
                assert(s[i] == before[i]);
            } else {
                assert(s[i] == after[i - before.len()]);
            }
        }
        lemma_skip_run(s, 0, s.len() as int);
        lemma_end_run(s, 0, s.len() as int);
        assert(trimmed(s) =~= body);
    }
}

} // verus!
