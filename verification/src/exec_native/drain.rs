//! Reading the output of an instance line by line.
use vstd::prelude::*;
use vstd::std_specs::iter::IteratorSpec;
use vstd::utf8::*;

use crate::text::{from_chars, lossy_text, to_chars, utf8_lossy};

verus! {

/// Most bytes of an unfinished line that are kept.
pub const LINE_MAX: usize = 65536;

/// A line without the carriage returns at its end.
pub open spec fn without_returns(line: Seq<char>) -> Seq<char>
    decreases line.len(),
{
    if line.len() > 0 && line.last() == '\r' {
        without_returns(line.drop_last())
    } else {
        line
    }
}

/// The unfinished line, and the lines that were finished.
pub struct Drained {
    pub pending: Seq<char>,
    pub lines: Seq<Seq<char>>,
}

/// One more character of output. Empty lines are left out.
pub open spec fn drain_char(d: Drained, c: char) -> Drained {
    if c == '\n' {
        let line = without_returns(d.pending);
        Drained {
            pending: Seq::empty(),
            lines: if line.len() > 0 {
                d.lines.push(line)
            } else {
                d.lines
            },
        }
    } else {
        Drained { pending: d.pending.push(c), lines: d.lines }
    }
}

/// More output.
pub open spec fn drain_text(d: Drained, text: Seq<char>) -> Drained
    decreases text.len(),
{
    if text.len() == 0 {
        d
    } else {
        drain_char(drain_text(d, text.drop_last()), text.last())
    }
}

/// Where the longest end of `line` starts that has at most `LINE_MAX` bytes.
pub open spec fn kept_from(line: Seq<char>, from: int) -> int
    decreases line.len() - from,
{
    if from < 0 || from >= line.len() || encode_utf8(line.skip(from)).len() <= LINE_MAX {
        from
    } else {
        kept_from(line, from + 1)
    }
}

/// What is kept of an unfinished line: the end of it.
pub open spec fn kept(line: Seq<char>) -> Seq<char> {
    line.skip(kept_from(line, 0))
}

/// It makes no difference where output is cut into pieces: the same lines come
/// out of two pieces as of both together.
pub proof fn law_pieces_join(d: Drained, a: Seq<char>, b: Seq<char>)
    ensures
        drain_text(d, a + b) == drain_text(drain_text(d, a), b),
    decreases b.len(),
{
    if b.len() == 0 {
        assert(a + b =~= a);
    } else {
        law_pieces_join(d, a, b.drop_last());
        assert((a + b).drop_last() =~= a + b.drop_last());
        assert((a + b).last() == b.last());
    }
}

proof fn lemma_kept_in_range(line: Seq<char>, from: int)
    requires
        0 <= from <= line.len(),
    ensures
        from <= kept_from(line, from) <= line.len(),
        encode_utf8(line.skip(kept_from(line, from))).len() <= LINE_MAX,
    decreases line.len() - from,
{
    if from == line.len() {
        assert(line.skip(from) =~= Seq::<char>::empty());
    } else if encode_utf8(line.skip(from)).len() > LINE_MAX {
        lemma_kept_in_range(line, from + 1);
    }
}

/// What is kept of a line never exceeds the limit, and a line within the limit
/// is kept whole.
pub proof fn law_kept_is_bounded(line: Seq<char>)
    ensures
        encode_utf8(kept(line)).len() <= LINE_MAX,
        encode_utf8(line).len() <= LINE_MAX ==> kept(line) == line,
{
    lemma_kept_in_range(line, 0);
    assert(line.skip(0) =~= line);
}

/// The texts of a list of strings.
pub open spec fn texts(lines: Seq<String>) -> Seq<Seq<char>> {
    lines.map_values(|s: String| s@)
}

/// Cuts the output of an instance into lines.
pub struct LineDrain {
    pending: Vec<char>,
}

impl LineDrain {
    /// The unfinished line.
    pub closed spec fn pending(&self) -> Seq<char> {
        self.pending@
    }

    pub fn new() -> (r: LineDrain)
        ensures
            r.pending() == Seq::<char>::empty(),
    {
        LineDrain { pending: Vec::new() }
    }

    /// Takes in what was read and gives the lines that are finished by it.
    pub fn feed(&mut self, chunk: &[u8]) -> (lines: Vec<String>)
        ensures
            ({
                let d = drain_text(
                    Drained { pending: old(self).pending(), lines: Seq::empty() },
                    lossy_text(chunk@),
                );
                &&& texts(lines@) == d.lines
                &&& final(self).pending() == kept(d.pending)
            }),
    {
        let text: String = utf8_lossy(chunk);
        self.feed_text(text.as_str())
    }

    /// Takes in text and gives the lines that are finished by it.
    pub fn feed_text(&mut self, text: &str) -> (lines: Vec<String>)
        ensures
            ({
                let d = drain_text(
                    Drained { pending: old(self).pending(), lines: Seq::empty() },
                    text@,
                );
                &&& texts(lines@) == d.lines
                &&& final(self).pending() == kept(d.pending)
            }),
    {
        let ghost start = Drained { pending: self.pending@, lines: Seq::empty() };
        let mut lines: Vec<String> = Vec::new();
        assert(texts(lines@) =~= start.lines);
        for c in it: text.chars()
            invariant
                it.seq() == text@,
                drain_text(start, text@.take(it.index() as int)) == (Drained {
                    pending: self.pending@,
                    lines: texts(lines@),
                }),
        {
            let ghost k: int = it.index() as int;
            let ghost before = lines@;
            assert(text@.take(k + 1).drop_last() =~= text@.take(k));
            if c == '\n' {
                let end: usize = line_end(&self.pending);
                if end > 0 {
                    let line: String = from_chars(&self.pending, 0, end);
                    assert(line@ =~= self.pending@.take(end as int));
                    lines.push(line);
                    assert(texts(lines@) =~= texts(before).push(line@));
                }
                self.pending = Vec::new();
            } else {
                self.pending.push(c);
            }
        }
        assert(text@.take(text@.len() as int) =~= text@);
        self.trim();
        lines
    }

    fn trim(&mut self)
        ensures
            final(self).pending() == kept(old(self).pending()),
    {
        let total: String = from_chars(&self.pending, 0, self.pending.len());
        assert(total@ =~= self.pending@);
        let ghost line = self.pending@;
        let mut bytes: usize = total.as_str().as_bytes().len();
        let n: usize = self.pending.len();
        let mut from: usize = 0;
        assert(line.skip(0) =~= line);
        while bytes > LINE_MAX
            invariant
                line == self.pending@,
                n == line.len(),
                0 <= from <= n,
                bytes == encode_utf8(line.skip(from as int)).len(),
                kept_from(line, from as int) == kept_from(line, 0),
            decreases line.len() - from,
        {
            proof {
                if from == line.len() {
                    assert(line.skip(from as int) =~= Seq::<char>::empty());
                }
                assert(line.skip(from as int).drop_first() =~= line.skip(from + 1));
            }
            bytes = bytes - width(self.pending[from]);
            from += 1;
        }
        if from > 0 {
            let rest: String = from_chars(&self.pending, from, self.pending.len());
            assert(rest@ =~= line.skip(from as int));
            self.pending = to_chars(rest.as_str());
        }
    }
}

/// Bytes that a character takes in UTF-8.
fn width(c: char) -> (n: usize)
    ensures
        n == encode_scalar(c as u32).len(),
{
    let u: u32 = c as u32;
    if u <= 0x7f {
        1
    } else if u <= 0x7ff {
        2
    } else if u <= 0xffff {
        3
    } else {
        4
    }
}

/// Where a line ends without its carriage returns.
fn line_end(line: &Vec<char>) -> (end: usize)
    ensures
        end <= line@.len(),
        line@.take(end as int) == without_returns(line@),
{
    let mut end: usize = line.len();
    assert(line@.take(end as int) =~= line@);
    while end > 0 && line[end - 1] == '\r'
        invariant
            end <= line@.len(),
            without_returns(line@.take(end as int)) == without_returns(line@),
        decreases end,
    {
        assert(line@.take(end as int).drop_last() =~= line@.take(end - 1));
        end -= 1;
    }
    end
}

} // verus!
