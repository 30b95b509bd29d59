//! Control events that the host writes to an application, one JSON line each.
//!
//! ```text
//! {"event":"touch","phase":"down","x":123,"y":456,"t":139333571}
//! {"event":"ping"}
//! {"event":"shutdown"}
//! ```
//!
//! A line that cannot be read with certainty is no event.
use vstd::prelude::*;

use crate::text::{digits_value, from_chars, is_digit, is_digits, parse_digits, str_eq, to_chars};
use crate::trim::{after_white, skip_white, trim_chars, trimmed};

verus! {

/// Phase of a touch.
#[derive(Debug, Clone, Copy, PartialEq, Eq, Structural)]
pub enum Phase {
    Down,
    Move,
    Up,
}

/// A touch, in pixels of the frame buffer.
#[derive(Debug, Clone, Copy, PartialEq, Eq)]
pub struct Touch {
    pub phase: Phase,
    pub x: u32,
    pub y: u32,
    /// Monotonic milliseconds of the host, if it sent them.
    pub t: Option<u64>,
}

/// A control event.
#[derive(Debug, Clone, Copy, PartialEq, Eq)]
pub enum Event {
    Touch(Touch),
    Ping,
    Shutdown,
}

/// The first place of `c` from `from` on.
pub open spec fn find_char(s: Seq<char>, c: char, from: int) -> Option<int>
    decreases s.len() - from,
{
    if from < 0 || from >= s.len() {
        None
    } else if s[from] == c {
        Some(from)
    } else {
        find_char(s, c, from + 1)
    }
}

/// A key with its quotes.
pub open spec fn quoted(key: Seq<char>) -> Seq<char> {
    seq!['"'] + key + seq!['"']
}

/// The quoted key stands at `at` as a key: after an opening brace, a comma or
/// nothing, and before a colon or a quote.
pub open spec fn key_at(line: Seq<char>, q: Seq<char>, at: int) -> bool {
    &&& 0 <= at
    &&& at + q.len() < line.len()
    &&& line.subrange(at, at + q.len()) == q
    &&& at == 0 || line[at - 1] == ',' || line[at - 1] == '{'
    &&& line[at + q.len()] == ':' || line[at + q.len()] == '"'
}

/// The first place from `from` on where the quoted key stands as a key.
pub open spec fn find_key_from(line: Seq<char>, q: Seq<char>, from: int) -> Option<int>
    decreases line.len() - from,
{
    if from < 0 || from >= line.len() {
        None
    } else if key_at(line, q, from) {
        Some(from)
    } else {
        find_key_from(line, q, from + 1)
    }
}

/// Where the value of a key starts: behind the first colon that follows the
/// key, and behind the white space there.
pub open spec fn value_start(line: Seq<char>, key: Seq<char>) -> Option<int> {
    match find_key_from(line, quoted(key), 0) {
        Some(at) => match find_char(line, ':', at) {
            Some(colon) => Some(skip_white(line, colon + 1)),
            None => None,
        },
        None => None,
    }
}

/// The text value of a key, up to the next quote.
pub open spec fn text_field(line: Seq<char>, key: Seq<char>) -> Option<Seq<char>> {
    match value_start(line, key) {
        Some(v) => if v < line.len() && line[v] == '"' {
            match find_char(line, '"', v + 1) {
                Some(end) => Some(line.subrange(v + 1, end)),
                None => None,
            }
        } else {
            None
        },
        None => None,
    }
}

/// Where the digits that start at `from` end.
pub open spec fn digits_end(s: Seq<char>, from: int) -> int
    decreases s.len() - from,
{
    if 0 <= from < s.len() && is_digit(s[from]) {
        digits_end(s, from + 1)
    } else {
        from
    }
}

/// From `at` on a field ends: white space, then a comma or the closing brace.
pub open spec fn field_ends(line: Seq<char>, at: int) -> bool {
    let next = skip_white(line, at);
    0 <= next < line.len() && (line[next] == ',' || line[next] == '}')
}

/// The decimal value of a key, if it fits 64 bits and is all that the field
/// holds.
pub open spec fn number_field(line: Seq<char>, key: Seq<char>) -> Option<u64> {
    match value_start(line, key) {
        Some(v) => {
            let end = digits_end(line, v);
            let digits = line.subrange(v, end);
            if digits.len() > 0 && digits_value(digits) <= u64::MAX && field_ends(line, end) {
                Some(digits_value(digits) as u64)
            } else {
                None
            }
        },
        None => None,
    }
}

/// The phase with the name.
pub open spec fn phase_of(name: Seq<char>) -> Option<Phase> {
    if name == "down"@ {
        Some(Phase::Down)
    } else if name == "move"@ {
        Some(Phase::Move)
    } else if name == "up"@ {
        Some(Phase::Up)
    } else {
        None
    }
}

/// The touch that a line describes. A time that cannot be read counts as not
/// sent.
pub open spec fn touch_of(line: Seq<char>) -> Option<Event> {
    match (text_field(line, "phase"@), number_field(line, "x"@), number_field(line, "y"@)) {
        (Some(name), Some(x), Some(y)) => match phase_of(name) {
            Some(phase) => if x <= u32::MAX && y <= u32::MAX {
                Some(
                    Event::Touch(
                        Touch { phase, x: x as u32, y: y as u32, t: number_field(line, "t"@) },
                    ),
                )
            } else {
                None
            },
            None => None,
        },
        _ => None,
    }
}

/// The event that a line describes.
pub open spec fn event_of(text: Seq<char>) -> Option<Event> {
    let line = trimmed(text);
    if line.len() == 0 || line[0] != '{' {
        None
    } else {
        match text_field(line, "event"@) {
            Some(name) => if name == "touch"@ {
                touch_of(line)
            } else if name == "ping"@ {
                Some(Event::Ping)
            } else if name == "shutdown"@ {
                Some(Event::Shutdown)
            } else {
                None
            },
            None => None,
        }
    }
}

fn find(s: &Vec<char>, c: char, from: usize) -> (r: Option<usize>)
    ensures
        match (r, find_char(s@, c, from as int)) {
            (Some(a), Some(b)) => a == b && from <= a < s@.len(),
            (None, None) => true,
            _ => false,
        },
{
    let mut i: usize = from;
    while i < s.len()
        invariant
            from <= i,
            find_char(s@, c, i as int) == find_char(s@, c, from as int),
        decreases s@.len() - i,
    {
        if s[i] == c {
            return Some(i);
        }
        i += 1;
    }
    None
}

/// Whether the quoted key stands at `at` as a key.
fn is_key_at(line: &Vec<char>, key: &Vec<char>, at: usize) -> (r: bool)
    requires
        at < line@.len(),
    ensures
        r == key_at(line@, quoted(key@), at as int),
{
    let ghost q = quoted(key@);
    let n: usize = key.len();
    if line.len() - at < 3 || n > line.len() - at - 3 {
        return false;
    }
    if !(at == 0 || line[at - 1] == ',' || line[at - 1] == '{') {
        return false;
    }
    if !(line[at + n + 2] == ':' || line[at + n + 2] == '"') {
        return false;
    }
    let ghost part = line@.subrange(at as int, at + q.len());
    if line[at] != '"' || line[at + n + 1] != '"' {
        proof {
            assert(part[0] == line@[at as int] && q[0] == '"');
            assert(part[n + 1] == line@[at + n + 1] && q[n + 1] == '"');
        }
        return false;
    }
    let mut i: usize = 0;
    while i < n
        invariant
            i <= n,
            n == key@.len(),
            at + n + 2 < line.len(),
            q == quoted(key@),
            part == line@.subrange(at as int, at + q.len()),
            forall|k: int| 0 <= k < i ==> line@[at + 1 + k] == #[trigger] key@[k],
        decreases n - i,
    {
        if line[at + 1 + i] != key[i] {
            assert(part[1 + i] == line@[at + 1 + i] && q[1 + i] == key@[i as int]);
            return false;
        }
        i += 1;
    }
    assert(part =~= q) by {
        assert forall|k: int| 0 <= k < q.len() implies part[k] == q[k] by {
            if 0 < k <= n {
                assert(q[k] == key@[k - 1]);
            }
        }
    }
    true
}

fn find_value(line: &Vec<char>, key: &str) -> (r: Option<usize>)
    ensures
        match (r, value_start(line@, key@)) {
            (Some(a), Some(b)) => a == b && a <= line@.len(),
            (None, None) => true,
            _ => false,
        },
{
    let k: Vec<char> = to_chars(key);
    let ghost q = quoted(key@);
    let mut at: usize = 0;
    while at < line.len()
        invariant
            k@ == key@,
            q == quoted(key@),
            find_key_from(line@, q, at as int) == find_key_from(line@, q, 0),
        decreases line@.len() - at,
    {
        if is_key_at(line, &k, at) {
            return match find(line, ':', at) {
                Some(colon) => Some(after_white(line, colon + 1)),
                None => None,
            };
        }
        at += 1;
    }
    None
}

fn field_str(line: &Vec<char>, key: &str) -> (r: Option<String>)
    ensures
        match (r, text_field(line@, key@)) {
            (Some(a), Some(b)) => a@ == b,
            (None, None) => true,
            _ => false,
        },
{
    let v: usize = match find_value(line, key) {
        Some(v) => v,
        None => {
            return None;
        },
    };
    if v >= line.len() || line[v] != '"' {
        return None;
    }
    match find(line, '"', v + 1) {
        Some(end) => Some(from_chars(line, v + 1, end)),
        None => None,
    }
}

proof fn lemma_digits_run(s: Seq<char>, from: int)
    requires
        0 <= from <= s.len(),
    ensures
        from <= digits_end(s, from) <= s.len(),
        forall|k: int| from <= k < digits_end(s, from) ==> is_digit(#[trigger] s[k]),
    decreases s.len() - from,
{
    if from < s.len() && is_digit(s[from]) {
        lemma_digits_run(s, from + 1);
    }
}

fn field_u64(line: &Vec<char>, key: &str) -> (r: Option<u64>)
    ensures
        r == number_field(line@, key@),
{
    let v: usize = match find_value(line, key) {
        Some(v) => v,
        None => {
            return None;
        },
    };
    let mut end: usize = v;
    while end < line.len() && '0' <= line[end] && line[end] <= '9'
        invariant
            v <= end <= line@.len(),
            digits_end(line@, end as int) == digits_end(line@, v as int),
        decreases line@.len() - end,
    {
        end += 1;
    }
    proof {
        lemma_digits_run(line@, v as int);
        let d = line@.subrange(v as int, end as int);
        assert(d.len() > 0 ==> is_digits(d));
    }
    let next: usize = after_white(line, end);
    if next >= line.len() || !(line[next] == ',' || line[next] == '}') {
        return None;
    }
    parse_digits(line, v, end, u64::MAX)
}

/// Reads a control line. `None` is a line that is unknown or damaged.
pub fn parse_line(line: &str) -> (r: Option<Event>)
    ensures
        r == event_of(line@),
{
    let line: Vec<char> = trim_chars(line);
    if line.len() == 0 || line[0] != '{' {
        return None;
    }
    let name: String = match field_str(&line, "event") {
        Some(name) => name,
        None => {
            return None;
        },
    };
    if str_eq(name.as_str(), "touch") {
        parse_touch(&line)
    } else if str_eq(name.as_str(), "ping") {
        Some(Event::Ping)
    } else if str_eq(name.as_str(), "shutdown") {
        Some(Event::Shutdown)
    } else {
        None
    }
}

fn parse_touch(line: &Vec<char>) -> (r: Option<Event>)
    ensures
        r == touch_of(line@),
{
    let name: String = match field_str(line, "phase") {
        Some(name) => name,
        None => {
            return None;
        },
    };
    let phase: Phase = if str_eq(name.as_str(), "down") {
        Phase::Down
    } else if str_eq(name.as_str(), "move") {
        Phase::Move
    } else if str_eq(name.as_str(), "up") {
        Phase::Up
    } else {
        return None;
    };
    match (field_u64(line, "x"), field_u64(line, "y")) {
        (Some(x), Some(y)) => {
            if x > u32::MAX as u64 || y > u32::MAX as u64 {
                return None;
            }
            Some(
                Event::Touch(
                    Touch { phase, x: x as u32, y: y as u32, t: field_u64(line, "t") },
                ),
            )
        },
        _ => None,
    }
}

} // verus!
