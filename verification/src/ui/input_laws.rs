//! What the host writes, the application reads.
use vstd::prelude::*;

use crate::text::{dec_text, digits_value, is_digit, lemma_dec_text_value};
use crate::ui::input::{
    digits_end, event_of, find_char, find_key_from, key_at, number_field, phase_of, quoted,
    text_field, touch_of, value_start, Event, Phase, Touch,
};
use crate::trim::{is_white, skip_white, trimmed, white_end};

verus! {

/// The name of a phase.
pub open spec fn phase_name(phase: Phase) -> Seq<char> {
    match phase {
        Phase::Down => "down"@,
        Phase::Move => "move"@,
        Phase::Up => "up"@,
    }
}

/// The end of a touch line: the time, if there is one, and the closing brace.
pub open spec fn line_tail(t: Option<u64>) -> Seq<char> {
    match t {
        Some(t) => ",\"t\":"@ + dec_text(t as nat) + "}"@,
        None => "}"@,
    }
}

/// A touch line with these coordinates, which need not fit.
pub open spec fn touch_text(phase: Phase, x: nat, y: nat, t: Option<u64>) -> Seq<char> {
    "{\"event\":\"touch\",\"phase\":\""@ + phase_name(phase) + "\",\"x\":"@ + dec_text(x)
        + ",\"y\":"@ + dec_text(y) + line_tail(t)
}

/// The line of a touch.
pub open spec fn touch_line(touch: Touch) -> Seq<char> {
    touch_text(touch.phase, touch.x as nat, touch.y as nat, touch.t)
}

proof fn lemma_find_char(s: Seq<char>, c: char, from: int, at: int)
    requires
        0 <= from <= at < s.len(),
        s[at] == c,
        forall|k: int| from <= k < at ==> s[k] != c,
    ensures
        find_char(s, c, from) == Some(at),
    decreases at - from,
{
    if from < at {
        lemma_find_char(s, c, from + 1, at);
    }
}

proof fn lemma_find_key(line: Seq<char>, q: Seq<char>, from: int, at: int)
    requires
        0 <= from <= at,
        key_at(line, q, at),
        forall|k: int| from <= k < at ==> !key_at(line, q, k),
    ensures
        find_key_from(line, q, from) == Some(at),
    decreases at - from,
{
    if from < at {
        lemma_find_key(line, q, from + 1, at);
    }
}

proof fn lemma_no_key(line: Seq<char>, q: Seq<char>, from: int)
    requires
        0 <= from,
        forall|k: int| from <= k < line.len() ==> !key_at(line, q, k),
    ensures
        find_key_from(line, q, from) is None,
    decreases line.len() - from,
{
    if from < line.len() {
        lemma_no_key(line, q, from + 1);
    }
}

proof fn lemma_digits_end(s: Seq<char>, from: int, to: int)
    requires
        0 <= from <= to <= s.len(),
        forall|k: int| from <= k < to ==> is_digit(#[trigger] s[k]),
        to == s.len() || !is_digit(s[to]),
    ensures
        digits_end(s, from) == to,
    decreases to - from,
{
    if from < to {
        lemma_digits_end(s, from + 1, to);
    }
}

/// `k` is where a quote stands behind an opening brace or a comma.
spec fn key_start(line: Seq<char>, k: int) -> bool {
    0 < k < line.len() && line[k] == '"' && (line[k - 1] == ',' || line[k - 1] == '{')
}

proof fn lemma_key_needs_start(line: Seq<char>, key: Seq<char>, k: int)
    requires
        key_at(line, quoted(key), k),
        line.len() > 0,
        line[0] == '{',
        key.len() > 0,
    ensures
        key_start(line, k),
        line[k + 1] == key[0],
{
    let q = quoted(key);
    let part = line.subrange(k, k + q.len());
    assert(q[0] == '"' && q[1] == key[0]);
    assert(part[0] == line[k] && part[1] == line[k + 1]);
}

/// A decimal value behind a key of one letter.
proof fn lemma_number(line: Seq<char>, c: char, at: int, n: nat)
    requires
        line.len() > 0,
        line[0] == '{',
        key_start(line, at),
        forall|k: int| #[trigger] key_start(line, k) && k < at ==> line[k + 1] != c,
        at + 4 + dec_text(n).len() < line.len(),
        line[at + 1] == c,
        c != ':',
        line[at + 2] == '"',
        line[at + 3] == ':',
        forall|k: int| 0 <= k < dec_text(n).len() ==> line[at + 4 + k] == #[trigger] dec_text(n)[k],
        line[at + 4 + dec_text(n).len()] == ',' || line[at + 4 + dec_text(n).len()] == '}',
    ensures
        number_field(line, seq![c]) == (if n <= u64::MAX {
            Some(n as u64)
        } else {
            None
        }),
{
    let q = quoted(seq![c]);
    assert(q =~= seq!['"', c, '"']);
    assert(line.subrange(at, at + 3) =~= q);
    assert(key_at(line, q, at));
    assert forall|k: int| 0 <= k < at implies !key_at(line, q, k) by {
        if key_at(line, q, k) {
            lemma_key_needs_start(line, seq![c], k);
        }
    }
    lemma_find_key(line, q, 0, at);
    lemma_find_char(line, ':', at, at + 3);
    let d = dec_text(n);
    lemma_dec_text_value(n);
    assert(line[at + 4 + 0] == d[0]);
    assert(is_digit(d[0]));
    assert(value_start(line, seq![c]) == Some(at + 4));
    assert forall|k: int| at + 4 <= k < at + 4 + d.len() implies is_digit(#[trigger] line[k]) by {
        assert(line[at + 4 + (k - at - 4)] == d[k - at - 4]);
    }
    lemma_digits_end(line, at + 4, at + 4 + d.len());
    assert(line.subrange(at + 4, at + 4 + d.len()) =~= d) by {
        assert forall|k: int| 0 <= k < d.len() implies line.subrange(at + 4, at + 4 + d.len())[k]
            == d[k] by {
            assert(line[at + 4 + k] == d[k]);
        }
    }
}

/// A text value directly behind its key.
proof fn lemma_text(line: Seq<char>, key: Seq<char>, at: int, value: Seq<char>)
    requires
        line.len() > 0,
        line[0] == '{',
        key.len() > 0,
        key_start(line, at),
        forall|k: int| #[trigger] key_start(line, k) && k < at ==> line[k + 1] != key[0],
        line.subrange(at, at + key.len() + 2) == quoted(key),
        forall|k: int| 0 <= k < key.len() ==> key[k] != ':',
        at + key.len() + 4 + value.len() < line.len(),
        line[at + key.len() + 2] == ':',
        line[at + key.len() + 3] == '"',
        line.subrange(at + key.len() + 4, at + key.len() + 4 + value.len()) == value,
        forall|k: int| 0 <= k < value.len() ==> value[k] != '"',
        line[at + key.len() + 4 + value.len()] == '"',
    ensures
        text_field(line, key) == Some(value),
{
    let q = quoted(key);
    let n = key.len() as int;
    assert(key_at(line, q, at));
    assert forall|k: int| 0 <= k < at implies !key_at(line, q, k) by {
        if key_at(line, q, k) {
            lemma_key_needs_start(line, key, k);
        }
    }
    lemma_find_key(line, q, 0, at);
    assert forall|k: int| at <= k < at + n + 2 implies line[k] != ':' by {
        assert(line.subrange(at, at + n + 2)[k - at] == q[k - at]);
        if 0 < k - at <= n {
            assert(q[k - at] == key[k - at - 1]);
        }
    }
    lemma_find_char(line, ':', at, at + n + 2);
    assert(value_start(line, key) == Some(at + n + 3));
    let from = at + n + 4;
    assert forall|k: int| from <= k < from + value.len() implies line[k] != '"' by {
        assert(line.subrange(from, from + value.len())[k - from] == value[k - from]);
    }
    lemma_find_char(line, '"', from, from + value.len());
}

proof fn lemma_trimmed(line: Seq<char>)
    requires
        line.len() > 0,
        !is_white(line[0]),
        !is_white(line.last()),
    ensures
        trimmed(line) == line,
{
    assert(skip_white(line, 0) == 0);
    assert(white_end(line, line.len() as int) == line.len());
    assert(line.subrange(0, line.len() as int) =~= line);
}

/// Where the white space from `from` on ends, if it ends at `to`.
proof fn lemma_skip_white(s: Seq<char>, from: int, to: int)
    requires
        0 <= from <= to <= s.len(),
        forall|k: int| from <= k < to ==> is_white(#[trigger] s[k]),
    ensures
        skip_white(s, from) == skip_white(s, to),
    decreases to - from,
{
    if from < to {
        lemma_skip_white(s, from + 1, to);
    }
}

proof fn lemma_white_end(s: Seq<char>, from: int, to: int)
    requires
        0 <= from <= to <= s.len(),
        forall|k: int| from <= k < to ==> is_white(#[trigger] s[k]),
    ensures
        white_end(s, to) == white_end(s, from),
    decreases to - from,
{
    if from < to {
        lemma_white_end(s, from, to - 1);
    }
}

/// Skipping white space in a text that stands inside another one.
proof fn lemma_skip_inside(s: Seq<char>, inner: Seq<char>, at: int, from: int)
    requires
        0 <= at,
        at + inner.len() <= s.len(),
        inner == s.subrange(at, at + inner.len()),
        0 <= from <= inner.len(),
    ensures
        from <= skip_white(inner, from) <= inner.len(),
        skip_white(inner, from) < inner.len() ==> skip_white(s, at + from) == at + skip_white(
            inner,
            from,
        ),
        skip_white(inner, from) == inner.len() ==> skip_white(s, at + from) == skip_white(
            s,
            at + inner.len(),
        ),
        forall|k: int| from <= k < skip_white(inner, from) ==> is_white(#[trigger] inner[k]),
    decreases inner.len() - from,
{
    if from < inner.len() {
        assert(inner[from] == s[at + from]);
        if is_white(inner[from]) {
            lemma_skip_inside(s, inner, at, from + 1);
        }
    }
}

proof fn lemma_end_inside(s: Seq<char>, inner: Seq<char>, at: int, to: int)
    requires
        0 <= at,
        at + inner.len() <= s.len(),
        inner == s.subrange(at, at + inner.len()),
        0 <= to <= inner.len(),
    ensures
        0 <= white_end(inner, to) <= to,
        white_end(inner, to) > 0 ==> white_end(s, at + to) == at + white_end(inner, to) && !is_white(
            inner[white_end(inner, to) - 1],
        ),
        white_end(inner, to) == 0 ==> white_end(s, at + to) == white_end(s, at),
    decreases to,
{
    if to > 0 {
        assert(inner[to - 1] == s[at + to - 1]);
        if is_white(inner[to - 1]) {
            lemma_end_inside(s, inner, at, to - 1);
        }
    }
}

proof fn lemma_trimmed_around(before: Seq<char>, line: Seq<char>, after: Seq<char>)
    requires
        forall|k: int| 0 <= k < before.len() ==> is_white(#[trigger] before[k]),
        forall|k: int| 0 <= k < after.len() ==> is_white(#[trigger] after[k]),
    ensures
        trimmed(before + line + after) == trimmed(line),
{
    let s = before + line + after;
    let n = before.len() as int;
    let m = n + line.len();
    assert(line =~= s.subrange(n, m));
    assert forall|k: int| 0 <= k < n implies is_white(#[trigger] s[k]) by {
        assert(s[k] == before[k]);
    }
    assert forall|k: int| m <= k < s.len() implies is_white(#[trigger] s[k]) by {
        assert(s[k] == after[k - m]);
    }
    lemma_skip_white(s, 0, n);
    lemma_skip_white(s, m, s.len() as int);
    lemma_white_end(s, 0, n);
    lemma_white_end(s, m, s.len() as int);
    lemma_skip_inside(s, line, n, 0);
    lemma_end_inside(s, line, n, line.len() as int);
    let lo = skip_white(line, 0);
    let hi = white_end(line, line.len() as int);
    if lo < hi {
        assert(s.subrange(n + lo, n + hi) =~= line.subrange(lo, hi));
    } else if lo < line.len() && hi > 0 {
        assert(is_white(line[hi - 1]));
    }
}

proof fn lemma_head()
    ensures
        ({
            let a = "{\"event\":\"touch\",\"phase\":\""@;
            &&& a.len() == 26
            &&& a[0] == '{'
            &&& forall|k: int| #[trigger] key_start(a, k) ==> k == 1 || k == 17
            &&& key_start(a, 1) && key_start(a, 17)
            &&& a[2] == 'e' && a[18] == 'p' && a[25] == '"' && a[24] == ':'
            &&& a.subrange(1, 8) == quoted("event"@)
            &&& a[8] == ':' && a[9] == '"' && a[15] == '"'
            &&& a.subrange(10, 15) == "touch"@
            &&& a.subrange(17, 24) == quoted("phase"@)
        }),
{
    reveal_strlit("{\"event\":\"touch\",\"phase\":\"");
    reveal_strlit("event");
    reveal_strlit("touch");
    reveal_strlit("phase");
    let a = "{\"event\":\"touch\",\"phase\":\""@;
    assert(a.subrange(1, 8) =~= quoted("event"@));
    assert(a.subrange(10, 15) =~= "touch"@);
    assert(a.subrange(17, 24) =~= quoted("phase"@));
}

proof fn lemma_phase_name(phase: Phase)
    ensures
        phase_of(phase_name(phase)) == Some(phase),
        phase_name(phase).len() > 0,
        forall|k: int|
            0 <= k < phase_name(phase).len() ==> phase_name(phase)[k] != '"' && phase_name(
                phase,
            )[k] != ',' && phase_name(phase)[k] != '{',
{
    reveal_strlit("down");
    reveal_strlit("move");
    reveal_strlit("up");
    assert("down"@[0] == 'd' && "move"@[0] == 'm' && "up"@[0] == 'u');
}

/// How a touch line is read.
#[verifier::rlimit(60)]
proof fn lemma_touch_text(phase: Phase, cx: nat, cy: nat, t: Option<u64>)
    ensures
        event_of(touch_text(phase, cx, cy, t)) == (if cx <= u32::MAX && cy
            <= u32::MAX {
            Some(Event::Touch(Touch { phase, x: cx as u32, y: cy as u32, t }))
        } else {
            None
        }),
{
    let a = "{\"event\":\"touch\",\"phase\":\""@;
    let name = phase_name(phase);
    let b = "\",\"x\":"@;
    let x = dec_text(cx);
    let c = ",\"y\":"@;
    let y = dec_text(cy);
    let tail = line_tail(t);
    let line = touch_text(phase, cx, cy, t);
    lemma_head();
    lemma_phase_name(phase);
    lemma_dec_text_value(cx);
    lemma_dec_text_value(cy);
    reveal_strlit("\",\"x\":");
    reveal_strlit(",\"y\":");
    reveal_strlit(",\"t\":");
    reveal_strlit("}");
    reveal_strlit("event");
    reveal_strlit("touch");
    reveal_strlit("phase");
    reveal_strlit("x");
    reveal_strlit("y");
    reveal_strlit("t");
    assert("x"@ =~= seq!['x']);
    assert("y"@ =~= seq!['y']);
    assert("t"@ =~= seq!['t']);
    let pb = 26 + name.len() as int;
    let px = pb + 6;
    let pc = px + x.len();
    let py = pc + 5;
    let pt = py + y.len();
    assert(line.len() == pt + tail.len());
    assert forall|k: int| 0 <= k < 26 implies line[k] == a[k] by {}
    assert forall|k: int| 26 <= k < pb implies line[k] == name[k - 26] by {}
    assert forall|k: int| pb <= k < px implies line[k] == b[k - pb] by {}
    assert forall|k: int| px <= k < pc implies line[k] == x[k - px] by {}
    assert forall|k: int| pc <= k < py implies line[k] == c[k - pc] by {}
    assert forall|k: int| py <= k < pt implies line[k] == y[k - py] by {}
    assert forall|k: int| pt <= k < line.len() implies line[k] == tail[k - pt] by {}
    assert(tail.last() == '}' && (tail[0] == ',' || tail[0] == '}'));
    match t {
        Some(t) => {
            lemma_dec_text_value(t as nat);
            assert forall|k: int| 0 <= k < dec_text(t as nat).len() implies tail[5 + k] == dec_text(
                t as nat,
            )[k] by {}
        },
        None => {},
    }
    assert forall|k: int| #[trigger] key_start(line, k) implies (k == 1 || k == 17 || k == pb + 2
        || k == pc + 1 || (t is Some && k == pt + 1)) by {
        if k < 26 {
            assert(key_start(a, k));
        } else if k < pb {
            assert(line[k] == name[k - 26]);
        } else if k == pb {
            assert(line[k - 1] == name[k - 1 - 26]);
        } else if k < px {
        } else if k < pc {
            assert(is_digit(x[k - px]));
        } else if k < py {
        } else if k < pt {
            assert(is_digit(y[k - py]));
        } else {
            match t {
                Some(t) => {
                    let d = dec_text(t as nat);
                    if 5 <= k - pt < 5 + d.len() {
                        assert(is_digit(d[k - pt - 5]));
                        assert(tail[5 + (k - pt - 5)] == d[k - pt - 5]);
                    }
                },
                None => {},
            }
        }
    }
    assert(key_start(line, 1)) by { assert(key_start(a, 1)); }
    assert(key_start(line, 17)) by { assert(key_start(a, 17)); }
    lemma_trimmed(line);
    assert(line.subrange(1, 8) =~= a.subrange(1, 8));
    assert(line.subrange(10, 15) =~= a.subrange(10, 15));
    lemma_text(line, "event"@, 1, "touch"@);
    assert(line.subrange(17, 24) =~= a.subrange(17, 24));
    assert(line.subrange(26, pb) =~= name);
    lemma_text(line, "phase"@, 17, name);
    lemma_number(line, 'x', pb + 2, cx);
    lemma_number(line, 'y', pc + 1, cy);
    match t {
        Some(t) => {
            let d = dec_text(t as nat);
            assert forall|k: int| 0 <= k < d.len() implies line[pt + 1 + 4 + k]
                == #[trigger] d[k] by {
                assert(tail[5 + k] == d[k]);
            }
            lemma_number(line, 't', pt + 1, t as nat);
        },
        None => {
            let q = quoted(seq!['t']);
            assert forall|k: int| 0 <= k < line.len() implies !key_at(line, q, k) by {
                if key_at(line, q, k) {
                    lemma_key_needs_start(line, seq!['t'], k);
                }
            }
            lemma_no_key(line, q, 0);
        },
    }
    assert(touch_of(line) == event_of(line));
}

/// The line of a touch is read as that touch.
pub proof fn law_touch_line_is_read_back(touch: Touch)
    ensures
        event_of(touch_line(touch)) == Some(Event::Touch(touch)),
{
    lemma_touch_text(touch.phase, touch.x as nat, touch.y as nat, touch.t);
}

/// A touch line with a coordinate that does not fit 32 bits is no event.
pub proof fn law_large_coordinate_is_no_event(phase: Phase, x: nat, y: nat, t: Option<u64>)
    requires
        x > u32::MAX || y > u32::MAX,
    ensures
        event_of(touch_text(phase, x, y, t)) is None,
{
    lemma_touch_text(phase, x, y, t);
}

/// White space around a line changes nothing.
pub proof fn law_white_around_changes_nothing(
    before: Seq<char>,
    line: Seq<char>,
    after: Seq<char>,
)
    requires
        forall|k: int| 0 <= k < before.len() ==> is_white(#[trigger] before[k]),
        forall|k: int| 0 <= k < after.len() ==> is_white(#[trigger] after[k]),
    ensures
        event_of(before + line + after) == event_of(line),
{
    lemma_trimmed_around(before, line, after);
}

/// The key stands at a place as a key: between two quotes, behind nothing, an
/// opening brace or a comma, and before a colon or a quote.
pub open spec fn stands_as_key(line: Seq<char>, key: Seq<char>, at: int) -> bool {
    &&& 0 <= at
    &&& at + key.len() + 2 < line.len()
    &&& line[at] == '"'
    &&& line.subrange(at + 1, at + 1 + key.len()) == key
    &&& line[at + 1 + key.len()] == '"'
    &&& at == 0 || line[at - 1] == '{' || line[at - 1] == ','
    &&& line[at + 2 + key.len()] == ':' || line[at + 2 + key.len()] == '"'
}

proof fn lemma_stands(line: Seq<char>, key: Seq<char>, at: int)
    ensures
        stands_as_key(line, key, at) <==> key_at(line, quoted(key), at),
{
    let q = quoted(key);
    assert(q.len() == key.len() + 2);
    if 0 <= at && at + q.len() < line.len() {
        let part = line.subrange(at, at + q.len());
        if key_at(line, q, at) {
            assert(part[0] == q[0]);
            assert(part[1 + key.len() as int] == q[1 + key.len() as int]);
            assert(line.subrange(at + 1, at + 1 + key.len()) =~= q.subrange(
                1,
                1 + key.len() as int,
            )) by {
                assert(part.subrange(1, 1 + key.len() as int) =~= line.subrange(
                    at + 1,
                    at + 1 + key.len(),
                ));
            }
            assert(q.subrange(1, 1 + key.len() as int) =~= key);
        }
        if stands_as_key(line, key, at) {
            assert forall|k: int| 0 <= k < q.len() implies part[k] == q[k] by {
                if 1 <= k <= key.len() {
                    assert(line.subrange(at + 1, at + 1 + key.len())[k - 1] == key[k - 1]);
                }
            }
            assert(part =~= q);
        }
    }
}

proof fn lemma_found_char(s: Seq<char>, c: char, from: int)
    requires
        0 <= from,
    ensures
        match find_char(s, c, from) {
            Some(at) => from <= at < s.len() && s[at] == c && forall|k: int|
                from <= k < at ==> s[k] != c,
            None => forall|k: int| from <= k < s.len() ==> s[k] != c,
        },
    decreases s.len() - from,
{
    if from < s.len() && s[from] != c {
        lemma_found_char(s, c, from + 1);
    }
}

proof fn lemma_found_key(line: Seq<char>, q: Seq<char>, from: int)
    requires
        0 <= from,
    ensures
        match find_key_from(line, q, from) {
            Some(at) => from <= at < line.len() && key_at(line, q, at) && forall|k: int|
                from <= k < at ==> !key_at(line, q, k),
            None => forall|k: int| from <= k < line.len() ==> !key_at(line, q, k),
        },
    decreases line.len() - from,
{
    if from < line.len() && !key_at(line, q, from) {
        lemma_found_key(line, q, from + 1);
    }
}

/// The value of a key starts behind the first colon that follows the first
/// place where the key stands as one, and behind the white space there. A key
/// that stands nowhere, or has no colon behind it, has no value.
pub proof fn law_value_follows_the_colon(
    line: Seq<char>,
    key: Seq<char>,
    at: int,
    colon: int,
    v: int,
)
    requires
        stands_as_key(line, key, at),
        forall|k: int| 0 <= k < at ==> !(#[trigger] stands_as_key(line, key, k)),
        at <= colon < line.len(),
        line[colon] == ':',
        forall|k: int| at <= k < colon ==> line[k] != ':',
        colon < v <= line.len(),
        forall|k: int| colon < k < v ==> is_white(line[k]),
        v == line.len() || !is_white(line[v]),
    ensures
        value_start(line, key) == Some(v),
{
    lemma_stands(line, key, at);
    assert forall|k: int| 0 <= k < at implies !key_at(line, quoted(key), k) by {
        lemma_stands(line, key, k);
        assert(!stands_as_key(line, key, k));
    }
    lemma_find_key(line, quoted(key), 0, at);
    lemma_find_char(line, ':', at, colon);
    lemma_skip_white(line, colon + 1, v);
}

/// A key that does not stand as one, or that no colon follows, has no value.
pub proof fn law_no_key_no_value(line: Seq<char>, key: Seq<char>, at: int)
    requires
        (forall|k: int| !(#[trigger] stands_as_key(line, key, k))) || (stands_as_key(line, key, at)
            && (forall|k: int| 0 <= k < at ==> !(#[trigger] stands_as_key(line, key, k)))
            && forall|k: int| at <= k < line.len() ==> line[k] != ':'),
    ensures
        value_start(line, key) is None,
        text_field(line, key) is None,
        number_field(line, key) is None,
{
    lemma_found_key(line, quoted(key), 0);
    if find_key_from(line, quoted(key), 0) is Some {
        let found = find_key_from(line, quoted(key), 0)->0;
        lemma_stands(line, key, found);
        assert(stands_as_key(line, key, found));
        lemma_stands(line, key, at);
        assert(found == at);
        lemma_found_char(line, ':', at);
    }
}

/// A text value goes from its opening quote to the next one; a value that does
/// not begin with a quote, or has no second one, is no text.
pub proof fn law_text_goes_from_quote_to_quote(line: Seq<char>, key: Seq<char>, v: int, end: int)
    requires
        value_start(line, key) == Some(v),
        0 <= v,
    ensures
        v >= line.len() || line[v] != '"' ==> text_field(line, key) is None,
        v < end < line.len() && line[v] == '"' && line[end] == '"' && (forall|k: int|
            v < k < end ==> line[k] != '"') ==> text_field(line, key) == Some(
            line.subrange(v + 1, end),
        ),
        (forall|k: int| v < k < line.len() ==> line[k] != '"') ==> text_field(line, key) is None,
{
    lemma_found_char(line, '"', v + 1);
    if v < end < line.len() && line[end] == '"' && forall|k: int| v < k < end ==> line[k] != '"' {
        lemma_find_char(line, '"', v + 1, end);
    }
}

/// A number value is the run of digits at its start, if there is one, it fits 64
/// bits, and nothing but white space stands between it and the comma or the
/// brace that ends the field.
pub proof fn law_number_fills_its_field(
    line: Seq<char>,
    key: Seq<char>,
    v: int,
    end: int,
    stop: int,
)
    requires
        value_start(line, key) == Some(v),
        0 <= v <= end <= stop <= line.len(),
        forall|k: int| v <= k < end ==> '0' <= #[trigger] line[k] && line[k] <= '9',
        end == line.len() || !('0' <= line[end] && line[end] <= '9'),
        forall|k: int| end <= k < stop ==> is_white(line[k]),
        stop == line.len() || !is_white(line[stop]),
    ensures
        number_field(line, key) is Some <==> v < end && digits_value(line.subrange(v, end))
            <= 18446744073709551615 && stop < line.len() && (line[stop] == ',' || line[stop]
            == '}'),
        number_field(line, key) matches Some(n) ==> n == digits_value(line.subrange(v, end)),
{
    assert forall|k: int| v <= k < end implies is_digit(#[trigger] line[k]) by {}
    lemma_digits_end(line, v, end);
    lemma_skip_white(line, end, stop);
}

/// Which event a line describes: a ping or a shutdown by its name alone, a touch
/// with its phase and both coordinates. A line that does not begin with a brace,
/// or names another event, describes none.
pub proof fn law_name_makes_the_event(line: Seq<char>)
    requires
        trimmed(line) == line,
    ensures
        line.len() == 0 || line[0] != '{' ==> event_of(line) is None,
        line.len() > 0 && line[0] == '{' ==> {
            let name = text_field(line, "event"@);
            &&& name == Some("ping"@) ==> event_of(line) == Some(Event::Ping)
            &&& name == Some("shutdown"@) ==> event_of(line) == Some(Event::Shutdown)
            &&& name != Some("ping"@) && name != Some("shutdown"@) && name != Some("touch"@)
                ==> event_of(line) is None
            &&& name == Some("touch"@) ==> event_of(line) == touch_of(line)
        },
{
    reveal_strlit("ping");
    reveal_strlit("shutdown");
    reveal_strlit("touch");
    assert("ping"@.len() == 4 && "shutdown"@.len() == 8 && "touch"@.len() == 5);
}

/// A touch has the phase with the name that the line gives, the coordinates as
/// they stand under `x` and `y`, and the time if one can be read under `t`. It
/// needs the first three, and coordinates of 32 bits.
pub proof fn law_touch_has_what_the_line_gives(line: Seq<char>, phase: Phase, x: u64, y: u64)
    requires
        number_field(line, "x"@) == Some(x),
        number_field(line, "y"@) == Some(y),
        text_field(line, "phase"@) == Some(phase_name(phase)),
    ensures
        touch_of(line) is Some <==> x <= 4294967295 && y <= 4294967295,
        touch_of(line) matches Some(e) ==> (e matches Event::Touch(touch) && touch.phase == phase
            && touch.x == x && touch.y == y && touch.t == number_field(line, "t"@)),
{
    lemma_phase_name(phase);
}

/// A touch without a phase, or with one of another name, or without one of its
/// coordinates, is no event.
pub proof fn law_incomplete_touch_is_no_event(line: Seq<char>)
    requires
        number_field(line, "x"@) is None || number_field(line, "y"@) is None || text_field(
            line,
            "phase"@,
        ) is None || (text_field(line, "phase"@) != Some("down"@) && text_field(line, "phase"@)
            != Some("move"@) && text_field(line, "phase"@) != Some("up"@)),
    ensures
        touch_of(line) is None,
{
}

} // verus!
