//! String helpers: comparison, appending, decimal numbers.
use vstd::prelude::*;
use vstd::std_specs::iter::IteratorSpec;
use vstd::utf8::*;

use crate::bytes::bytes_eq;

verus! {

/// `std::string::String::push`: appends one character.
pub assume_specification[ String::push ](s: &mut String, c: char)
    ensures
        final(s)@ == old(s)@.push(c),
;

/// `std::str::from_utf8`, as an owned string: succeeds exactly on valid UTF-8
/// and gives the text that the bytes encode.
#[verifier::external_body]
pub(crate) fn utf8_to_string(b: &[u8]) -> (r: Option<String>)
    ensures
        r is Some <==> valid_utf8(b@),
        r matches Some(s) ==> s@ == decode_utf8(b@),
{
    std::str::from_utf8(b).ok().map(|s| s.to_owned())
}

/// The text that `String::from_utf8_lossy` makes of bytes.
pub uninterp spec fn lossy_text(b: Seq<u8>) -> Seq<char>;

/// `std::string::String::from_utf8_lossy`, as an owned string: the text that
/// the bytes encode where they are valid UTF-8, and otherwise a text that
/// depends on the bytes alone.
#[verifier::external_body]
pub(crate) fn utf8_lossy(b: &[u8]) -> (r: String)
    ensures
        r@ == lossy_text(b@),
        valid_utf8(b@) ==> r@ == decode_utf8(b@),
{
    String::from_utf8_lossy(b).into_owned()
}

/// Two texts with the same UTF-8 bytes are the same text.
pub proof fn lemma_utf8_injective(a: Seq<char>, b: Seq<char>)
    requires
        encode_utf8(a) == encode_utf8(b),
    ensures
        a == b,
{
    encode_utf8_decode_utf8(a);
    encode_utf8_decode_utf8(b);
}

/// Whether two texts are the same.
pub fn str_eq(a: &str, b: &str) -> (r: bool)
    ensures
        r == (a@ == b@),
{
    let r: bool = bytes_eq(a.as_bytes(), b.as_bytes());
    proof {
        if r {
            lemma_utf8_injective(a@, b@);
        }
    }
    r
}

/// Whether `c` occurs in `s`.
pub fn has_char(s: &str, c: char) -> (r: bool)
    ensures
        r == s@.contains(c),
{
    for x in it: s.chars()
        invariant
            it.seq() == s@,
            forall|k: int| 0 <= k < it.index() ==> s@[k] != c,
    {
        if x == c {
            assert(s@[it.index() as int] == c);
            return true;
        }
    }
    false
}

/// Whether `s` begins with `p`.
pub fn has_prefix(s: &str, p: &str) -> (r: bool)
    ensures
        r == p@.is_prefix_of(s@),
{
    let mut a = s.chars();
    for x in it: p.chars()
        invariant
            it.seq() == p@,
            it.index() <= s@.len(),
            a.obeys_prophetic_iter_laws(),
            a.remaining() == s@.skip(it.index() as int),
            forall|k: int| 0 <= k < it.index() ==> p@[k] == s@[k],
    {
        match a.next() {
            Some(y) => {
                if y != x {
                    assert(p@[it.index() as int] != s@[it.index() as int]);
                    return false;
                }
            },
            None => {
                return false;
            },
        }
    }
    assert(p@ =~= s@.subrange(0, p@.len() as int));
    true
}

/// A fresh string with the same text.
pub fn owned(s: &str) -> (r: String)
    ensures
        r@ == s@,
{
    s.to_owned()
}

/// `name` inside the directory `dir`.
pub open spec fn joined_path(dir: Seq<char>, name: Seq<char>) -> Seq<char> {
    if dir.len() == 0 {
        name
    } else if dir.last() == '/' {
        dir + name
    } else {
        dir.push('/') + name
    }
}

/// `name` inside the directory `dir`, with one slash between them.
pub fn join_path(dir: &str, name: &str) -> (r: String)
    ensures
        r@ == joined_path(dir@, name@),
{
    let n: usize = dir.unicode_len();
    let mut out: String = owned(dir);
    if n > 0 && dir.get_char(n - 1) != '/' {
        out.push('/');
    }
    out.append(name);
    assert(out@ =~= joined_path(dir@, name@));
    out
}

/// The decimal digit `d`.
pub open spec fn digit_char(d: nat) -> char {
    ('0' as u32 + d) as char
}

/// `n` in decimal, without leading zeros.
pub open spec fn dec_text(n: nat) -> Seq<char>
    decreases n,
{
    if n < 10 {
        seq![digit_char(n)]
    } else {
        dec_text(n / 10).push(digit_char(n % 10))
    }
}

/// Appends `n` in decimal.
pub fn push_dec(out: &mut String, n: u64)
    ensures
        final(out)@ == old(out)@ + dec_text(n as nat),
    decreases n,
{
    let ghost before = out@;
    if n >= 10 {
        push_dec(out, n / 10);
    }
    let d: u8 = (n % 10) as u8;
    let c: u8 = 48u8 + d;
    out.push(c as char);
    assert(c as char == digit_char((n % 10) as nat));
    assert(out@ =~= before + dec_text(n as nat));
}

/// Signed decimal: a minus sign in front of the magnitude of a negative `n`.
pub open spec fn signed_dec_text(n: int) -> Seq<char> {
    if n < 0 {
        seq!['-'] + dec_text((-n) as nat)
    } else {
        dec_text(n as nat)
    }
}

/// Appends `n` in signed decimal.
pub fn push_signed_dec(out: &mut String, n: i64)
    ensures
        final(out)@ == old(out)@ + signed_dec_text(n as int),
{
    let ghost before = out@;
    if n < 0 {
        out.push('-');
        let m: u64 = (-(n as i128)) as u64;
        push_dec(out, m);
    } else {
        push_dec(out, n as u64);
    }
    assert(out@ =~= before + signed_dec_text(n as int));
}

/// The lower-case hexadecimal digit `d`.
pub open spec fn hex_char(d: nat) -> char {
    if d < 10 {
        ('0' as u32 + d) as char
    } else {
        ('a' as u32 + (d - 10)) as char
    }
}

/// `b` in lower-case hexadecimal, two digits per byte, high half first.
pub open spec fn hex_text(b: Seq<u8>) -> Seq<char> {
    Seq::new(
        2 * b.len(),
        |i: int| hex_char(if i % 2 == 0 {
            b[i / 2] as nat / 16
        } else {
            b[i / 2] as nat % 16
        }),
    )
}

fn hex_digit(d: u8) -> (c: char)
    requires
        d < 16,
    ensures
        c == hex_char(d as nat),
{
    if d < 10 {
        (48u8 + d) as char
    } else {
        (97u8 + (d - 10)) as char
    }
}

/// Appends `b` in lower-case hexadecimal.
pub fn push_hex(out: &mut String, b: &[u8])
    ensures
        final(out)@ == old(out)@ + hex_text(b@),
{
    let ghost before = out@;
    let mut i: usize = 0;
    assert(out@ =~= before + hex_text(b@.take(0)));
    while i < b.len()
        invariant
            i <= b@.len(),
            out@ == before + hex_text(b@.take(i as int)),
        decreases b@.len() - i,
    {
        let ghost prev = out@;
        out.push(hex_digit(b[i] / 16));
        out.push(hex_digit(b[i] % 16));
        proof {
            let ext = hex_text(b@.take(i + 1));
            let cur = hex_text(b@.take(i as int));
            assert(ext =~= cur.push(hex_char(b@[i as int] as nat / 16)).push(
                hex_char(b@[i as int] as nat % 16),
            ));
            assert(out@ =~= before + ext);
        }
        i += 1;
    }
    assert(b@.take(i as int) =~= b@);
}

/// The characters of `s`.
pub fn to_chars(s: &str) -> (r: Vec<char>)
    ensures
        r@ == s@,
{
    let mut out: Vec<char> = Vec::new();
    for c in it: s.chars()
        invariant
            it.seq() == s@,
            out@ == s@.take(it.index() as int),
    {
        out.push(c);
        assert(out@ =~= s@.take(it.index() + 1));
    }
    assert(s@.take(s@.len() as int) =~= s@);
    out
}

/// A string with the characters of `s` in `[from, to)`.
pub fn from_chars(s: &Vec<char>, from: usize, to: usize) -> (r: String)
    requires
        from <= to <= s@.len(),
    ensures
        r@ == s@.subrange(from as int, to as int),
{
    let mut out: String = String::new();
    let mut i: usize = from;
    assert(out@ =~= s@.subrange(from as int, from as int));
    while i < to
        invariant
            from <= i <= to <= s@.len(),
            out@ == s@.subrange(from as int, i as int),
        decreases to - i,
    {
        out.push(s[i]);
        assert(out@ =~= s@.subrange(from as int, i + 1));
        i += 1;
    }
    out
}

/// A decimal digit.
pub open spec fn is_digit(c: char) -> bool {
    '0' <= c && c <= '9'
}

/// A non-empty run of decimal digits.
pub open spec fn is_digits(s: Seq<char>) -> bool {
    s.len() > 0 && forall|i: int| 0 <= i < s.len() ==> is_digit(#[trigger] s[i])
}

/// The number that a run of digits writes.
pub open spec fn digits_value(s: Seq<char>) -> nat
    decreases s.len(),
{
    if s.len() == 0 {
        0
    } else {
        10 * digits_value(s.drop_last()) + (s.last() as u32 - '0' as u32) as nat
    }
}

/// The number that a decimal with an optional sign writes.
pub open spec fn signed_value(s: Seq<char>) -> Option<int> {
    if is_digits(s) {
        Some(digits_value(s) as int)
    } else if s.len() > 0 && s[0] == '+' && is_digits(s.skip(1)) {
        Some(digits_value(s.skip(1)) as int)
    } else if s.len() > 0 && s[0] == '-' && is_digits(s.skip(1)) {
        Some(-(digits_value(s.skip(1)) as int))
    } else {
        None
    }
}

pub proof fn lemma_dec_text_value(n: nat)
    ensures
        is_digits(dec_text(n)),
        digits_value(dec_text(n)) == n,
    decreases n,
{
    let t = dec_text(n);
    if n < 10 {
        assert(t.drop_last() =~= Seq::<char>::empty());
        assert(digits_value(t.drop_last()) == 0);
        assert(t.last() == digit_char(n));
    } else {
        lemma_dec_text_value(n / 10);
        assert(t.drop_last() =~= dec_text(n / 10));
        assert(t.last() == digit_char(n % 10));
        assert forall|i: int| 0 <= i < t.len() implies is_digit(#[trigger] t[i]) by {
            if i < t.len() - 1 {
                assert(t[i] == dec_text(n / 10)[i]);
            }
        }
    }
}

pub proof fn lemma_signed_dec_text_value(n: int)
    ensures
        signed_value(signed_dec_text(n)) == Some(n),
{
    if n < 0 {
        lemma_dec_text_value((-n) as nat);
        let t = signed_dec_text(n);
        assert(t.skip(1) =~= dec_text((-n) as nat));
        assert(!is_digit(t[0]));
        assert(!is_digits(t));
    } else {
        lemma_dec_text_value(n as nat);
    }
}

proof fn lemma_digits_value_grows(s: Seq<char>, k: int)
    requires
        is_digits(s),
        0 <= k <= s.len(),
    ensures
        digits_value(s.take(k)) <= digits_value(s),
    decreases s.len() - k,
{
    if k < s.len() {
        lemma_digits_value_grows(s, k + 1);
        assert(s.take(k + 1).drop_last() =~= s.take(k));
    } else {
        assert(s.take(k) =~= s);
    }
}

/// The number that the digits of `s` from `from` on write, unless it exceeds
/// `max`.
pub fn parse_digits(s: &Vec<char>, from: usize, to: usize, max: u64) -> (r: Option<u64>)
    requires
        from <= to <= s@.len(),
    ensures
        r == (if is_digits(s@.subrange(from as int, to as int)) && digits_value(
            s@.subrange(from as int, to as int),
        ) <= max {
            Some(digits_value(s@.subrange(from as int, to as int)) as u64)
        } else {
            None
        }),
{
    let ghost d = s@.subrange(from as int, to as int);
    if from == to {
        return None;
    }
    let mut i: usize = from;
    while i < to
        invariant
            from <= i <= to <= s@.len(),
            d == s@.subrange(from as int, to as int),
            forall|k: int| 0 <= k < i - from ==> is_digit(#[trigger] d[k]),
        decreases to - i,
    {
        assert(d[i - from] == s@[i as int]);
        if !('0' <= s[i] && s[i] <= '9') {
            assert(!is_digit(d[i - from]));
            return None;
        }
        i += 1;
    }
    assert(is_digits(d));
    let mut acc: u64 = 0;
    let mut j: usize = from;
    assert(d.take(0) =~= Seq::<char>::empty());
    while j < to
        invariant
            from <= j <= to <= s@.len(),
            d == s@.subrange(from as int, to as int),
            is_digits(d),
            acc == digits_value(d.take(j - from)),
            acc <= max,
        decreases to - j,
    {
        proof {
            assert(d.take(j - from + 1).drop_last() =~= d.take(j - from));
            assert(d.take(j - from + 1).last() == s@[j as int]);
            assert(is_digit(d[j - from]));
            lemma_digits_value_grows(d, j - from + 1);
        }
        let v: u64 = (s[j] as u32 - '0' as u32) as u64;
        if acc > max / 10 {
            return None;
        }
        if v > max - acc * 10 {
            return None;
        }
        acc = acc * 10 + v;
        j += 1;
    }
    assert(d.take(to - from) =~= d);
    Some(acc)
}

/// Reads a 32-bit decimal with an optional sign.
pub fn parse_i32(s: &str) -> (r: Option<i32>)
    ensures
        r == (match signed_value(s@) {
            Some(v) => if i32::MIN <= v <= i32::MAX {
                Some(v as i32)
            } else {
                None
            },
            None => None,
        }),
{
    let c: Vec<char> = to_chars(s);
    let n: usize = c.len();
    if n == 0 {
        return None;
    }
    assert(c@.subrange(1, n as int) =~= s@.skip(1));
    assert(c@.subrange(0, n as int) =~= s@);
    if c[0] == '-' {
        assert(!is_digit(s@[0]));
        match parse_digits(&c, 1, n, 0x8000_0000) {
            Some(v) => Some((-(v as i64)) as i32),
            None => None,
        }
    } else if c[0] == '+' {
        assert(!is_digit(s@[0]));
        match parse_digits(&c, 1, n, 0x7fff_ffff) {
            Some(v) => Some(v as i32),
            None => None,
        }
    } else {
        match parse_digits(&c, 0, n, 0x7fff_ffff) {
            Some(v) => Some(v as i32),
            None => None,
        }
    }
}

/// A number in decimal: one digit if it is below ten, and otherwise the digits
/// of its tens followed by that of its ones.
pub proof fn law_decimal_digits(n: nat)
    ensures
        n < 10 ==> dec_text(n).len() == 1 && dec_text(n)[0] as u32 == 48 + n,
        n >= 10 ==> dec_text(n) == dec_text(n / 10) + dec_text(n % 10),
        n > 0 ==> dec_text(n)[0] != '0',
        signed_dec_text(-(n as int)) == (if n == 0 {
            dec_text(0)
        } else {
            seq!['-'] + dec_text(n)
        }),
        signed_dec_text(n as int) == dec_text(n),
    decreases n,
{
    if n >= 10 {
        law_decimal_digits(n / 10);
        assert(dec_text(n) =~= dec_text(n / 10) + dec_text(n % 10));
        assert(dec_text(n)[0] == dec_text(n / 10)[0]);
    }
}

/// Reading decimal digits: an empty run is zero, a digit more multiplies by ten
/// and adds its value.
pub proof fn law_digits_are_read_in_base_ten(s: Seq<char>, c: char)
    requires
        '0' <= c && c <= '9',
    ensures
        digits_value(Seq::empty()) == 0,
        digits_value(s.push(c)) == 10 * digits_value(s) + (c as u32 - 48),
        is_digits(s.push(c)) <==> s.len() == 0 || is_digits(s),
        !is_digits(Seq::empty()),
{
    assert(s.push(c).drop_last() =~= s);
    let t = s.push(c);
    assert(t[s.len() as int] == c);
    if is_digits(t) && s.len() > 0 {
        assert forall|i: int| 0 <= i < s.len() implies is_digit(#[trigger] s[i]) by {
            assert(t[i] == s[i]);
        }
    }
    if s.len() == 0 || is_digits(s) {
        assert forall|i: int| 0 <= i < t.len() implies is_digit(#[trigger] t[i]) by {
            if i < s.len() {
                assert(t[i] == s[i]);
            }
        }
    }
}

/// Bytes in hexadecimal: two digits each, the high half first, in lower case.
pub proof fn law_hexadecimal_digits(b: Seq<u8>, i: int)
    requires
        0 <= i < b.len(),
    ensures
        hex_text(b).len() == 2 * b.len(),
        hex_text(b)[2 * i] == "0123456789abcdef"@[b[i] as int / 16],
        hex_text(b)[2 * i + 1] == "0123456789abcdef"@[b[i] as int % 16],
{
    reveal_strlit("0123456789abcdef");
    let (h, l) = (b[i] as nat / 16, b[i] as nat % 16);
    assert(hex_text(b)[2 * i] == hex_char(h));
    assert(hex_text(b)[2 * i + 1] == hex_char(l));
    assert forall|d: nat| d < 16 implies #[trigger] hex_char(d) == "0123456789abcdef"@[d as int] by {
        assert(d == 0 || d == 1 || d == 2 || d == 3 || d == 4 || d == 5 || d == 6 || d == 7 || d == 8
            || d == 9 || d == 10 || d == 11 || d == 12 || d == 13 || d == 14 || d == 15);
    }
}

/// A signed number is its digits, with or without a sign in front; a minus sign
/// makes it negative. Anything else is no number.
pub proof fn law_signs_are_read(d: Seq<char>, s: Seq<char>)
    requires
        is_digits(d),
    ensures
        signed_value(d) == Some(digits_value(d) as int),
        signed_value(seq!['+'] + d) == Some(digits_value(d) as int),
        signed_value(seq!['-'] + d) == Some(-(digits_value(d) as int)),
        signed_value(s) is Some ==> is_digits(s) || (s.len() > 1 && (s[0] == '+' || s[0] == '-')
            && is_digits(s.skip(1))),
{
    let p = seq!['+'] + d;
    let m = seq!['-'] + d;
    assert(p.skip(1) =~= d);
    assert(m.skip(1) =~= d);
    assert(!is_digit(p[0]) && !is_digit(m[0]));
    assert(!is_digits(p) && !is_digits(m));
}

} // verus!
