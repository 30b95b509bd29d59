//! Byte-string helpers: comparison, appending, little-endian numbers.
use vstd::prelude::*;

verus! {

/// `256` to the power `k`: how many values fit in `k` bytes.
pub open spec fn pow256(k: nat) -> nat
    decreases k,
{
    if k == 0 {
        1
    } else {
        256 * pow256((k - 1) as nat)
    }
}

/// The `width` low bytes of `n`, least significant first.
pub open spec fn le_bytes(n: nat, width: nat) -> Seq<u8>
    decreases width,
{
    if width == 0 {
        Seq::<u8>::empty()
    } else {
        seq![(n % 256) as u8] + le_bytes(n / 256, (width - 1) as nat)
    }
}

/// The number whose little-endian bytes are `s`.
pub open spec fn le_value(s: Seq<u8>) -> nat
    decreases s.len(),
{
    if s.len() == 0 {
        0
    } else {
        s[0] as nat + 256 * le_value(s.drop_first())
    }
}

pub proof fn lemma_le_bytes_len(n: nat, width: nat)
    ensures
        le_bytes(n, width).len() == width,
    decreases width,
{
    if width > 0 {
        lemma_le_bytes_len(n / 256, (width - 1) as nat);
    }
}

/// Reading back what was written gives the number, as long as it fits.
pub proof fn lemma_le_round_trip(n: nat, width: nat)
    requires
        n < pow256(width),
    ensures
        le_value(le_bytes(n, width)) == n,
        le_bytes(n, width).len() == width,
    decreases width,
{
    lemma_le_bytes_len(n, width);
    if width > 0 {
        let rest = le_bytes(n / 256, (width - 1) as nat);
        lemma_le_round_trip(n / 256, (width - 1) as nat);
        assert(le_bytes(n, width).drop_first() =~= rest);
    }
}

/// A byte string is the little-endian form of its own value.
pub proof fn lemma_le_value_bytes(s: Seq<u8>)
    ensures
        le_value(s) < pow256(s.len()),
        le_bytes(le_value(s), s.len()) == s,
    decreases s.len(),
{
    if s.len() > 0 {
        let rest = s.drop_first();
        lemma_le_value_bytes(rest);
        let v = le_value(s);
        assert(v == s[0] as nat + 256 * le_value(rest));
        assert(v % 256 == s[0] as nat);
        assert(v / 256 == le_value(rest));
        assert(le_bytes(v, s.len()) =~= s);
    } else {
        assert(le_bytes(0, 0) =~= s);
    }
}

pub proof fn lemma_pow256_values()
    ensures
        pow256(1) == 0x100,
        pow256(2) == 0x1_0000,
        pow256(4) == 0x1_0000_0000,
        pow256(8) == 0x1_0000_0000_0000_0000,
{
    reveal_with_fuel(pow256, 9);
}

pub proof fn lemma_pow256_monotone(a: nat, b: nat)
    requires
        a <= b,
    ensures
        pow256(a) <= pow256(b),
        pow256(a) >= 1,
    decreases b,
{
    if b > 0 {
        if a < b {
            lemma_pow256_monotone(a, (b - 1) as nat);
        } else {
            lemma_pow256_monotone((a - 1) as nat, (b - 1) as nat);
        }
    }
}

/// Whether two byte strings are the same.
pub fn bytes_eq(a: &[u8], b: &[u8]) -> (r: bool)
    ensures
        r == (a@ == b@),
{
    if a.len() != b.len() {
        return false;
    }
    let mut i: usize = 0;
    while i < a.len()
        invariant
            i <= a@.len(),
            a@.len() == b@.len(),
            forall|k: int| 0 <= k < i ==> a@[k] == b@[k],
        decreases a@.len() - i,
    {
        if a[i] != b[i] {
            return false;
        }
        i += 1;
    }
    assert(a@ =~= b@);
    true
}

/// Appends `chunk` to `out`.
pub fn push_bytes(out: &mut Vec<u8>, chunk: &[u8])
    ensures
        final(out)@ == old(out)@ + chunk@,
{
    let ghost before = out@;
    out.extend_from_slice(chunk);
    assert(out@ =~= before + chunk@);
}

/// Appends the `width` low bytes of `v`, least significant first.
pub fn push_le(out: &mut Vec<u8>, v: u64, width: usize)
    ensures
        final(out)@ == old(out)@ + le_bytes(v as nat, width as nat),
{
    let ghost before = out@;
    let mut rest: u64 = v;
    let mut left: usize = width;
    assert(out@ + le_bytes(rest as nat, left as nat) =~= before + le_bytes(v as nat, width as nat));
    while left > 0
        invariant
            out@ + le_bytes(rest as nat, left as nat) == before + le_bytes(v as nat, width as nat),
        decreases left,
    {
        let ghost prev = out@;
        let ghost tail = le_bytes((rest / 256) as nat, (left - 1) as nat);
        let low: u8 = (rest % 256) as u8;
        out.push(low);
        assert(le_bytes(rest as nat, left as nat) == seq![low] + tail);
        assert(out@ + tail =~= prev + (seq![low] + tail));
        rest = rest / 256;
        left = left - 1;
    }
    assert(out@ =~= out@ + le_bytes(rest as nat, 0));
}

/// The little-endian number held in `width` bytes of `b` from `at`.
pub fn read_le(b: &[u8], at: usize, width: usize) -> (v: u64)
    requires
        at + width <= b@.len(),
        width <= 8,
    ensures
        v == le_value(b@.subrange(at as int, at + width)),
        v < pow256(width as nat),
{
    let mut acc: u64 = 0;
    let mut i: usize = width;
    proof {
        lemma_pow256_values();
    }
    assert(b@.subrange((at + i) as int, at + width) =~= Seq::<u8>::empty());
    while i > 0
        invariant
            i <= width <= 8,
            at + width <= b.len(),
            acc == le_value(b@.subrange((at + i) as int, at + width)),
            acc < pow256((width - i) as nat),
            pow256(8) == 0x1_0000_0000_0000_0000,
        decreases i,
    {
        let ghost tail = b@.subrange((at + i) as int, at + width);
        let ghost whole = b@.subrange((at + i - 1) as int, at + width);
        proof {
            assert(whole.drop_first() =~= tail);
            assert(whole[0] == b@[at + i - 1]);
            assert(pow256((width - i + 1) as nat) == 256 * pow256((width - i) as nat));
            lemma_pow256_monotone((width - i + 1) as nat, 8);
        }
        acc = acc * 256 + b[at + i - 1] as u64;
        i = i - 1;
    }
    acc
}

/// The 32 bytes of `b` from `at`.
pub fn array_32(b: &[u8], at: usize) -> (r: [u8; 32])
    requires
        at + 32 <= b@.len(),
    ensures
        r@ == b@.subrange(at as int, at + 32),
{
    let mut out: [u8; 32] = [0u8; 32];
    let mut i: usize = 0;
    while i < 32
        invariant
            i <= 32,
            at + 32 <= b.len(),
            forall|k: int| 0 <= k < i ==> out@[k] == b@[at + k],
        decreases 32 - i,
    {
        out[i] = b[at + i];
        i += 1;
    }
    assert(out@ =~= b@.subrange(at as int, at + 32));
    out
}

/// The 64 bytes of `b` from `at`.
pub fn array_64(b: &[u8], at: usize) -> (r: [u8; 64])
    requires
        at + 64 <= b@.len(),
    ensures
        r@ == b@.subrange(at as int, at + 64),
{
    let mut out: [u8; 64] = [0u8; 64];
    let mut i: usize = 0;
    while i < 64
        invariant
            i <= 64,
            at + 64 <= b.len(),
            forall|k: int| 0 <= k < i ==> out@[k] == b@[at + k],
        decreases 64 - i,
    {
        out[i] = b[at + i];
        i += 1;
    }
    assert(out@ =~= b@.subrange(at as int, at + 64));
    out
}

/// A fresh vector with the bytes of `b` in `[from, to)`.
pub fn copy_range(b: &[u8], from: usize, to: usize) -> (r: Vec<u8>)
    requires
        from <= to <= b@.len(),
    ensures
        r@ == b@.subrange(from as int, to as int),
{
    let mut out: Vec<u8> = Vec::new();
    push_bytes(&mut out, vstd::slice::slice_subrange(b, from, to));
    assert(out@ =~= b@.subrange(from as int, to as int));
    out
}

/// `a` comes before `b` in the byte-wise lexicographic order, or equals it.
pub open spec fn lex_le(a: Seq<u8>, b: Seq<u8>) -> bool
    decreases a.len(),
{
    if a.len() == 0 {
        true
    } else if b.len() == 0 {
        false
    } else if a[0] != b[0] {
        a[0] < b[0]
    } else {
        lex_le(a.drop_first(), b.drop_first())
    }
}

pub proof fn lemma_lex_total(a: Seq<u8>, b: Seq<u8>)
    ensures
        lex_le(a, b) || lex_le(b, a),
        lex_le(a, b) && lex_le(b, a) ==> a == b,
    decreases a.len(),
{
    if a.len() > 0 && b.len() > 0 {
        lemma_lex_total(a.drop_first(), b.drop_first());
        if a[0] == b[0] && a.drop_first() == b.drop_first() {
            assert(a =~= seq![a[0]] + a.drop_first());
            assert(b =~= seq![b[0]] + b.drop_first());
        }
    } else if a.len() == 0 && b.len() == 0 {
        assert(a =~= b);
    }
}

pub proof fn lemma_lex_transitive(a: Seq<u8>, b: Seq<u8>, c: Seq<u8>)
    requires
        lex_le(a, b),
        lex_le(b, c),
    ensures
        lex_le(a, c),
    decreases a.len(),
{
    if a.len() > 0 && b.len() > 0 && c.len() > 0 {
        if a[0] == b[0] && b[0] == c[0] {
            lemma_lex_transitive(a.drop_first(), b.drop_first(), c.drop_first());
        }
    }
}

proof fn lemma_lex_skip(a: Seq<u8>, b: Seq<u8>, k: int)
    requires
        0 <= k <= a.len(),
        k <= b.len(),
        forall|i: int| 0 <= i < k ==> a[i] == b[i],
    ensures
        lex_le(a, b) == lex_le(a.skip(k), b.skip(k)),
    decreases k,
{
    if k == 0 {
        assert(a.skip(0) =~= a);
        assert(b.skip(0) =~= b);
    } else {
        lemma_lex_skip(a.drop_first(), b.drop_first(), k - 1);
        assert(a.drop_first().skip(k - 1) =~= a.skip(k));
        assert(b.drop_first().skip(k - 1) =~= b.skip(k));
    }
}

/// Byte-wise lexicographic comparison.
pub fn bytes_le(a: &[u8], b: &[u8]) -> (r: bool)
    ensures
        r == lex_le(a@, b@),
{
    let mut i: usize = 0;
    while i < a.len() && i < b.len()
        invariant
            i <= a@.len(),
            i <= b@.len(),
            forall|k: int| 0 <= k < i ==> a@[k] == b@[k],
        decreases a@.len() - i,
    {
        if a[i] != b[i] {
            proof {
                lemma_lex_skip(a@, b@, i as int);
            }
            return a[i] < b[i];
        }
        i += 1;
    }
    proof {
        lemma_lex_skip(a@, b@, i as int);
    }
    i == a.len()
}

/// The order of byte strings: at the first byte in which two of them differ,
/// the smaller byte comes first, and a string comes before its extensions.
pub proof fn law_first_difference_decides(a: Seq<u8>, b: Seq<u8>, k: int)
    requires
        0 <= k <= a.len(),
        k <= b.len(),
        forall|i: int| 0 <= i < k ==> a[i] == b[i],
    ensures
        k < a.len() && k < b.len() && a[k] < b[k] ==> lex_le(a, b) && !lex_le(b, a),
        k == a.len() ==> lex_le(a, b),
        k == a.len() && k < b.len() ==> !lex_le(b, a),
{
    lemma_lex_skip(a, b, k);
    lemma_lex_skip(b, a, k);
    if k < a.len() {
        assert(a.skip(k)[0] == a[k]);
    }
    if k < b.len() {
        assert(b.skip(k)[0] == b[k]);
    }
}

/// The bytes of a number: byte `k` counts the multiples of the k-th power of
/// 256, so the least significant byte stands first.
pub proof fn law_least_significant_byte_first(n: nat, width: nat)
    ensures
        le_bytes(n, width).len() == width,
        width >= 1 ==> le_bytes(n, width)[0] == n % 256,
        width >= 2 ==> le_bytes(n, width)[1] == n / 256 % 256,
        width >= 3 ==> le_bytes(n, width)[2] == n / 0x1_0000 % 256,
        width >= 4 ==> le_bytes(n, width)[3] == n / 0x100_0000 % 256,
        forall|k: int|
            1 <= k < width ==> #[trigger] le_bytes(n, width)[k] == le_bytes(
                n / 256,
                (width - 1) as nat,
            )[k - 1],
{
    lemma_le_bytes_len(n, width);
    reveal_with_fuel(le_bytes, 5);
    if width >= 2 {
        lemma_le_bytes_len(n / 256, (width - 1) as nat);
        assert(le_bytes(n, width)[1] == le_bytes(n / 256, (width - 1) as nat)[0]);
    }
    if width >= 3 {
        let m = n / 256;
        lemma_le_bytes_len(m / 256, (width - 2) as nat);
        assert(le_bytes(n, width)[2] == le_bytes(m / 256, (width - 2) as nat)[0]);
        assert(m / 256 == n / 0x1_0000);
    }
    if width >= 4 {
        let m = n / 0x1_0000;
        lemma_le_bytes_len(m / 256, (width - 3) as nat);
        assert(n / 256 / 256 == m);
        assert(le_bytes(n, width)[3] == le_bytes(m / 256, (width - 3) as nat)[0]);
        assert(m / 256 == n / 0x100_0000);
    }
}

/// `a` comes before `b` byte by byte: at the first place where they differ `a`
/// has the smaller byte, or `a` ends there.
pub open spec fn comes_before(a: Seq<u8>, b: Seq<u8>) -> bool {
    exists|k: int|
        0 <= k <= a.len() && k < b.len() && #[trigger] a.take(k) == b.take(k) && (k == a.len()
            || a[k] < b[k])
}

/// The order of byte strings goes byte by byte, and orders all of them.
pub proof fn law_order_goes_byte_by_byte(a: Seq<u8>, b: Seq<u8>)
    ensures
        lex_le(a, b) <==> a == b || comes_before(a, b),
        a == b || comes_before(a, b) || comes_before(b, a),
        !(comes_before(a, b) && comes_before(b, a)),
{
    lemma_lex_total(a, b);
    lemma_before_is_strict(a, b);
    lemma_before_is_strict(b, a);
    if a != b {
        let k = lemma_first_difference(a, b, 0);
        assert(a.take(k) =~= b.take(k));
        if k < b.len() && (k == a.len() || a[k] < b[k]) {
            assert(comes_before(a, b));
        } else {
            assert(b.take(k) =~= a.take(k));
            assert(comes_before(b, a));
        }
    }
}

proof fn lemma_before_is_strict(a: Seq<u8>, b: Seq<u8>)
    ensures
        comes_before(a, b) ==> lex_le(a, b) && !lex_le(b, a),
{
    if comes_before(a, b) {
        let k = choose|k: int|
            0 <= k <= a.len() && k < b.len() && #[trigger] a.take(k) == b.take(k) && (k == a.len()
                || a[k] < b[k]);
        assert forall|i: int| 0 <= i < k implies a[i] == b[i] by {
            assert(a.take(k)[i] == b.take(k)[i]);
        }
        law_first_difference_decides(a, b, k);
    }
}

proof fn lemma_first_difference(a: Seq<u8>, b: Seq<u8>, from: int) -> (k: int)
    requires
        a != b,
        0 <= from <= a.len(),
        from <= b.len(),
        forall|i: int| 0 <= i < from ==> a[i] == b[i],
    ensures
        0 <= k <= a.len(),
        k <= b.len(),
        k < a.len() || k < b.len(),
        forall|i: int| 0 <= i < k ==> a[i] == b[i],
        k < a.len() && k < b.len() ==> a[k] != b[k],
    decreases a.len() - from,
{
    if from < a.len() && from < b.len() && a[from] == b[from] {
        lemma_first_difference(a, b, from + 1)
    } else {
        if from == a.len() && from == b.len() {
            assert(a =~= b);
        }
        from
    }
}

} // verus!
