//! Sets of capabilities as bit masks.
use vstd::prelude::*;

use crate::types::caps::{all_capabilities, law_all_in_order};
use crate::types::Capability;

verus! {

/// The mask with only the bit of `c`.
pub open spec fn cap_bit(c: Capability) -> u32 {
    1u32 << (c.ordinal() as u32)
}

/// The mask of a list of capabilities.
pub open spec fn caps_mask(caps: Seq<Capability>) -> u32
    decreases caps.len(),
{
    if caps.len() == 0 {
        0
    } else {
        caps_mask(caps.drop_last()) | cap_bit(caps.last())
    }
}

/// The mask holds the capability.
pub open spec fn has_cap(bits: u32, c: Capability) -> bool {
    bits & cap_bit(c) != 0
}

/// The capabilities of a mask, in declaration order.
pub open spec fn caps_in(bits: u32) -> Seq<Capability> {
    all_capabilities().filter(|c: Capability| has_cap(bits, c))
}

/// The mask of a list of capabilities.
pub fn caps_bits(caps: &[Capability]) -> (bits: u32)
    ensures
        bits == caps_mask(caps@),
{
    let mut bits: u32 = 0;
    let mut i: usize = 0;
    while i < caps.len()
        invariant
            i <= caps@.len(),
            bits == caps_mask(caps@.take(i as int)),
        decreases caps@.len() - i,
    {
        bits = bits | (1u32 << caps[i].index());
        assert(caps@.take(i + 1).drop_last() =~= caps@.take(i as int));
        i += 1;
    }
    assert(caps@.take(i as int) =~= caps@);
    bits
}

/// The capabilities of a mask, in declaration order. Bits that stand for no
/// capability count for nothing.
pub fn caps_from_bits(bits: u32) -> (caps: Vec<Capability>)
    ensures
        caps@ == caps_in(bits),
{
    let all: [Capability; 11] = Capability::all();
    let mut out: Vec<Capability> = Vec::new();
    let mut i: usize = 0;
    let ghost pred = |c: Capability| has_cap(bits, c);
    reveal(Seq::filter);
    while i < 11
        invariant
            i <= 11,
            all@ == all_capabilities(),
            pred == (|c: Capability| has_cap(bits, c)),
            out@ == all@.take(i as int).filter(pred),
        decreases 11 - i,
    {
        let c: Capability = all[i];
        reveal(Seq::filter);
        assert(all@.take(i + 1).drop_last() =~= all@.take(i as int));
        assert(all@.take(i + 1).last() == c);
        if bits & (1u32 << c.index()) != 0 {
            out.push(c);
        }
        i += 1;
    }
    assert(all@.take(11) =~= all@);
    out
}

proof fn lemma_or_bit(m: u32, i: u32, j: u32)
    requires
        i < 32,
        j < 32,
    ensures
        ((m | (1u32 << i)) & (1u32 << j) != 0) == (m & (1u32 << j) != 0 || i == j),
{
    assert(((m | (1u32 << i)) & (1u32 << j) != 0) == (m & (1u32 << j) != 0 || i == j))
        by (bit_vector)
        requires
            i < 32,
            j < 32,
    ;
}

/// The mask of a list holds exactly the capabilities of the list.
pub proof fn law_mask_holds_the_list(caps: Seq<Capability>, c: Capability)
    ensures
        has_cap(caps_mask(caps), c) <==> caps.contains(c),
    decreases caps.len(),
{
    let j = c.ordinal() as u32;
    if caps.len() == 0 {
        assert(0u32 & (1u32 << j) == 0) by (bit_vector);
    } else {
        let rest = caps.drop_last();
        let last = caps.last();
        law_mask_holds_the_list(rest, c);
        lemma_or_bit(caps_mask(rest), last.ordinal() as u32, j);
        law_all_in_order(c);
        law_all_in_order(last);
        if caps.contains(c) && c != last {
            let i = choose|i: int| 0 <= i < caps.len() && caps[i] == c;
            assert(rest[i] == c);
        }
        if rest.contains(c) {
            let i = choose|i: int| 0 <= i < rest.len() && rest[i] == c;
            assert(caps[i] == c);
        }
        if c == last {
            assert(caps[caps.len() - 1] == c);
        }
    }
}

proof fn lemma_filter_keeps_order(s: Seq<Capability>, pred: spec_fn(Capability) -> bool)
    requires
        forall|i: int, j: int| 0 <= i < j < s.len() ==> s[i].ordinal() < s[j].ordinal(),
    ensures
        forall|i: int, j: int|
            0 <= i < j < s.filter(pred).len() ==> s.filter(pred)[i].ordinal() < s.filter(
                pred,
            )[j].ordinal(),
        forall|i: int|
            0 <= i < s.filter(pred).len() ==> s.contains(#[trigger] s.filter(pred)[i]) && pred(
                s.filter(pred)[i],
            ),
        forall|i: int| 0 <= i < s.len() && pred(#[trigger] s[i]) ==> s.filter(pred).contains(s[i]),
    decreases s.len(),
{
    reveal(Seq::filter);
    if s.len() > 0 {
        let rest = s.drop_last();
        let sub = rest.filter(pred);
        let out = s.filter(pred);
        lemma_filter_keeps_order(rest, pred);
        assert forall|i: int| 0 <= i < out.len() implies s.contains(#[trigger] out[i]) && pred(
            out[i],
        ) by {
            if i < sub.len() {
                assert(rest.contains(sub[i]));
                let k = choose|k: int| 0 <= k < rest.len() && rest[k] == sub[i];
                assert(s[k] == out[i]);
            } else {
                assert(out[i] == s[s.len() - 1]);
            }
        }
        assert forall|i: int, j: int| 0 <= i < j < out.len() implies out[i].ordinal()
            < out[j].ordinal() by {
            if j >= sub.len() {
                assert(rest.contains(sub[i]));
                let k = choose|k: int| 0 <= k < rest.len() && rest[k] == sub[i];
                assert(s[k].ordinal() < s[s.len() - 1].ordinal());
            }
        }
        assert forall|i: int| 0 <= i < s.len() && pred(#[trigger] s[i]) implies out.contains(
            s[i],
        ) by {
            if i < rest.len() {
                assert(pred(rest[i]));
                let k = choose|k: int| 0 <= k < sub.len() && sub[k] == rest[i];
                assert(out[k] == s[i]);
            } else {
                assert(out[out.len() - 1] == s[i]);
            }
        }
    }
}

/// What the host writes as a mask, the watcher reads as the same set, each
/// capability once and in declaration order.
pub proof fn law_mask_round_trip(caps: Seq<Capability>)
    ensures
        forall|i: int, j: int|
            0 <= i < j < caps_in(caps_mask(caps)).len() ==> caps_in(caps_mask(caps))[i].ordinal()
                < caps_in(caps_mask(caps))[j].ordinal(),
        forall|c: Capability| #[trigger]
            caps_in(caps_mask(caps)).contains(c) <==> caps.contains(c),
{
    let bits = caps_mask(caps);
    let pred = |c: Capability| has_cap(bits, c);
    let all = all_capabilities();
    law_all_in_order(Capability::NetClient);
    lemma_filter_keeps_order(all, pred);
    assert forall|c: Capability| #[trigger] caps_in(bits).contains(c) <==> caps.contains(c) by {
        law_mask_holds_the_list(caps, c);
        law_all_in_order(c);
        let f = all.filter(pred);
        if f.contains(c) {
            let i = choose|i: int| 0 <= i < f.len() && f[i] == c;
            assert(pred(f[i]));
        }
        if caps.contains(c) {
            assert(pred(all[c.ordinal() as int]));
        }
    }
}

} // verus!
