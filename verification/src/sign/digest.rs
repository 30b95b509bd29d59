//! The canonical digest of a package.
//!
//! The hashed byte stream holds, for every entry in path order (byte-wise;
//! entries with the same path are ordered by their hash):
//!
//! ```text
//! 'P'  path length (u32, little-endian)  path  sha256 of the contents
//! ```
//!
//! and then `'M'` and the blake3 of the manifest. Tags and length prefixes
//! keep different packages from producing the same stream.
use vstd::prelude::*;
use vstd::relations::{sorted_by, total_ordering};
use vstd::seq_lib::lemma_sorted_unique;
use vstd::utf8::*;

use crate::bytes::{
    bytes_eq, bytes_le, le_bytes, lemma_le_round_trip, lemma_lex_total, lemma_lex_transitive,
    lemma_pow256_values, lex_le, push_le,
};
use crate::types::digest::{blake3_256, blake3_fed, blake3_plain, Digest};

verus! {

/// A path (UTF-8 bytes) and the hash of its contents.
pub type Entry = (Seq<u8>, Seq<u8>);

/// The entries as byte strings.
pub open spec fn entries_view(entries: Seq<(&str, [u8; 32])>) -> Seq<Entry> {
    entries.map_values(|e: (&str, [u8; 32])| (encode_utf8(e.0@), e.1@))
}

/// Order of entries: by path, then by hash.
pub open spec fn entry_le(a: Entry, b: Entry) -> bool {
    if a.0 == b.0 {
        lex_le(a.1, b.1)
    } else {
        lex_le(a.0, b.0)
    }
}

/// [`entry_le`] as a relation.
pub open spec fn entry_order() -> spec_fn(Entry, Entry) -> bool {
    |a: Entry, b: Entry| entry_le(a, b)
}

/// The record of one entry.
pub open spec fn entry_record(e: Entry) -> Seq<u8> {
    seq![80u8] + le_bytes(e.0.len() % 0x1_0000_0000, 4) + e.0 + e.1
}

/// The records of all entries, in the given order.
pub open spec fn records(entries: Seq<Entry>) -> Seq<u8>
    decreases entries.len(),
{
    if entries.len() == 0 {
        Seq::<u8>::empty()
    } else {
        records(entries.drop_last()) + entry_record(entries.last())
    }
}

/// The byte stream whose hash is the package digest.
pub open spec fn package_stream(entries: Seq<Entry>, manifest_sha: Seq<u8>) -> Seq<u8> {
    records(entries.sort_by(entry_order())) + seq![77u8] + manifest_sha
}

pub proof fn lemma_entry_order_total()
    ensures
        total_ordering(entry_order()),
{
    let leq = entry_order();
    assert forall|a: Entry| #[trigger] leq(a, a) by {
        lemma_lex_total(a.1, a.1);
    }
    assert forall|a: Entry, b: Entry| #[trigger] leq(a, b) && #[trigger] leq(b, a) implies a
        == b by {
        lemma_lex_total(a.0, b.0);
        lemma_lex_total(a.1, b.1);
    }
    assert forall|a: Entry, b: Entry, c: Entry| #[trigger]
        leq(a, b) && #[trigger] leq(b, c) implies leq(a, c) by {
        if a.0 == b.0 && b.0 == c.0 {
            lemma_lex_transitive(a.1, b.1, c.1);
        } else {
            lemma_lex_total(a.0, b.0);
            lemma_lex_total(b.0, c.0);
            lemma_lex_transitive(a.0, b.0, c.0);
        }
    }
    assert forall|a: Entry, b: Entry| #[trigger] leq(a, b) || #[trigger] leq(b, a) by {
        lemma_lex_total(a.0, b.0);
        lemma_lex_total(a.1, b.1);
    }
}

proof fn lemma_insert_multiset<A>(s: Seq<A>, pos: int, x: A)
    requires
        0 <= pos <= s.len(),
    ensures
        s.insert(pos, x).to_multiset() == s.to_multiset().insert(x),
{
    let t = s.insert(pos, x);
    t.to_multiset_ensures();
    assert(t.remove(pos) =~= s);
    assert(t[pos] == x);
    assert(t.to_multiset().remove(x) == s.to_multiset());
    assert(t.contains(x));
    assert(t.to_multiset() =~= s.to_multiset().insert(x));
}

fn entry_not_after(a: &(&str, [u8; 32]), b: &(&str, [u8; 32])) -> (r: bool)
    ensures
        r == entry_le((encode_utf8(a.0@), a.1@), (encode_utf8(b.0@), b.1@)),
{
    let pa: &[u8] = a.0.as_bytes();
    let pb: &[u8] = b.0.as_bytes();
    if bytes_eq(pa, pb) {
        bytes_le(&a.1, &b.1)
    } else {
        bytes_le(pa, pb)
    }
}

fn sorted_entries<'a>(entries: &[(&'a str, [u8; 32])]) -> (r: Vec<(&'a str, [u8; 32])>)
    ensures
        entries_view(r@) == entries_view(entries@).sort_by(entry_order()),
{
    let ghost leq = entry_order();
    let ghost view = entries_view(entries@);
    proof {
        lemma_entry_order_total();
    }
    let mut out: Vec<(&'a str, [u8; 32])> = Vec::new();
    let mut i: usize = 0;
    assert(entries_view(out@) =~= view.take(0));
    while i < entries.len()
        invariant
            i <= entries@.len(),
            out@.len() == i,
            view == entries_view(entries@),
            leq == entry_order(),
            total_ordering(leq),
            sorted_by(entries_view(out@), leq),
            entries_view(out@).to_multiset() == view.take(i as int).to_multiset(),
        decreases entries@.len() - i,
    {
        let e: (&'a str, [u8; 32]) = entries[i];
        let ghost key = (encode_utf8(e.0@), e.1@);
        let ghost cur = entries_view(out@);
        let mut pos: usize = out.len();
        while pos > 0 && !entry_not_after(&out[pos - 1], &e)
            invariant
                pos <= out@.len(),
                cur == entries_view(out@),
                key == (encode_utf8(e.0@), e.1@),
                leq == entry_order(),
                forall|k: int| pos <= k < cur.len() ==> !leq(#[trigger] cur[k], key),
            decreases pos,
        {
            assert(cur[pos - 1] == (encode_utf8(out@[pos - 1].0@), out@[pos - 1].1@));
            pos = pos - 1;
        }
        proof {
            assert(forall|k: int| pos <= k < cur.len() ==> leq(key, #[trigger] cur[k]));
            if pos > 0 {
                assert(cur[pos - 1] == (encode_utf8(out@[pos - 1].0@), out@[pos - 1].1@));
                assert(leq(cur[pos - 1], key));
                assert forall|k: int| 0 <= k < pos implies leq(#[trigger] cur[k], key) by {
                    if k < pos - 1 {
                        assert(leq(cur[k], cur[pos - 1]));
                    }
                }
            }
        }
        out.insert(pos, e);
        proof {
            let now = entries_view(out@);
            assert(now =~= cur.insert(pos as int, key));
            lemma_insert_multiset(cur, pos as int, key);
            assert forall|k: int, l: int| 0 <= k < l < now.len() implies #[trigger] leq(
                now[k],
                now[l],
            ) by {
                let kk = if k < pos { k } else { k - 1 };
                let ll = if l < pos { l } else { l - 1 };
                if k == pos {
                    assert(now[l] == cur[ll]);
                } else if l == pos {
                    assert(now[k] == cur[kk]);
                } else {
                    assert(now[k] == cur[kk]);
                    assert(now[l] == cur[ll]);
                    assert(leq(cur[kk], cur[ll]));
                }
            }
            view.take(i as int).to_multiset_ensures();
            assert(view.take(i + 1) =~= view.take(i as int).push(key));
        }
        i += 1;
    }
    proof {
        assert(view.take(i as int) =~= view);
        view.lemma_sort_by_ensures(leq);
        lemma_sorted_unique(entries_view(out@), view.sort_by(leq), leq);
    }
    out
}

/// The digest that is signed and verified.
///
/// `entries` are the paths of the package with the sha256 of their contents;
/// `manifest_sha` is the blake3 of the manifest. The order of `entries` makes
/// no difference.
pub fn package_digest(entries: &[(&str, [u8; 32])], manifest_sha: [u8; 32]) -> (r: Digest)
    ensures
        r@ == blake3_256(package_stream(entries_view(entries@), manifest_sha@)),
{
    let sorted: Vec<(&str, [u8; 32])> = sorted_entries(entries);
    let ghost order = entries_view(sorted@);
    let mut h: blake3::Hasher = blake3::Hasher::new();
    let mut i: usize = 0;
    assert(order.take(0) =~= Seq::<Entry>::empty());
    while i < sorted.len()
        invariant
            i <= sorted@.len(),
            order == entries_view(sorted@),
            blake3_plain(h),
            blake3_fed(h) == records(order.take(i as int)),
        decreases sorted@.len() - i,
    {
        let e: &(&str, [u8; 32]) = &sorted[i];
        let path: &[u8] = e.0.as_bytes();
        let mut head: Vec<u8> = Vec::new();
        head.push(80u8);
        push_le(&mut head, (path.len() as u64) % 0x1_0000_0000, 4);
        let ghost fed = blake3_fed(h);
        Digest::feed(&mut h, head.as_slice());
        Digest::feed(&mut h, path);
        Digest::feed(&mut h, &e.1);
        proof {
            let key = order[i as int];
            assert(key == (encode_utf8(e.0@), e.1@));
            assert(head@ =~= seq![80u8] + le_bytes(key.0.len() % 0x1_0000_0000, 4));
            assert(blake3_fed(h) =~= fed + entry_record(key));
            assert(order.take(i + 1).drop_last() =~= order.take(i as int));
        }
        i += 1;
    }
    assert(order.take(i as int) =~= order);
    let tag: [u8; 1] = [77u8];
    Digest::feed(&mut h, &tag);
    Digest::feed(&mut h, &manifest_sha);
    assert(tag@ =~= seq![77u8]);
    Digest::from_hasher(&h)
}

/// The digest does not depend on the order in which the entries are given,
/// also where a path occurs more than once.
pub proof fn law_digest_ignores_order(a: Seq<Entry>, b: Seq<Entry>, manifest_sha: Seq<u8>)
    requires
        a.to_multiset() == b.to_multiset(),
    ensures
        package_stream(a, manifest_sha) == package_stream(b, manifest_sha),
{
    let leq = entry_order();
    lemma_entry_order_total();
    a.lemma_sort_by_ensures(leq);
    b.lemma_sort_by_ensures(leq);
    lemma_sorted_unique(a.sort_by(leq), b.sort_by(leq), leq);
}

/// An entry as a package can hold it.
pub open spec fn entry_ok(e: Entry) -> bool {
    e.0.len() < 0x1_0000_0000 && e.1.len() == 32
}

proof fn lemma_record_first(e: Entry, rest: Seq<u8>, f: Entry, rest2: Seq<u8>)
    requires
        entry_ok(e),
        entry_ok(f),
        entry_record(e) + rest == entry_record(f) + rest2,
    ensures
        e == f,
        rest == rest2,
{
    let s = entry_record(e) + rest;
    lemma_pow256_values();
    lemma_le_round_trip(e.0.len(), 4);
    lemma_le_round_trip(f.0.len(), 4);
    assert(s.subrange(1, 5) =~= le_bytes(e.0.len(), 4));
    assert((entry_record(f) + rest2).subrange(1, 5) =~= le_bytes(f.0.len(), 4));
    assert(e.0.len() == f.0.len());
    let n = e.0.len() as int;
    assert(s.subrange(5, 5 + n) =~= e.0);
    assert((entry_record(f) + rest2).subrange(5, 5 + n) =~= f.0);
    assert(s.subrange(5 + n, 37 + n) =~= e.1);
    assert((entry_record(f) + rest2).subrange(5 + n, 37 + n) =~= f.1);
    assert(s.skip(37 + n) =~= rest);
    assert((entry_record(f) + rest2).skip(37 + n) =~= rest2);
}

proof fn lemma_records_first(entries: Seq<Entry>)
    requires
        entries.len() > 0,
    ensures
        records(entries) == entry_record(entries[0]) + records(entries.drop_first()),
    decreases entries.len(),
{
    if entries.len() == 1 {
        assert(entries.drop_last() =~= Seq::<Entry>::empty());
        assert(entries.drop_first() =~= Seq::<Entry>::empty());
        assert(records(entries) =~= entry_record(entries[0]) + records(entries.drop_first()));
    } else {
        lemma_records_first(entries.drop_last());
        assert(entries.drop_last().drop_first() =~= entries.drop_first().drop_last());
        let a = entry_record(entries[0]);
        let b = records(entries.drop_first().drop_last());
        let c = entry_record(entries.last());
        assert(a + b + c =~= a + (b + c));
    }
}

proof fn lemma_stream_injective(a: Seq<Entry>, m: Seq<u8>, b: Seq<Entry>, n: Seq<u8>)
    requires
        forall|i: int| 0 <= i < a.len() ==> entry_ok(#[trigger] a[i]),
        forall|i: int| 0 <= i < b.len() ==> entry_ok(#[trigger] b[i]),
        records(a) + seq![77u8] + m == records(b) + seq![77u8] + n,
    ensures
        a == b,
        m == n,
    decreases a.len(),
{
    let s = records(a) + seq![77u8] + m;
    if a.len() == 0 {
        assert(s[0] == 77u8);
        if b.len() > 0 {
            lemma_records_first(b);
            assert((records(b) + seq![77u8] + n)[0] == 80u8);
        }
        assert(a =~= b);
        assert(s.skip(1) =~= m);
        assert((records(b) + seq![77u8] + n).skip(1) =~= n);
    } else {
        lemma_records_first(a);
        assert(s[0] == 80u8);
        if b.len() == 0 {
            assert((records(b) + seq![77u8] + n)[0] == 77u8);
        } else {
            lemma_records_first(b);
            let ra = records(a.drop_first()) + seq![77u8] + m;
            let rb = records(b.drop_first()) + seq![77u8] + n;
            assert(s =~= entry_record(a[0]) + ra);
            assert(records(b) + seq![77u8] + n =~= entry_record(b[0]) + rb);
            lemma_record_first(a[0], ra, b[0], rb);
            lemma_stream_injective(a.drop_first(), m, b.drop_first(), n);
            assert(a =~= seq![a[0]] + a.drop_first());
            assert(b =~= seq![b[0]] + b.drop_first());
        }
    }
}

/// Two packages with the same hashed stream hold the same entries and the same
/// manifest: nothing can be moved between paths, hashes and entries.
pub proof fn law_stream_has_no_collisions(a: Seq<Entry>, m: Seq<u8>, b: Seq<Entry>, n: Seq<u8>)
    requires
        forall|i: int| 0 <= i < a.len() ==> entry_ok(#[trigger] a[i]),
        forall|i: int| 0 <= i < b.len() ==> entry_ok(#[trigger] b[i]),
        package_stream(a, m) == package_stream(b, n),
    ensures
        a.to_multiset() == b.to_multiset(),
        m == n,
{
    let leq = entry_order();
    lemma_entry_order_total();
    a.lemma_sort_by_ensures(leq);
    b.lemma_sort_by_ensures(leq);
    let sa = a.sort_by(leq);
    let sb = b.sort_by(leq);
    assert forall|i: int| 0 <= i < sa.len() implies entry_ok(#[trigger] sa[i]) by {
        assert(sa.contains(sa[i]));
        assert(a.contains(sa[i]));
    }
    assert forall|i: int| 0 <= i < sb.len() implies entry_ok(#[trigger] sb[i]) by {
        assert(sb.contains(sb[i]));
        assert(b.contains(sb[i]));
    }
    lemma_stream_injective(sa, m, sb, n);
}

} // verus!
