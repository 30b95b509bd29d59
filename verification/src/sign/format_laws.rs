//! What holds of signatures, rings and the verification of packages, byte by
//! byte and step by step.
use vstd::prelude::*;

use crate::assoc::{has_key, value_of};
use crate::bytes::{
    comes_before, law_order_goes_byte_by_byte, le_bytes, le_value, lemma_le_bytes_len,
    lemma_le_value_bytes, lemma_pow256_values,
};
use crate::sign::digest::{entry_order, lemma_entry_order_total, package_stream, records, Entry};
use crate::sign::ed25519::{ed25519_key_ok, ed25519_verifies};
use crate::sign::ring::{keys_bytes, ring_accepts, ring_bytes, ring_parse};
use crate::sign::sha256::sha256;
use crate::sign::sig::{envelope_bytes, envelope_parse, SignatureView};
use crate::sign::sigfile::{file_bytes, file_parse};
use crate::sign::stream::{end_file_step, feed_step, verdict, VerifierView};
use crate::types::digest::blake3_256;

verus! {

/// A ring accepts what one of its keys accepts: it is enough that one key does,
/// joining rings joins what they accept, and a ring without keys accepts
/// nothing.
pub proof fn law_any_key_of_the_ring_will_do(
    a: Seq<Seq<u8>>,
    b: Seq<Seq<u8>>,
    key: Seq<u8>,
    msg: Seq<u8>,
    sig: Seq<u8>,
)
    ensures
        !ring_accepts(Seq::empty(), msg, sig),
        ring_accepts(seq![key], msg, sig) <==> ed25519_verifies(key, msg, sig),
        ring_accepts(a + b, msg, sig) <==> ring_accepts(a, msg, sig) || ring_accepts(b, msg, sig),
{
    let all = a + b;
    if ring_accepts(a, msg, sig) {
        let i = choose|i: int| 0 <= i < a.len() && ed25519_verifies(#[trigger] a[i], msg, sig);
        assert(ed25519_verifies(all[i], msg, sig));
    }
    if ring_accepts(b, msg, sig) {
        let i = choose|i: int| 0 <= i < b.len() && ed25519_verifies(#[trigger] b[i], msg, sig);
        assert(ed25519_verifies(all[a.len() + i], msg, sig));
    }
    if ring_accepts(all, msg, sig) {
        let i = choose|i: int| 0 <= i < all.len() && ed25519_verifies(#[trigger] all[i], msg, sig);
        if i < a.len() {
            assert(ed25519_verifies(a[i], msg, sig));
        } else {
            assert(ed25519_verifies(b[i - a.len()], msg, sig));
        }
    }
    if ed25519_verifies(key, msg, sig) {
        assert(ed25519_verifies(seq![key][0], msg, sig));
    }
}

/// The form of a ring: the number of keys in four bytes, least significant
/// first, and the keys one behind the other.
pub proof fn law_form_of_a_ring(keys: Seq<Seq<u8>>, key: Seq<u8>)
    ensures
        keys.len() < 0x1_0000_0000 ==> ring_bytes(keys).take(4) == le_bytes(keys.len(), 4),
        ring_bytes(keys).skip(4) == keys_bytes(keys),
        keys_bytes(Seq::empty()) == Seq::<u8>::empty(),
        keys_bytes(keys.push(key)) == keys_bytes(keys) + key,
{
    lemma_le_bytes_len(keys.len() % 0x1_0000_0000, 4);
    assert(ring_bytes(keys).take(4) =~= le_bytes(keys.len() % 0x1_0000_0000, 4));
    assert(ring_bytes(keys).skip(4) =~= keys_bytes(keys));
    assert(keys.push(key).drop_last() =~= keys);
}

/// A binary form is a ring exactly if its length agrees with the number of keys
/// that it announces and each of them is a key; the keys are then read in turn.
pub proof fn law_which_rings_are_read(bin: Seq<u8>)
    ensures
        ring_parse(bin) is Ok <==> bin.len() >= 4 && bin.len() == 4 + 32 * le_value(
            bin.subrange(0, 4),
        ) && forall|i: int|
            0 <= i < le_value(bin.subrange(0, 4)) ==> ed25519_key_ok(
                #[trigger] bin.subrange(4 + 32 * i, 4 + 32 * i + 32),
            ),
        ring_parse(bin) matches Ok(keys) ==> keys.len() == le_value(bin.subrange(0, 4)) && forall|
            i: int,
        |
            0 <= i < keys.len() ==> #[trigger] keys[i] == bin.subrange(4 + 32 * i, 4 + 32 * i + 32),
{
    let n = le_value(bin.subrange(0, 4));
    let keys = crate::sign::ring::keys_in(bin, n);
    assert forall|i: int| 0 <= i < n implies #[trigger] keys[i] == bin.subrange(
        4 + 32 * i,
        4 + 32 * i + 32,
    ) by {}
    if bin.len() >= 4 && bin.len() == 4 + 32 * n {
        if ring_parse(bin) is Ok {
            assert forall|i: int| 0 <= i < n implies ed25519_key_ok(
                #[trigger] bin.subrange(4 + 32 * i, 4 + 32 * i + 32),
            ) by {
                assert(ed25519_key_ok(keys[i]));
            }
        }
    }
}

/// The form of a signature envelope: the mark `ARCASIG1`, the version 1 in two
/// bytes, the identity of the key, and the signature.
pub proof fn law_form_of_an_envelope(v: SignatureView, b: Seq<u8>)
    ensures
        envelope_bytes(v) == seq![65u8, 82u8, 67u8, 65u8, 83u8, 73u8, 71u8, 49u8, 1u8, 0u8]
            + v.key_id + v.sig,
        envelope_parse(b) is Ok <==> b.len() == 106 && b.take(10) == seq![
            65u8,
            82u8,
            67u8,
            65u8,
            83u8,
            73u8,
            71u8,
            49u8,
            1u8,
            0u8,
        ],
        envelope_parse(b) matches Ok(w) ==> w.key_id == b.subrange(10, 42) && w.sig == b.subrange(
            42,
            106,
        ),
{
    let mark = seq![65u8, 82u8, 67u8, 65u8, 83u8, 73u8, 71u8, 49u8];
    let one = seq![1u8, 0u8];
    assert(le_bytes(1, 2) =~= one) by {
        reveal_with_fuel(le_bytes, 3);
    }
    assert(mark + one =~= seq![65u8, 82u8, 67u8, 65u8, 83u8, 73u8, 71u8, 49u8, 1u8, 0u8]);
    if b.len() == 106 {
        assert(b.take(10) =~= b.subrange(0, 8) + b.subrange(8, 10));
        assert(b.take(10).subrange(0, 8) =~= b.subrange(0, 8));
        assert(b.take(10).subrange(8, 10) =~= b.subrange(8, 10));
        assert((mark + one).subrange(0, 8) =~= mark);
        assert((mark + one).subrange(8, 10) =~= one);
        lemma_le_value_bytes(b.subrange(8, 10));
        lemma_le_value_bytes(one);
        crate::bytes::lemma_pow256_values();
        crate::bytes::lemma_le_round_trip(1, 2);
        assert(le_value(one) == 1);
    }
}

/// The form of a signature file: the mark `ARCA-SIG1`, the version 1 in one
/// byte, the identity of the key, and the signature.
pub proof fn law_form_of_a_signature_file(v: SignatureView, b: Seq<u8>)
    ensures
        file_bytes(v) == seq![65u8, 82u8, 67u8, 65u8, 45u8, 83u8, 73u8, 71u8, 49u8, 1u8]
            + v.key_id + v.sig,
        file_parse(b) is Ok <==> b.len() == 106 && b.take(10) == seq![
            65u8,
            82u8,
            67u8,
            65u8,
            45u8,
            83u8,
            73u8,
            71u8,
            49u8,
            1u8,
        ],
        file_parse(b) matches Ok(w) ==> w.key_id == b.subrange(10, 42) && w.sig == b.subrange(
            42,
            106,
        ),
{
    let mark = seq![65u8, 82u8, 67u8, 65u8, 45u8, 83u8, 73u8, 71u8, 49u8];
    assert(mark + seq![1u8] =~= seq![65u8, 82u8, 67u8, 65u8, 45u8, 83u8, 73u8, 71u8, 49u8, 1u8]);
    if b.len() == 106 {
        assert(b.take(10) =~= b.subrange(0, 9) + seq![b[9]]);
        assert(b.take(10).subrange(0, 9) =~= b.subrange(0, 9));
        assert(b.take(10)[9] == b[9]);
        assert((mark + seq![1u8]).subrange(0, 9) =~= mark);
    }
}

/// The record of an entry in the hashed stream: the letter P, the length of the
/// path in four bytes, least significant first, the path, and the hash.
pub proof fn law_form_of_a_record(before: Seq<Entry>, path: Seq<u8>, hash: Seq<u8>)
    requires
        path.len() < 0x1_0000_0000,
    ensures
        records(Seq::empty()) == Seq::<u8>::empty(),
        records(before.push((path, hash))) == records(before) + seq![80u8] + le_bytes(path.len(), 4)
            + path + hash,
{
    let all = before.push((path, hash));
    assert(all.drop_last() =~= before);
    assert(records(all) =~= records(before) + seq![80u8] + le_bytes(path.len(), 4) + path + hash);
}

/// The hashed stream holds every entry once, by path from the first byte on and
/// by hash where paths are equal, then the letter M and the digest of the
/// manifest.
pub proof fn law_stream_goes_by_path(entries: Seq<Entry>, manifest_sha: Seq<u8>)
    ensures
        exists|list: Seq<Entry>| #[trigger]
            list.to_multiset() == entries.to_multiset() && package_stream(entries, manifest_sha)
                == records(list) + seq![77u8] + manifest_sha && forall|i: int, j: int|
                0 <= i < j < list.len() ==> comes_before(
                    (#[trigger] list[i]).0,
                    (#[trigger] list[j]).0,
                ) || (list[i].0 == list[j].0 && (list[i].1 == list[j].1 || comes_before(
                    list[i].1,
                    list[j].1,
                ))),
{
    let leq = entry_order();
    lemma_entry_order_total();
    entries.lemma_sort_by_ensures(leq);
    let list = entries.sort_by(leq);
    assert forall|i: int, j: int| 0 <= i < j < list.len() implies comes_before(
        (#[trigger] list[i]).0,
        (#[trigger] list[j]).0,
    ) || (list[i].0 == list[j].0 && (list[i].1 == list[j].1 || comes_before(
        list[i].1,
        list[j].1,
    ))) by {
        assert(leq(list[i], list[j]));
        law_order_goes_byte_by_byte(list[i].0, list[j].0);
        law_order_goes_byte_by_byte(list[i].1, list[j].1);
    }
    assert(list.to_multiset() == entries.to_multiset());
}

/// A package is accepted exactly if every file that is still open has the
/// declared hash, the manifest came in with its digest, every declared file came
/// in, and the ring accepts the signature of the package digest.
pub proof fn law_verdict_is_good_iff_all_is_right(v: VerifierView)
    ensures
        verdict(v) is Ok <==> (forall|p: Seq<char>| #[trigger]
            v.open.dom().contains(p) ==> sha256(v.open[p]) == value_of(v.expected, p))
            && v.manifest_fed && (forall|i: int|
            0 <= i < v.expected.len() ==> v.open.dom().contains((#[trigger] v.expected[i]).0)
                || v.done.dom().contains(v.expected[i].0)) && blake3_256(v.manifest)
            == v.manifest_sha && ring_accepts(
            v.keys,
            blake3_256(package_stream(v.entries(), v.manifest_sha)),
            v.sig,
        ),
{
}

/// A piece of the manifest goes behind what came of it, until the manifest is
/// closed; no other file changes.
pub proof fn law_manifest_is_collected(v: VerifierView, chunk: Seq<u8>)
    ensures
        feed_step(v, "manifest.toml"@, chunk).1 is Ok <==> !v.manifest_closed,
        !v.manifest_closed ==> feed_step(v, "manifest.toml"@, chunk).0 == (VerifierView {
            manifest: v.manifest + chunk,
            manifest_fed: true,
            ..v
        }),
        v.manifest_closed ==> feed_step(v, "manifest.toml"@, chunk).0 == v,
        end_file_step(v, "manifest.toml"@).1 is Ok,
        end_file_step(v, "manifest.toml"@).0 == (VerifierView { manifest_closed: true, ..v }),
{
}

/// A piece of a declared file goes behind what came of that file; no other file
/// changes, and neither does anything else that was seen.
pub proof fn law_files_are_collected(v: VerifierView, path: Seq<char>, chunk: Seq<u8>)
    requires
        path != "manifest.toml"@,
        has_key(v.expected, path),
        !v.done.dom().contains(path),
    ensures
        ({
            let (w, r) = feed_step(v, path, chunk);
            &&& r is Ok
            &&& w == (VerifierView { open: w.open, ..v })
            &&& w.open.dom().contains(path)
            &&& v.open.dom().contains(path) ==> w.open[path] == v.open[path] + chunk
            &&& !v.open.dom().contains(path) ==> w.open[path] == chunk
            &&& forall|p: Seq<char>|
                p != path ==> (#[trigger] w.open.dom().contains(p) <==> v.open.dom().contains(p))
                    && (v.open.dom().contains(p) ==> w.open[p] == v.open[p])
        }),
{
    assert(Seq::<u8>::empty() + chunk =~= chunk);
}

/// Closing a file holds what came of it against the declared hash: with the
/// right hash the file is done with its contents, with another one it is
/// refused; either way it is no longer open, and no other file changes.
pub proof fn law_closing_checks_the_hash(v: VerifierView, path: Seq<char>)
    requires
        path != "manifest.toml"@,
        v.open.dom().contains(path),
    ensures
        ({
            let (w, r) = end_file_step(v, path);
            let right = sha256(v.open[path]) == value_of(v.expected, path);
            &&& r is Ok <==> right
            &&& w == (VerifierView { open: v.open.remove(path), done: w.done, ..v })
            &&& right ==> w.done == v.done.insert(path, v.open[path])
            &&& !right ==> w.done == v.done
        }),
{
}

/// A file that is not open can be closed only if it is done already; that
/// changes nothing.
pub proof fn law_closing_again_changes_nothing(v: VerifierView, path: Seq<char>)
    requires
        path != "manifest.toml"@,
        !v.open.dom().contains(path),
    ensures
        end_file_step(v, path).0 == v,
        end_file_step(v, path).1 is Ok <==> v.done.dom().contains(path),
{
}

} // verus!
