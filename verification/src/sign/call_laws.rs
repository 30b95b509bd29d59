//! What callers of the signing code can rely on, told by what goes into a call
//! and what comes out of it.
use vstd::prelude::*;

use crate::sign::ed25519::{PublicKey, SecretKey};
use crate::sign::ring::{key_id, RingOfTrust};
use crate::sign::sig::PackageSignature;
use crate::sign::signer::{plan_keypair, sign_digest, KeyPairPlan};
use crate::sign::{sig, sigfile};
use crate::text::joined_path;
use crate::types::error::Res;
use crate::types::Digest;

verus! {

/// A ring that holds the key of a signer accepts what that signer has signed.
pub proof fn law_signed_is_accepted(
    d: Digest,
    key: SecretKey,
    public: PublicKey,
    ring: RingOfTrust,
    signature: [u8; 64],
    r: Res<()>,
)
    requires
        call_ensures(SecretKey::verifying_key, (&key,), public),
        call_ensures(sign_digest, (&d, &key), signature),
        ring@.contains(public@),
        call_ensures(RingOfTrust::verify, (&ring, &d, &signature), r),
    ensures
        r is Ok,
{
}

/// An empty ring accepts nothing.
pub proof fn law_empty_ring_accepts_nothing(
    ring: RingOfTrust,
    d: Digest,
    signature: [u8; 64],
    r: Res<()>,
)
    requires
        call_ensures(RingOfTrust::empty, (), ring),
        call_ensures(RingOfTrust::verify, (&ring, &d, &signature), r),
    ensures
        r is Err,
        r matches Err(e) ==> e@ is InvalidSignature,
{
}

/// A key that was added is in the ring, and so is every key that was in it
/// before.
pub proof fn law_added_key_is_in_the_ring(ring: &mut RingOfTrust, key: PublicKey, k: Seq<u8>)
    requires
        call_ensures(RingOfTrust::push, (ring, key), ()),
    ensures
        final(ring)@.contains(k) <==> old(ring)@.contains(k) || k == key@,
        final(ring)@.len() == old(ring)@.len() + 1,
        final(ring)@.last() == key@,
{
    let before = old(ring)@;
    assert(final(ring)@ == before.push(key@));
    if before.contains(k) {
        let i = choose|i: int| 0 <= i < before.len() && before[i] == k;
        assert(before.push(key@)[i] == k);
    }
    assert(before.push(key@)[before.len() as int] == key@);
}

/// A key that is offered to a ring is in it afterwards, once more only if it was
/// not there before; the answer says whether it was new.
pub proof fn law_offered_key_is_held_once(ring: &mut RingOfTrust, key: PublicKey, new: bool)
    requires
        call_ensures(RingOfTrust::push_unique, (ring, key), new),
    ensures
        final(ring)@.contains(key@),
        new <==> !old(ring)@.contains(key@),
        new ==> final(ring)@.len() == old(ring)@.len() + 1,
        !new ==> final(ring)@ == old(ring)@,
        old(ring)@.no_duplicates() ==> final(ring)@.no_duplicates(),
{
    let before = old(ring)@;
    if new {
        assert(before.push(key@)[before.len() as int] == key@);
    }
}

/// A key that was taken out is in the ring no more, and every other key is.
pub proof fn law_removed_key_is_gone(ring: &mut RingOfTrust, b: &[u8; 32], had: bool, k: Seq<u8>)
    requires
        call_ensures(RingOfTrust::remove_by_bytes, (ring, b), had),
    ensures
        !final(ring)@.contains(b@),
        had <==> old(ring)@.contains(b@),
        k != b@ ==> (final(ring)@.contains(k) <==> old(ring)@.contains(k)),
{
    let before = old(ring)@;
    let other = |x: Seq<u8>| x != b@;
    assert(final(ring)@ == before.filter(other));
    if before.filter(other).contains(k) {
        before.lemma_filter_contains_rev(other, k);
    }
    if before.filter(other).contains(b@) {
        let i = choose|i: int|
            0 <= i < before.filter(other).len() && before.filter(other)[i] == b@;
        before.lemma_filter_pred(other, i);
    }
    if k != b@ && before.contains(k) {
        let i = choose|i: int| 0 <= i < before.len() && before[i] == k;
        before.lemma_filter_contains(other, i);
    }
}

/// A ring that was written out is read back with the keys it had, in their
/// order.
pub proof fn law_ring_is_read_back(
    ring: RingOfTrust,
    bytes: Vec<u8>,
    bin: &[u8],
    r: Res<RingOfTrust>,
)
    requires
        crate::sign::ring::all_keys_ok(ring@),
        forall|i: int| 0 <= i < ring@.len() ==> (#[trigger] ring@[i]).len() == 32,
        ring@.len() < 0x1_0000_0000,
        call_ensures(RingOfTrust::to_bin, (&ring,), bytes),
        bin@ == bytes@,
        call_ensures(RingOfTrust::from_bin, (bin,), r),
    ensures
        r matches Ok(back) && back@ == ring@,
{
    crate::sign::ring::law_ring_round_trip(ring@);
}

/// The envelope of a signed package names the key that signed it, and is read
/// back as it was written.
pub proof fn law_envelope_is_read_back(
    s: PackageSignature,
    bytes: [u8; 106],
    b: &[u8],
    r: Res<PackageSignature>,
)
    requires
        call_ensures(PackageSignature::to_bytes, (&s,), bytes),
        b@ == bytes@,
        call_ensures(PackageSignature::parse, (b,), r),
    ensures
        r matches Ok(back) && back.key_id@ == s.key_id@ && back.sig@ == s.sig@,
{
    sig::law_envelope_round_trip(s@, bytes@);
}

/// The two files of a signature carry the same: what one form writes down of a
/// key and a signature, it gives back.
pub proof fn law_signature_file_is_read_back(
    key_id: Digest,
    signature: [u8; 64],
    s: sigfile::PackageSignature,
    bytes: [u8; 106],
    b: &[u8],
    r: Res<sigfile::PackageSignature>,
)
    requires
        call_ensures(sigfile::PackageSignature::from_parts, (key_id, signature), s),
        call_ensures(sigfile::PackageSignature::to_bytes, (&s,), bytes),
        b@ == bytes@,
        call_ensures(sigfile::PackageSignature::parse, (b,), r),
    ensures
        r matches Ok(back) && back@.key_id == key_id@ && back@.sig == signature@,
{
    sigfile::law_file_round_trip(s@, bytes@);
}

/// A signed package names its key by the digest of the public key.
pub proof fn law_signed_package_names_its_key(
    d: Digest,
    key: SecretKey,
    public: PublicKey,
    id: Digest,
    enveloped: PackageSignature,
)
    requires
        call_ensures(SecretKey::verifying_key, (&key,), public),
        call_ensures(key_id, (&public,), id),
        call_ensures(PackageSignature::sign, (&d, &key), enveloped),
    ensures
        enveloped.key_id@ == id@,
{
}

/// A new pair of keys never replaces one that is there. Its halves go to two
/// files of the same directory, the secret one to `signing.key` and the public
/// one to `signing.pub`.
pub proof fn law_key_pair_is_written_once(
    out_dir: &str,
    secret_exists: bool,
    public_exists: bool,
    key: SecretKey,
    public: PublicKey,
    public_bytes: [u8; 32],
    secret_bytes: [u8; 32],
    r: Res<KeyPairPlan>,
)
    requires
        call_ensures(SecretKey::verifying_key, (&key,), public),
        call_ensures(PublicKey::to_bytes, (&public,), public_bytes),
        call_ensures(SecretKey::to_bytes, (&key,), secret_bytes),
        call_ensures(plan_keypair, (out_dir, secret_exists, public_exists, &key), r),
    ensures
        r is Err <==> secret_exists || public_exists,
        r matches Ok(p) ==> {
            &&& p.files.secret_path@ == joined_path(out_dir@, "signing.key"@)
            &&& p.files.public_path@ == joined_path(out_dir@, "signing.pub"@)
            &&& p.secret@ == secret_bytes@
            &&& p.public@ == public_bytes@
        },
{
}

} // verus!
