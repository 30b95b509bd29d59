//! The signature envelope of a package.
//!
//! ```text
//! "ARCASIG1"  version u16 = 1  key id (blake3, 32 bytes)  signature (64 bytes)
//! ```
use vstd::prelude::*;

use crate::bytes::{
    array_32, array_64, bytes_eq, le_bytes, le_value, lemma_le_round_trip, lemma_le_value_bytes,
    lemma_pow256_values, push_bytes, push_le, read_le,
};
use crate::sign::ed25519::{ed25519_signature, ed25519_verifies, SecretKey};
use crate::sign::ring::key_id;
use crate::sign::signer::sign_digest;
use crate::types::digest::{blake3_256, Digest};
use crate::types::error::{ArcaError, ErrorView, Res};

verus! {

/// Version of the envelope.
pub const SIG_VERSION: u16 = 1;

/// Exact length of an envelope.
pub const SIG_LEN: usize = 106;

/// `"ARCASIG1"`.
pub open spec fn sig_magic() -> Seq<u8> {
    seq![65u8, 82u8, 67u8, 65u8, 83u8, 73u8, 71u8, 49u8]
}

fn sig_magic_bytes() -> (r: [u8; 8])
    ensures
        r@ == sig_magic(),
{
    let r: [u8; 8] = [65u8, 82u8, 67u8, 65u8, 83u8, 73u8, 71u8, 49u8];
    assert(r@ =~= sig_magic());
    r
}

/// Detached signature of a package.
#[derive(Debug, Clone, Copy, PartialEq, Eq)]
pub struct PackageSignature {
    /// Identity of the signing key. Informative: nothing is accepted on it.
    pub key_id: Digest,
    /// ed25519 signature over the package digest.
    pub sig: [u8; 64],
}

/// The contents of an envelope: key identity and signature.
pub struct SignatureView {
    pub key_id: Seq<u8>,
    pub sig: Seq<u8>,
}

impl View for PackageSignature {
    type V = SignatureView;

    open spec fn view(&self) -> SignatureView {
        SignatureView { key_id: self.key_id@, sig: self.sig@ }
    }
}

/// The bytes of an envelope.
pub open spec fn envelope_bytes(v: SignatureView) -> Seq<u8> {
    sig_magic() + le_bytes(SIG_VERSION as nat, 2) + v.key_id + v.sig
}

/// What an envelope says, or why it is refused.
pub open spec fn envelope_parse(b: Seq<u8>) -> Result<SignatureView, ErrorView> {
    if b.len() != SIG_LEN {
        Err(ErrorView::InvalidPackage("signature.bin: longitud incorrecta"@))
    } else if b.subrange(0, 8) != sig_magic() {
        Err(ErrorView::InvalidPackage("signature.bin: magic incorrecto"@))
    } else if le_value(b.subrange(8, 10)) != SIG_VERSION {
        Err(ErrorView::InvalidPackage("signature.bin: versión no soportada"@))
    } else {
        Ok(SignatureView { key_id: b.subrange(10, 42), sig: b.subrange(42, 106) })
    }
}

impl PackageSignature {
    /// Signs a package digest.
    pub fn sign(digest: &Digest, key: &SecretKey) -> (r: PackageSignature)
        ensures
            r@.key_id == blake3_256(key.public()),
            r@.sig == ed25519_signature(key.secret(), digest@),
            ed25519_verifies(key.public(), digest@, r@.sig),
    {
        PackageSignature { key_id: key_id(&key.verifying_key()), sig: sign_digest(digest, key) }
    }

    /// The 106 bytes of the envelope.
    pub fn to_bytes(&self) -> (r: [u8; 106])
        ensures
            r@ == envelope_bytes(self@),
    {
        let mut out: Vec<u8> = Vec::with_capacity(SIG_LEN);
        push_bytes(&mut out, &sig_magic_bytes());
        push_le(&mut out, SIG_VERSION as u64, 2);
        push_bytes(&mut out, self.key_id.as_bytes());
        push_bytes(&mut out, &self.sig);
        assert(out@ =~= envelope_bytes(self@));
        proof {
            lemma_pow256_values();
            lemma_le_round_trip(SIG_VERSION as nat, 2);
        }
        array_106(out.as_slice())
    }

    /// Reads an envelope: exact length, magic and version.
    pub fn parse(b: &[u8]) -> (r: Res<PackageSignature>)
        ensures
            match r {
                Ok(s) => envelope_parse(b@) == Ok::<SignatureView, ErrorView>(s@),
                Err(e) => envelope_parse(b@) == Err::<SignatureView, ErrorView>(e@),
            },
    {
        if b.len() != SIG_LEN {
            return Err(ArcaError::InvalidPackage("signature.bin: longitud incorrecta"));
        }
        if !bytes_eq(vstd::slice::slice_subrange(b, 0, 8), &sig_magic_bytes()) {
            return Err(ArcaError::InvalidPackage("signature.bin: magic incorrecto"));
        }
        if read_le(b, 8, 2) != SIG_VERSION as u64 {
            return Err(ArcaError::InvalidPackage("signature.bin: versión no soportada"));
        }
        Ok(PackageSignature { key_id: Digest(array_32(b, 10)), sig: array_64(b, 42) })
    }

    /// The signature, for [`crate::sign::RingOfTrust::verify`].
    pub fn sig_bytes(&self) -> (r: &[u8; 64])
        ensures
            r@ == self@.sig,
    {
        &self.sig
    }
}

/// The first 106 bytes of `b`.
pub(crate) fn array_106(b: &[u8]) -> (r: [u8; 106])
    requires
        b@.len() == 106,
    ensures
        r@ == b@,
{
    let mut out: [u8; 106] = [0u8; 106];
    let mut i: usize = 0;
    while i < 106
        invariant
            i <= 106,
            b@.len() == 106,
            forall|k: int| 0 <= k < i ==> out@[k] == b@[k],
        decreases 106 - i,
    {
        out[i] = b[i];
        i += 1;
    }
    assert(out@ =~= b@);
    out
}

/// Reading an envelope gives back what was written, and an accepted envelope
/// is the one its contents produce.
pub proof fn law_envelope_round_trip(v: SignatureView, b: Seq<u8>)
    requires
        v.key_id.len() == 32,
        v.sig.len() == 64,
    ensures
        envelope_bytes(v).len() == SIG_LEN,
        envelope_parse(envelope_bytes(v)) == Ok::<SignatureView, ErrorView>(v),
        envelope_parse(b) matches Ok(w) ==> envelope_bytes(w) == b,
{
    let e = envelope_bytes(v);
    lemma_pow256_values();
    lemma_le_round_trip(SIG_VERSION as nat, 2);
    assert(e.subrange(0, 8) =~= sig_magic());
    assert(e.subrange(8, 10) =~= le_bytes(SIG_VERSION as nat, 2));
    assert(e.subrange(10, 42) =~= v.key_id);
    assert(e.subrange(42, 106) =~= v.sig);
    if envelope_parse(b) is Ok {
        let w = envelope_parse(b)->Ok_0;
        lemma_le_value_bytes(b.subrange(8, 10));
        assert(envelope_bytes(w) =~= b.subrange(0, 8) + b.subrange(8, 10) + b.subrange(10, 42)
            + b.subrange(42, 106));
        assert(envelope_bytes(w) =~= b);
    }
}

} // verus!
