//! The signature file that the packaging tools write next to a package.
//!
//! ```text
//! "ARCA-SIG1" (9 bytes)  version u8 = 1  key id (32 bytes)  signature (64 bytes)
//! ```
//!
//! The key id is not covered by the signature: trust comes from the ring alone.
use vstd::prelude::*;

use crate::bytes::{array_32, array_64, bytes_eq, push_bytes};
use crate::sign::ed25519::PublicKey;
use crate::sign::ring::{key_id, ring_accepts, RingOfTrust};
use crate::sign::sig::{array_106, SignatureView};
use crate::types::digest::{blake3_256, Digest};
use crate::types::error::{fails, ArcaError, ErrorView, IoError, IoErrorKind, Res};

verus! {

/// Version of the file format.
pub const SIG_VERSION: u8 = 1;

/// Exact size of the file.
pub const SIG_FILE_BYTES: usize = 106;

/// `"ARCA-SIG1"`.
pub open spec fn file_magic() -> Seq<u8> {
    seq![65u8, 82u8, 67u8, 65u8, 45u8, 83u8, 73u8, 71u8, 49u8]
}

fn file_magic_bytes() -> (r: [u8; 9])
    ensures
        r@ == file_magic(),
{
    let r: [u8; 9] = [65u8, 82u8, 67u8, 65u8, 45u8, 83u8, 73u8, 71u8, 49u8];
    assert(r@ =~= file_magic());
    r
}

/// Detached signature of a package.
#[derive(Debug, Clone, Copy, PartialEq, Eq)]
pub struct PackageSignature {
    key_id: Digest,
    sig: [u8; 64],
}

impl View for PackageSignature {
    type V = SignatureView;

    closed spec fn view(&self) -> SignatureView {
        SignatureView { key_id: self.key_id@, sig: self.sig@ }
    }
}

/// The bytes of the file.
pub open spec fn file_bytes(v: SignatureView) -> Seq<u8> {
    file_magic() + seq![SIG_VERSION] + v.key_id + v.sig
}

/// What a file says, or why it is refused.
pub open spec fn file_parse(b: Seq<u8>) -> Result<SignatureView, ErrorView> {
    if b.len() != SIG_FILE_BYTES {
        Err(
            ErrorView::Io(
                IoErrorKind::InvalidData,
                "signature: longitud != ARCA-SIG1 (106 bytes)"@,
            ),
        )
    } else if b.subrange(0, 9) != file_magic() {
        Err(ErrorView::Io(IoErrorKind::InvalidData, "signature: magic != ARCA-SIG1"@))
    } else if b[9] != SIG_VERSION {
        Err(ErrorView::Io(IoErrorKind::InvalidData, "signature: versión no soportada"@))
    } else {
        Ok(SignatureView { key_id: b.subrange(10, 42), sig: b.subrange(42, 106) })
    }
}

impl PackageSignature {
    pub fn from_parts(key_id: Digest, sig: [u8; 64]) -> (r: PackageSignature)
        ensures
            r@ == (SignatureView { key_id: key_id@, sig: sig@ }),
    {
        PackageSignature { key_id, sig }
    }

    /// Reads a file: exact length, magic and version.
    pub fn parse(bytes: &[u8]) -> (r: Res<PackageSignature>)
        ensures
            match r {
                Ok(s) => file_parse(bytes@) == Ok::<SignatureView, ErrorView>(s@),
                Err(e) => file_parse(bytes@) == Err::<SignatureView, ErrorView>(e@),
            },
    {
        if bytes.len() != SIG_FILE_BYTES {
            return Err(
                ArcaError::Io(
                    IoError::invalid_data("signature: longitud != ARCA-SIG1 (106 bytes)"),
                ),
            );
        }
        if !bytes_eq(vstd::slice::slice_subrange(bytes, 0, 9), &file_magic_bytes()) {
            return Err(ArcaError::Io(IoError::invalid_data("signature: magic != ARCA-SIG1")));
        }
        if bytes[9] != SIG_VERSION {
            return Err(ArcaError::Io(IoError::invalid_data("signature: versión no soportada")));
        }
        Ok(PackageSignature { key_id: Digest(array_32(bytes, 10)), sig: array_64(bytes, 42) })
    }

    /// The 106 bytes of the file.
    pub fn to_bytes(&self) -> (r: [u8; 106])
        ensures
            r@ == file_bytes(self@),
    {
        let mut out: Vec<u8> = Vec::with_capacity(SIG_FILE_BYTES);
        push_bytes(&mut out, &file_magic_bytes());
        out.push(SIG_VERSION);
        push_bytes(&mut out, self.key_id.as_bytes());
        push_bytes(&mut out, &self.sig);
        assert(out@ =~= file_bytes(self@));
        array_106(out.as_slice())
    }

    /// The declared key id: a hint, not a root of trust.
    pub fn key_id(&self) -> (r: &Digest)
        ensures
            r@ == self@.key_id,
    {
        &self.key_id
    }

    /// The signature.
    pub fn sig(&self) -> (r: &[u8; 64])
        ensures
            r@ == self@.sig,
    {
        &self.sig
    }

    /// Whether the declared key id is that of `key`.
    pub fn declares_key(&self, key: &PublicKey) -> (r: bool)
        ensures
            r == (self@.key_id == blake3_256(key@)),
    {
        let id: Digest = key_id(key);
        bytes_eq(self.key_id.as_bytes(), id.as_bytes())
    }

    /// Checks the signature of a package digest against the ring.
    pub fn verify(&self, digest: &Digest, ring: &RingOfTrust) -> (r: Res<()>)
        ensures
            r is Ok <==> ring_accepts(ring@, digest@, self@.sig),
            r is Err ==> fails(r, ErrorView::InvalidSignature),
    {
        ring.verify(digest, &self.sig)
    }
}

/// Reading a signature file gives back what was written, and an accepted file
/// is the one its contents produce.
pub proof fn law_file_round_trip(v: SignatureView, b: Seq<u8>)
    requires
        v.key_id.len() == 32,
        v.sig.len() == 64,
    ensures
        file_bytes(v).len() == SIG_FILE_BYTES,
        file_parse(file_bytes(v)) == Ok::<SignatureView, ErrorView>(v),
        file_parse(b) matches Ok(w) ==> file_bytes(w) == b,
{
    let e = file_bytes(v);
    assert(e.subrange(0, 9) =~= file_magic());
    assert(e[9] == SIG_VERSION);
    assert(e.subrange(10, 42) =~= v.key_id);
    assert(e.subrange(42, 106) =~= v.sig);
    if file_parse(b) is Ok {
        let w = file_parse(b)->Ok_0;
        assert(file_bytes(w) =~= b.subrange(0, 9) + b.subrange(9, 10) + b.subrange(10, 42)
            + b.subrange(42, 106));
        assert(file_bytes(w) =~= b);
    }
}

} // verus!
