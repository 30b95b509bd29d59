//! Key generation and signing, for the packaging side.
use vstd::prelude::*;

use crate::sign::ed25519::{ed25519_signature, ed25519_verifies, PublicKey, SecretKey};
use crate::sign::ring::{key_id, ring_accepts};
use crate::sign::sig::PackageSignature;
use crate::text::{join_path, joined_path};
use crate::types::digest::{blake3_256, Digest};
use crate::types::error::{fails, ArcaError, ErrorView, IoError, IoErrorKind, Res};

verus! {

/// `getrandom::fill` on 32 bytes: random bytes of the system, or the text of
/// its error. Nothing is known of the bytes.
#[verifier::external_body]
fn random_32() -> (r: Result<[u8; 32], String>) {
    let mut seed = [0u8; 32];
    match getrandom::fill(&mut seed) {
        Ok(()) => Ok(seed),
        Err(e) => Err(e.to_string()),
    }
}

/// The key made of the random bytes, or the failure to get them.
pub fn key_from_random(random: Result<[u8; 32], String>) -> (r: Res<SecretKey>)
    ensures
        match random {
            Ok(seed) => r matches Ok(k) && k.secret() == seed@,
            Err(text) => fails(r, ErrorView::Io(IoErrorKind::Other, text@)),
        },
{
    match random {
        Ok(seed) => Ok(SecretKey::from_bytes(&seed)),
        Err(text) => Err(ArcaError::Io(IoError { kind: IoErrorKind::Other, text })),
    }
}

/// A fresh key from the random numbers of the system.
pub fn keygen() -> (r: Res<SecretKey>)
    ensures
        r matches Err(e) ==> (e@ matches ErrorView::Io(k, _) && k == IoErrorKind::Other),
{
    key_from_random(random_32())
}

/// Signs a package digest. Every ring that holds the key accepts the result.
pub fn sign_digest(d: &Digest, key: &SecretKey) -> (r: [u8; 64])
    ensures
        r@ == ed25519_signature(key.secret(), d@),
        ed25519_verifies(key.public(), d@, r@),
        forall|keys: Seq<Seq<u8>>|
            keys.contains(key.public()) ==> #[trigger] ring_accepts(keys, d@, r@),
{
    let r: [u8; 64] = key.sign(d.as_bytes());
    assert forall|keys: Seq<Seq<u8>>| keys.contains(key.public()) implies #[trigger] ring_accepts(
        keys,
        d@,
        r@,
    ) by {
        let i = choose|i: int| 0 <= i < keys.len() && keys[i] == key.public();
        assert(ed25519_verifies(keys[i], d@, r@));
    }
    r
}

/// Signs a package digest and wraps the signature in its envelope.
pub fn sign_package(d: &Digest, key: &SecretKey) -> (r: PackageSignature)
    ensures
        r@.key_id == blake3_256(key.public()),
        r@.sig == ed25519_signature(key.secret(), d@),
        ed25519_verifies(key.public(), d@, r@.sig),
{
    PackageSignature::sign(d, key)
}

/// The files of a key pair.
pub struct KeyFiles {
    /// The secret key (32 bytes, readable by its owner only).
    pub secret_path: String,
    /// The public key (32 bytes).
    pub public_path: String,
    /// Identity of the key.
    pub key_id: Digest,
}

/// Where a key pair is kept, and what its files hold.
pub struct KeyPairPlan {
    pub files: KeyFiles,
    pub secret: [u8; 32],
    pub public: [u8; 32],
}

/// Permissions of the secret key file.
pub const SECRET_MODE: u32 = 0o600;

/// Refuses to make a key pair where a file of one is there already.
pub fn check_no_keypair(secret_exists: bool, public_exists: bool) -> (r: Res<()>)
    ensures
        r is Ok <==> !secret_exists && !public_exists,
        r is Err ==> fails(
            r,
            ErrorView::InvalidPackage("generate_keypair: ya existe un par (no se sobreescribe)"@),
        ),
{
    if secret_exists || public_exists {
        Err(ArcaError::InvalidPackage("generate_keypair: ya existe un par (no se sobreescribe)"))
    } else {
        Ok(())
    }
}

/// Decides how a fresh key pair is stored in `out_dir`. An existing pair is
/// never overwritten.
pub fn plan_keypair(
    out_dir: &str,
    secret_exists: bool,
    public_exists: bool,
    key: &SecretKey,
) -> (r: Res<KeyPairPlan>)
    ensures
        r is Ok <==> !secret_exists && !public_exists,
        r is Err ==> fails(
            r,
            ErrorView::InvalidPackage("generate_keypair: ya existe un par (no se sobreescribe)"@),
        ),
        r matches Ok(p) ==> {
            &&& p.files.secret_path@ == joined_path(out_dir@, "signing.key"@)
            &&& p.files.public_path@ == joined_path(out_dir@, "signing.pub"@)
            &&& p.files.key_id@ == blake3_256(key.public())
            &&& p.secret@ == key.secret()
            &&& p.public@ == key.public()
        },
{
    match check_no_keypair(secret_exists, public_exists) {
        Ok(()) => {},
        Err(e) => {
            return Err(e);
        },
    }
    let public: PublicKey = key.verifying_key();
    Ok(
        KeyPairPlan {
            files: KeyFiles {
                secret_path: join_path(out_dir, "signing.key"),
                public_path: join_path(out_dir, "signing.pub"),
                key_id: key_id(&public),
            },
            secret: key.to_bytes(),
            public: public.to_bytes(),
        },
    )
}

} // verus!
