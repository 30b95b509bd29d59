//! Package signing: the canonical package digest, the ring of trusted keys,
//! signature envelopes and verification while extracting.
use vstd::prelude::*;

pub mod call_laws;
pub mod digest;
pub mod ed25519;
pub mod format_laws;
pub mod ring;
pub mod sha256;
pub mod sig;
pub mod sigfile;
pub mod signer;
pub mod stream;

pub use digest::package_digest;
pub use ed25519::{PublicKey, SecretKey};
pub use ring::RingOfTrust;
pub use sig::PackageSignature;
pub use signer::{keygen, sign_digest, KeyFiles};
pub use stream::StreamingVerifier;

verus! {

/// Path of the signature inside a package.
pub const SIGNATURE_PATH: &'static str = "meta/signature.bin";

/// Path of the manifest inside a package.
pub const MANIFEST_PATH: &'static str = "manifest.toml";

/// Path of the manifest's control digest inside a package.
pub const MANIFEST_DIGEST_PATH: &'static str = "meta/manifest.digest";

} // verus!
