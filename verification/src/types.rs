//! Identities, versions, capabilities, digests and the shared error type.
use vstd::prelude::*;

pub mod call_laws;
pub mod caps;
pub mod digest;
pub mod error;
pub mod ids;
pub mod time;
pub mod version;

pub use caps::Capability;
pub use digest::Digest;
pub use error::{ArcaError, IoError, IoErrorKind, Res};
pub use ids::{AppId, InstanceId, SessionId, WinId};
pub use version::ProtoVersion;

verus! {

/// The protocol version this code speaks (AIPC-1.0).
pub fn proto_version() -> (r: ProtoVersion)
    ensures
        r == (ProtoVersion { major: 1, minor: 0 }),
{
    ProtoVersion { major: 1, minor: 0 }
}

} // verus!
