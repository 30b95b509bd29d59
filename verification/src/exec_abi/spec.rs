//! What an executor needs to launch an instance.
use vstd::prelude::*;

use crate::types::{AppId, Capability, Digest, InstanceId};

verus! {

/// What the host does after an instance died.
#[derive(Debug, Clone, Copy, PartialEq, Eq, Structural)]
pub enum RespawnPolicy {
    /// Leave it dead.
    Never,
    /// Start it again after a crash.
    OnCrash,
    /// Start it again in any case.
    Always,
}

impl RespawnPolicy {
    /// Canonical name.
    pub open spec fn name(self) -> Seq<char> {
        match self {
            RespawnPolicy::Never => "never"@,
            RespawnPolicy::OnCrash => "on-crash"@,
            RespawnPolicy::Always => "always"@,
        }
    }

    pub fn as_str(self) -> (r: &'static str)
        ensures
            r@ == self.name(),
    {
        match self {
            RespawnPolicy::Never => "never",
            RespawnPolicy::OnCrash => "on-crash",
            RespawnPolicy::Always => "always",
        }
    }
}

/// The executable of an instance.
#[derive(Debug, PartialEq, Eq)]
pub struct ArtifactRef {
    /// Absolute path on disk.
    pub path: String,
    /// blake3 of its contents.
    pub hash: Digest,
    /// Size in bytes.
    pub size_bytes: u64,
}

/// Private directories of an instance.
#[derive(Debug, PartialEq, Eq)]
pub struct AppDirs {
    /// The installed application (read-only for the instance).
    pub app_dir: String,
    /// Private data.
    pub vault_dir: String,
}

/// Everything an executor needs to launch an instance.
#[derive(Debug, PartialEq, Eq)]
pub struct AppSpec {
    pub app_id: AppId,
    /// Instance number given by the host.
    pub instance: InstanceId,
    pub artifact: ArtifactRef,
    /// Capabilities that were granted.
    pub caps: Vec<Capability>,
    pub dirs: AppDirs,
    /// What the host does when the instance dies.
    pub respawn: RespawnPolicy,
    /// Whether the application paints synchronously.
    pub sync_ui: bool,
}

/// The names of the policies.
pub proof fn law_names_of_policies()
    ensures
        RespawnPolicy::Never.name() == "never"@,
        RespawnPolicy::OnCrash.name() == "on-crash"@,
        RespawnPolicy::Always.name() == "always"@,
{
}

} // verus!
