//! Installing, updating, rolling back and removing applications.
//!
//! Files are moved and the registry is told by the caller; which changes are
//! made, and in which order, is decided here.
pub mod call_laws;
pub mod install_laws;
pub mod linked;
pub mod opts;
pub mod package;
pub mod report;
pub mod staged;
pub mod stages;
pub mod tree;
pub mod verify;

pub use opts::{InstallOpts, InstallOutcome, InstallPhase, InstallProgress, Phase};
pub use report::Installer;
