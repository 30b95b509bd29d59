//! The contract between the host and the execution backends: what is launched,
//! the life cycle of an instance and how it is shut down.
use vstd::prelude::*;

pub mod call_laws;
pub mod handle;
pub mod shutdown;
pub mod spec;
pub mod state;

pub use handle::HandleMachine;
pub use spec::{AppDirs, AppSpec, ArtifactRef, RespawnPolicy};
pub use state::{AppEvent, AppState, DeathReason, ExitStatus};

verus! {

/// Canonical name of the native executor.
pub const EXECUTOR_NAME_NATIVE: &'static str = "native";

/// Canonical name of the wasm executor on WAMR.
pub const EXECUTOR_NAME_WASM_WAMR: &'static str = "wasm-wamr";

/// Canonical name of the wasm executor on wasmtime.
pub const EXECUTOR_NAME_WASM_WASMTIME: &'static str = "wasm-wasmtime";

} // verus!
