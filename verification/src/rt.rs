//! The runtime inside a native application: who it is, and how the frame loop
//! answers ticks and control messages.
pub mod call_laws;
pub mod context;
pub mod context_laws;
pub mod identity;
pub mod ping;

pub use context::AppCtx;
