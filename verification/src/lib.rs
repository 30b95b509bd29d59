//! The Arca application platform: identities, package signing, execution,
//! installation, bookkeeping, the in-process runtime and the drawing kit.
//!
//! Every decision of the platform lives in this crate as a function on plain
//! values with a proved contract; reading files, talking to sockets and
//! spawning processes is left to the code that calls it.
use vstd::prelude::*;

pub mod assoc;
pub mod bytes;
pub mod exec_abi;
pub mod exec_native;
pub mod installer;
pub mod pick;
pub mod pkg;
pub mod rt;
pub mod sign;
pub mod store;
pub mod text;
pub mod trim;
pub mod types;
pub mod ui;

verus! {

} // verus!
