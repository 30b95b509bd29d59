//! Native instances: the plan of a launch, the launcher, the watch over a
//! running instance, its bus and its output.
pub mod bus;
pub mod call_laws;
pub mod drain;
pub mod launch_laws;
pub mod launcher;
pub mod masks;
pub mod plan;
pub mod spec;
pub mod spec_laws;
pub mod watch;

pub use bus::ConnBus;
pub use plan::NativeProcessExec;
pub use spec::{validar_env_extra, LaunchSpec};
