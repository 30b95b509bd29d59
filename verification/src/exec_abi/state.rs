//! Life-cycle states, causes of death, terminal status and events.
use vstd::prelude::*;
use vstd::std_specs::convert::FromSpecImpl;

verus! {

/// Phase of the life of an instance, as the host sees it.
#[derive(Debug, Clone, Copy, PartialEq, Eq, Structural)]
pub enum AppState {
    /// Spawn accepted; handshake under way.
    Spawning,
    /// The runtime is ready for ticks.
    Ready,
    /// The frame loop is active.
    Running,
    /// Frozen by the host.
    Paused,
    /// Terminal.
    Dead { reason: DeathReason },
}

/// Why an instance died.
#[derive(Debug, Clone, Copy, PartialEq, Eq, Structural)]
pub enum DeathReason {
    /// It ended by itself.
    Exit { code: i32 },
    /// A signal killed it.
    Signaled { signal: i32 },
    /// Its trace was lost: it is taken for dead.
    Lost,
    /// The host killed it on purpose.
    KilledByHost,
}

/// Observed terminal status. With a signal, `code` is unused (0).
#[derive(Debug, Clone, Copy, PartialEq, Eq, Structural)]
pub struct ExitStatus {
    pub code: i32,
    pub signal: Option<i32>,
}

/// The terminal status that goes with a cause of death.
pub open spec fn status_of(reason: DeathReason) -> ExitStatus {
    match reason {
        DeathReason::Exit { code } => ExitStatus { code, signal: None },
        DeathReason::Signaled { signal } => ExitStatus { code: 0, signal: Some(signal) },
        DeathReason::Lost => ExitStatus { code: (-1) as i32, signal: None },
        DeathReason::KilledByHost => ExitStatus { code: 0, signal: Some(9) },
    }
}

impl ExitStatus {
    /// Whether the instance ended well: exit code 0 and no signal.
    pub fn success(&self) -> (r: bool)
        ensures
            r == (self.signal is None && self.code == 0),
    {
        self.signal.is_none() && self.code == 0
    }
}

impl From<DeathReason> for ExitStatus {
    fn from(reason: DeathReason) -> (r: ExitStatus) {
        match reason {
            DeathReason::Exit { code } => ExitStatus { code, signal: None },
            DeathReason::Signaled { signal } => ExitStatus { code: 0, signal: Some(signal) },
            DeathReason::Lost => ExitStatus { code: -1, signal: None },
            DeathReason::KilledByHost => ExitStatus { code: 0, signal: Some(9) },
        }
    }
}

impl FromSpecImpl<DeathReason> for ExitStatus {
    open spec fn obeys_from_spec() -> bool {
        true
    }

    open spec fn from_spec(reason: DeathReason) -> ExitStatus {
        status_of(reason)
    }
}

/// Only an exit with code 0 counts as success: neither a signal, nor a lost
/// trace, nor a kill by the host does.
pub proof fn law_success_means_clean_exit(reason: DeathReason)
    ensures
        (status_of(reason).signal is None && status_of(reason).code == 0) <==> reason
            == (DeathReason::Exit { code: 0 }),
{
}

/// Event of the life-cycle and health stream of an instance.
#[derive(Debug, PartialEq, Eq)]
pub enum AppEvent {
    /// Spawn accepted: always the first event.
    Spawned,
    /// The process said hello. The instance is still spawning.
    Hello,
    /// The runtime is ready.
    Ready,
    /// The host froze the frame loop.
    Paused,
    /// The host resumed it.
    Resumed,
    /// Terminal: arrives once, and nothing after it.
    Dead { reason: DeathReason, minidump: Option<String> },
    /// Pings go unanswered. Health, not life cycle.
    Unhealthy { since_ms: u64 },
    /// Frames stand still. Health, not life cycle.
    FrameStalled { frames: u64 },
}

impl AppEvent {
    /// The same event again.
    pub fn duplicate(&self) -> (r: AppEvent)
        ensures
            r == *self,
    {
        match self {
            AppEvent::Spawned => AppEvent::Spawned,
            AppEvent::Hello => AppEvent::Hello,
            AppEvent::Ready => AppEvent::Ready,
            AppEvent::Paused => AppEvent::Paused,
            AppEvent::Resumed => AppEvent::Resumed,
            AppEvent::Dead { reason, minidump } => {
                let dump: Option<String> = match minidump {
                    Some(m) => Some(m.clone()),
                    None => None,
                };
                AppEvent::Dead { reason: *reason, minidump: dump }
            },
            AppEvent::Unhealthy { since_ms } => AppEvent::Unhealthy { since_ms: *since_ms },
            AppEvent::FrameStalled { frames } => AppEvent::FrameStalled { frames: *frames },
        }
    }
}

/// What is left of a death: the code of an exit, the number of a signal, code
/// -1 for a lost trace, and signal 9 for a kill by the host.
pub proof fn law_status_tells_the_death(code: i32, signal: i32)
    ensures
        status_of(DeathReason::Exit { code }).code == code,
        status_of(DeathReason::Exit { code }).signal is None,
        status_of(DeathReason::Signaled { signal }).code == 0,
        status_of(DeathReason::Signaled { signal }).signal == Some(signal),
        status_of(DeathReason::Lost).code == -1,
        status_of(DeathReason::Lost).signal is None,
        status_of(DeathReason::KilledByHost).code == 0,
        status_of(DeathReason::KilledByHost).signal == Some(9i32),
{
}

} // verus!
