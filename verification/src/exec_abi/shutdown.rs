//! How an instance is shut down, step by step.
//!
//! The caller performs the action that a step asks for and hands back what
//! came of it. First the instance is asked to stop and given a grace period;
//! then the executor kills it; and if not even that is reported in time, the
//! death is recorded as the host's doing.
use vstd::prelude::*;

use crate::exec_abi::state::ExitStatus;

verus! {

/// How long to wait for the report of a kill, in milliseconds.
pub const KILL_SETTLE_MS: u64 = 500;

/// Why an instance is asked to stop.
#[derive(Debug, Clone, Copy, PartialEq, Eq, Structural)]
pub enum ShutdownReason {
    /// The user wants it: what a shutdown of the host always says.
    User,
    /// Any other reason. An instance acts on all of them alike.
    Other,
}

/// How far the shutdown has come.
#[derive(Debug, Clone, Copy, PartialEq, Eq, Structural)]
pub enum ShutdownPhase {
    /// Nothing done yet.
    Start,
    /// The request to stop is being sent.
    Courtesy,
    /// Waiting for the instance to stop by itself.
    Grace,
    /// The kill hook is being called.
    Kill,
    /// Waiting for the kill to be reported.
    Settle,
    /// The death is being recorded as the host's doing.
    Synthesis,
    /// Over.
    Finished,
}

/// What came of an action.
#[derive(Debug, Clone, Copy, PartialEq, Eq, Structural)]
pub enum ShutdownEvent {
    /// The terminal status as it is now (none while the instance lives).
    Terminal(Option<ExitStatus>),
    /// The request was sent, or could not be: the death watch decides.
    Sent,
    /// There is no kill hook.
    NoHook,
    /// The kill hook failed.
    HookFailed,
    /// The kill hook was called.
    Killed,
}

/// Why a shutdown fails.
#[derive(Debug, Clone, Copy, PartialEq, Eq, Structural)]
pub enum ShutdownError {
    /// The grace period passed, and the executor cannot kill.
    NoSignOfDeath,
    /// The kill hook failed.
    KillFailed,
    /// The terminal status is gone.
    TerminalLost,
}

/// What to do next.
#[derive(Debug, Clone, Copy, PartialEq, Eq)]
pub enum ShutdownAction {
    /// Send the request to stop, with this reason; report `Sent`.
    SendShutdown { reason: ShutdownReason },
    /// Wait for the terminal status during the grace period; report it.
    AwaitGrace,
    /// Call the kill hook; report `NoHook`, `HookFailed` or `Killed`.
    CallKill,
    /// Wait [`KILL_SETTLE_MS`] for the terminal status; report it.
    AwaitSettle,
    /// Emit a death by the host, then report the terminal status.
    EmitKilledByHost,
    /// Done.
    Return(Result<ExitStatus, ShutdownError>),
}

impl ShutdownError {
    /// The context text of the error.
    pub open spec fn context(self) -> Seq<char> {
        match self {
            ShutdownError::NoSignOfDeath =>
                "exec-abi: shutdown agotó el grace sin señal de muerte"@,
            ShutdownError::KillFailed => "exec-abi: kill hook falló tras el grace"@,
            ShutdownError::TerminalLost => "exec-abi: estado terminal perdido tras el kill"@,
        }
    }

    pub fn as_str(self) -> (r: &'static str)
        ensures
            r@ == self.context(),
    {
        match self {
            ShutdownError::NoSignOfDeath => "exec-abi: shutdown agotó el grace sin señal de muerte",
            ShutdownError::KillFailed => "exec-abi: kill hook falló tras el grace",
            ShutdownError::TerminalLost => "exec-abi: estado terminal perdido tras el kill",
        }
    }
}

/// The event is one that the phase can meet.
pub open spec fn answers(phase: ShutdownPhase, event: ShutdownEvent) -> bool {
    match phase {
        ShutdownPhase::Start => event is Terminal,
        ShutdownPhase::Courtesy => event is Sent,
        ShutdownPhase::Grace => event is Terminal,
        ShutdownPhase::Kill => event is NoHook || event is HookFailed || event is Killed,
        ShutdownPhase::Settle => event is Terminal,
        ShutdownPhase::Synthesis => event is Terminal,
        ShutdownPhase::Finished => false,
    }
}

/// The next phase and what to do in it.
pub open spec fn next_step(phase: ShutdownPhase, event: ShutdownEvent) -> (
    ShutdownPhase,
    ShutdownAction,
) {
    match (phase, event) {
        (_, ShutdownEvent::Terminal(Some(s))) => (
            ShutdownPhase::Finished,
            ShutdownAction::Return(Ok(s)),
        ),
        (ShutdownPhase::Start, _) => (
            ShutdownPhase::Courtesy,
            ShutdownAction::SendShutdown { reason: ShutdownReason::User },
        ),
        (ShutdownPhase::Courtesy, _) => (ShutdownPhase::Grace, ShutdownAction::AwaitGrace),
        (ShutdownPhase::Grace, _) => (ShutdownPhase::Kill, ShutdownAction::CallKill),
        (ShutdownPhase::Kill, ShutdownEvent::NoHook) => (
            ShutdownPhase::Finished,
            ShutdownAction::Return(Err(ShutdownError::NoSignOfDeath)),
        ),
        (ShutdownPhase::Kill, ShutdownEvent::HookFailed) => (
            ShutdownPhase::Finished,
            ShutdownAction::Return(Err(ShutdownError::KillFailed)),
        ),
        (ShutdownPhase::Kill, _) => (ShutdownPhase::Settle, ShutdownAction::AwaitSettle),
        (ShutdownPhase::Settle, _) => (
            ShutdownPhase::Synthesis,
            ShutdownAction::EmitKilledByHost,
        ),
        (_, _) => (
            ShutdownPhase::Finished,
            ShutdownAction::Return(Err(ShutdownError::TerminalLost)),
        ),
    }
}

/// Decides the next step of a shutdown.
pub fn shutdown_step(phase: ShutdownPhase, event: ShutdownEvent) -> (r: (
    ShutdownPhase,
    ShutdownAction,
))
    requires
        answers(phase, event),
    ensures
        r == next_step(phase, event),
{
    match event {
        ShutdownEvent::Terminal(Some(s)) => {
            return (ShutdownPhase::Finished, ShutdownAction::Return(Ok(s)));
        },
        _ => {},
    }
    match phase {
        ShutdownPhase::Start => (
            ShutdownPhase::Courtesy,
            ShutdownAction::SendShutdown { reason: ShutdownReason::User },
        ),
        ShutdownPhase::Courtesy => (ShutdownPhase::Grace, ShutdownAction::AwaitGrace),
        ShutdownPhase::Grace => (ShutdownPhase::Kill, ShutdownAction::CallKill),
        ShutdownPhase::Kill => match event {
            ShutdownEvent::NoHook => (
                ShutdownPhase::Finished,
                ShutdownAction::Return(Err(ShutdownError::NoSignOfDeath)),
            ),
            ShutdownEvent::HookFailed => (
                ShutdownPhase::Finished,
                ShutdownAction::Return(Err(ShutdownError::KillFailed)),
            ),
            _ => (ShutdownPhase::Settle, ShutdownAction::AwaitSettle),
        },
        ShutdownPhase::Settle => (ShutdownPhase::Synthesis, ShutdownAction::EmitKilledByHost),
        ShutdownPhase::Synthesis => (
            ShutdownPhase::Finished,
            ShutdownAction::Return(Err(ShutdownError::TerminalLost)),
        ),
        ShutdownPhase::Finished => (
            ShutdownPhase::Finished,
            ShutdownAction::Return(Err(ShutdownError::TerminalLost)),
        ),
    }
}

/// Position of a phase in the order in which phases are passed.
pub open spec fn rank(phase: ShutdownPhase) -> nat {
    match phase {
        ShutdownPhase::Start => 0,
        ShutdownPhase::Courtesy => 1,
        ShutdownPhase::Grace => 2,
        ShutdownPhase::Kill => 3,
        ShutdownPhase::Settle => 4,
        ShutdownPhase::Synthesis => 5,
        ShutdownPhase::Finished => 6,
    }
}

/// Every step moves forward, so a shutdown ends after at most six of them.
pub proof fn law_shutdown_ends(phase: ShutdownPhase, event: ShutdownEvent)
    requires
        answers(phase, event),
    ensures
        rank(next_step(phase, event).0) > rank(phase),
        next_step(phase, event).0 == ShutdownPhase::Finished <==> next_step(phase, event).1
            is Return,
{
}

/// An instance that is dead already is reported as it died: nothing is sent,
/// nothing is killed.
pub proof fn law_shutdown_of_the_dead_is_idle(s: ExitStatus)
    ensures
        next_step(ShutdownPhase::Start, ShutdownEvent::Terminal(Some(s))) == (
            ShutdownPhase::Finished,
            ShutdownAction::Return(Ok::<ExitStatus, ShutdownError>(s)),
        ),
{
}

/// A shutdown asks a living instance to stop, for the user, and asks only once.
pub proof fn law_shutdown_asks_once_for_the_user(phase: ShutdownPhase, event: ShutdownEvent)
    requires
        answers(phase, event),
    ensures
        next_step(phase, event).1 is SendShutdown <==> phase is Start && event
            == ShutdownEvent::Terminal(None::<ExitStatus>),
        next_step(phase, event).1 matches ShutdownAction::SendShutdown { reason } ==> reason
            == ShutdownReason::User,
        next_step(phase, event).0 !is Start,
{
}

/// What the kill hook did.
pub enum HookOutcome {
    Missing,
    Failed,
    Called,
}

/// What a whole shutdown returns: the status at the start, after the grace
/// period, after the kill, and after the death was recorded, whichever comes
/// first.
pub open spec fn shutdown_outcome(
    at_start: Option<ExitStatus>,
    after_grace: Option<ExitStatus>,
    hook: HookOutcome,
    after_kill: Option<ExitStatus>,
    at_end: Option<ExitStatus>,
) -> Result<ExitStatus, ShutdownError> {
    match (at_start, after_grace, hook, after_kill, at_end) {
        (Some(s), _, _, _, _) => Ok(s),
        (_, Some(s), _, _, _) => Ok(s),
        (_, _, HookOutcome::Missing, _, _) => Err(ShutdownError::NoSignOfDeath),
        (_, _, HookOutcome::Failed, _, _) => Err(ShutdownError::KillFailed),
        (_, _, _, Some(s), _) => Ok(s),
        (_, _, _, _, Some(s)) => Ok(s),
        _ => Err(ShutdownError::TerminalLost),
    }
}

/// The result that following the steps from `phase` on leads to.
pub open spec fn run_from(
    phase: ShutdownPhase,
    at_start: Option<ExitStatus>,
    after_grace: Option<ExitStatus>,
    hook: HookOutcome,
    after_kill: Option<ExitStatus>,
    at_end: Option<ExitStatus>,
) -> Result<ExitStatus, ShutdownError>
    decreases 6 - rank(phase),
{
    let event = match phase {
        ShutdownPhase::Start => ShutdownEvent::Terminal(at_start),
        ShutdownPhase::Courtesy => ShutdownEvent::Sent,
        ShutdownPhase::Grace => ShutdownEvent::Terminal(after_grace),
        ShutdownPhase::Kill => match hook {
            HookOutcome::Missing => ShutdownEvent::NoHook,
            HookOutcome::Failed => ShutdownEvent::HookFailed,
            HookOutcome::Called => ShutdownEvent::Killed,
        },
        ShutdownPhase::Settle => ShutdownEvent::Terminal(after_kill),
        _ => ShutdownEvent::Terminal(at_end),
    };
    let (next, action) = next_step(phase, event);
    match action {
        ShutdownAction::Return(r) => r,
        _ => if rank(next) > rank(phase) {
            run_from(next, at_start, after_grace, hook, after_kill, at_end)
        } else {
            Err(ShutdownError::TerminalLost)
        },
    }
}

/// Following the steps gives the outcome of the shutdown; with a working kill
/// hook and a recorded death it always succeeds.
pub proof fn law_shutdown_outcome(
    at_start: Option<ExitStatus>,
    after_grace: Option<ExitStatus>,
    hook: HookOutcome,
    after_kill: Option<ExitStatus>,
    at_end: Option<ExitStatus>,
)
    ensures
        run_from(ShutdownPhase::Start, at_start, after_grace, hook, after_kill, at_end)
            == shutdown_outcome(at_start, after_grace, hook, after_kill, at_end),
        hook is Called && at_end is Some ==> shutdown_outcome(
            at_start,
            after_grace,
            hook,
            after_kill,
            at_end,
        ) is Ok,
{
    reveal_with_fuel(run_from, 7);
}

/// A shutdown goes from asking to force in this order: the instance is asked,
/// then given its grace, and only when that brought no death is it killed; only
/// when the kill was not reported in time either is the death recorded as the
/// host's doing. A status that turns up at any moment is returned as it is.
pub proof fn law_force_comes_after_grace(phase: ShutdownPhase, event: ShutdownEvent)
    requires
        answers(phase, event),
    ensures
        event matches ShutdownEvent::Terminal(Some(s)) ==> next_step(phase, event).1
            == ShutdownAction::Return(Ok::<ExitStatus, ShutdownError>(s)),
        next_step(phase, event).1 is AwaitGrace <==> phase is Courtesy,
        next_step(phase, event).1 is CallKill <==> phase is Grace && event
            == ShutdownEvent::Terminal(None::<ExitStatus>),
        next_step(phase, event).1 is AwaitSettle <==> phase is Kill && event is Killed,
        next_step(phase, event).1 is EmitKilledByHost <==> phase is Settle && event
            == ShutdownEvent::Terminal(None::<ExitStatus>),
        next_step(phase, event).1 == ShutdownAction::Return(
            Err::<ExitStatus, ShutdownError>(ShutdownError::NoSignOfDeath),
        ) <==> phase is Kill && event is NoHook,
        next_step(phase, event).1 == ShutdownAction::Return(
            Err::<ExitStatus, ShutdownError>(ShutdownError::KillFailed),
        ) <==> phase is Kill && event is HookFailed,
        next_step(phase, event).0 is Courtesy <==> next_step(phase, event).1 is SendShutdown,
        next_step(phase, event).0 is Grace <==> next_step(phase, event).1 is AwaitGrace,
        next_step(phase, event).0 is Kill <==> next_step(phase, event).1 is CallKill,
        next_step(phase, event).0 is Settle <==> next_step(phase, event).1 is AwaitSettle,
        next_step(phase, event).0 is Synthesis <==> next_step(phase, event).1 is EmitKilledByHost,
{
}

/// Which answers a phase can meet: a status where it looks or waits, the news
/// that the request is out where it asks, and what the hook did where it kills.
pub proof fn law_phases_meet_their_answers(phase: ShutdownPhase, event: ShutdownEvent)
    ensures
        event is Terminal ==> (answers(phase, event) <==> phase is Start || phase is Grace
            || phase is Settle || phase is Synthesis),
        event is Sent ==> (answers(phase, event) <==> phase is Courtesy),
        event is NoHook || event is HookFailed || event is Killed ==> (answers(phase, event)
            <==> phase is Kill),
{
}

} // verus!
