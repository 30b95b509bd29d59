//! What callers of the executor interface can rely on, told by what goes into a
//! call and what comes out of it.
use vstd::prelude::*;

use crate::exec_abi::handle::HandleMachine;
use crate::exec_abi::shutdown::{
    shutdown_step, ShutdownAction, ShutdownError, ShutdownEvent, ShutdownPhase,
};
use crate::exec_abi::state::{AppEvent, AppState, DeathReason, ExitStatus};
use crate::types::error::Res;

verus! {

/// Once a death is reported no event of the instance is taken any more; until
/// then every event is but a second start.
pub proof fn law_death_is_the_last_word(m: &mut HandleMachine, ev: AppEvent, taken: bool)
    requires
        old(m).wf(),
        old(m).stream().len() > 0,
        call_ensures(HandleMachine::emit, (m, ev), taken),
    ensures
        taken <==> !(old(m).stream().last() is Dead) && !(ev is Spawned),
        !taken ==> final(m).stream() == old(m).stream(),
        taken ==> final(m).stream() == old(m).stream().push(ev),
{
}

/// The first death that is reported is taken and tells its reason; a later one
/// changes nothing.
pub proof fn law_first_death_counts(
    m: &mut HandleMachine,
    reason: DeathReason,
    minidump: Option<String>,
    taken: bool,
)
    requires
        old(m).wf(),
        old(m).stream().len() > 0,
        call_ensures(HandleMachine::report_death, (m, reason, minidump), taken),
    ensures
        taken <==> !(old(m).stream().last() is Dead),
        taken ==> final(m).stream().last() == (AppEvent::Dead { reason, minidump }),
        !taken ==> final(m).stream() == old(m).stream(),
        final(m).stream().last() is Dead,
{
}

/// An event that is taken waits for every receiver, behind what waited for it
/// already.
pub proof fn law_events_reach_every_receiver(
    m: &mut HandleMachine,
    ev: AppEvent,
    taken: bool,
    id: int,
)
    requires
        old(m).wf(),
        0 <= id < old(m).receivers(),
        call_ensures(HandleMachine::emit, (m, ev), taken),
    ensures
        taken ==> final(m).waiting(id) == old(m).waiting(id) + seq![ev],
        !taken ==> final(m).waiting(id) == old(m).waiting(id),
        final(m).given(id) == old(m).given(id),
{
    assert(old(m).waiting(id).push(ev) =~= old(m).waiting(id) + seq![ev]);
}

/// A receiver is handed what waited for it, once, and nobody else's.
pub proof fn law_events_are_handed_out_once(
    m: &mut HandleMachine,
    id: usize,
    out: Vec<AppEvent>,
    other: int,
)
    requires
        old(m).wf(),
        id < old(m).receivers(),
        0 <= other < old(m).receivers(),
        other != id,
        call_ensures(HandleMachine::drain, (m, id), out),
    ensures
        out@ == old(m).waiting(id as int),
        final(m).waiting(id as int).len() == 0,
        final(m).waiting(other) == old(m).waiting(other),
        final(m).stream() == old(m).stream(),
{
    assert(final(m).given(other) == old(m).given(other));
}

/// The state is that of the last event that changes it.
pub proof fn law_state_follows_the_events(m: HandleMachine, state: AppState)
    requires
        m.wf(),
        m.stream().len() > 0,
        call_ensures(HandleMachine::state, (&m,), state),
    ensures
        m.stream().last() is Ready ==> state is Ready,
        m.stream().last() is Paused ==> state is Paused,
        m.stream().last() is Resumed ==> state is Running,
        m.stream().last() matches AppEvent::Dead { reason, .. } ==> state == (AppState::Dead {
            reason,
        }),
{
}

/// The dead have an exit status, and only they do: the code of an exit, the
/// signal of a kill, which is 9 where the host did it, and -1 of the lost.
pub proof fn law_exit_status_of_the_dead(m: HandleMachine, status: Option<ExitStatus>)
    requires
        m.wf(),
        m.stream().len() > 0,
        call_ensures(HandleMachine::terminal, (&m,), status),
    ensures
        status is Some <==> m.stream().last() is Dead,
        m.stream().last() matches AppEvent::Dead { reason, .. } ==> match reason {
            DeathReason::Exit { code } => status->0.code == code && status->0.signal is None,
            DeathReason::Signaled { signal } => status->0.code == 0 && status->0.signal == Some(
                signal,
            ),
            DeathReason::KilledByHost => status->0.code == 0 && (status->0.signal matches Some(s)
                && s == 9),
            DeathReason::Lost => status->0.code == -1 && status->0.signal is None,
        },
{
}

/// Messages can be sent to an instance until it is dead.
pub proof fn law_the_dead_get_no_messages(m: HandleMachine, r: Res<()>)
    requires
        m.wf(),
        m.stream().len() > 0,
        call_ensures(HandleMachine::check_send, (&m,), r),
    ensures
        r is Err <==> m.stream().last() is Dead,
{
}

/// A shutdown step that finds the instance dead ends with its status, whatever
/// came before; none kills but after the grace has passed, and none makes up a
/// death but after the kill had time to settle.
pub proof fn law_shutdown_step_by_step(
    phase: ShutdownPhase,
    event: ShutdownEvent,
    r: (ShutdownPhase, ShutdownAction),
)
    requires
        crate::exec_abi::shutdown::answers(phase, event),
        call_ensures(shutdown_step, (phase, event), r),
    ensures
        event matches ShutdownEvent::Terminal(Some(s)) ==> r.1 == ShutdownAction::Return(Ok(s)),
        r.1 is CallKill <==> phase is Grace && event == ShutdownEvent::Terminal(None),
        r.1 is EmitKilledByHost <==> phase is Settle && event == ShutdownEvent::Terminal(None),
        r.1 is SendShutdown <==> phase is Start && event == ShutdownEvent::Terminal(None),
        r.1 is AwaitGrace <==> phase is Courtesy,
        r.1 is AwaitSettle <==> phase is Kill && event is Killed,
        r.0 is Finished <==> r.1 is Return,
{
}

/// Why a shutdown failed, in words.
pub proof fn law_words_of_a_failed_shutdown(e: ShutdownError, text: &'static str)
    requires
        call_ensures(ShutdownError::as_str, (e,), text),
    ensures
        e is NoSignOfDeath ==> text@ == "exec-abi: shutdown agotó el grace sin señal de muerte"@,
        e is KillFailed ==> text@ == "exec-abi: kill hook falló tras el grace"@,
        e is TerminalLost ==> text@ == "exec-abi: estado terminal perdido tras el kill"@,
{
}

} // verus!
