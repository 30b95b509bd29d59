//! The watch over a running instance: handshake, then its death, and the host
//! that may let go of it in between.
use vstd::prelude::*;

use crate::exec_abi::state::DeathReason;
use crate::exec_native::masks::{caps_from_bits, caps_in};
use crate::exec_native::spec::LaunchSpec;
use crate::types::error::{ErrorView, Res};
use crate::types::ids::{app_id_len_ok, app_id_ok};
use crate::types::{AppId, Capability, Digest, InstanceId};

verus! {

/// How often the watch looks whether the host still holds the handle.
pub const DETACH_POLL_MS: u64 = 250;

/// How long the watch waits for the death of an instance it killed.
pub const REAP_AFTER_KILL_MS: u64 = 2000;

/// The identity that an instance has to prove in the handshake.
pub struct HelloExpect {
    pub app_id: AppId,
    pub instance: InstanceId,
    pub artifact_hash: Digest,
}

/// The identity and the capabilities of a launch, or why it has no valid
/// identity.
pub fn watch_start(spec: &LaunchSpec) -> (r: Res<(HelloExpect, Vec<Capability>)>)
    ensures
        r is Ok <==> app_id_ok(spec.app_id@),
        r matches Ok((expect, caps)) ==> expect.app_id@ == spec.app_id@
            && expect.instance.value() == spec.instance && expect.artifact_hash@ == spec.artifact@
            && caps@ == caps_in(spec.caps_bits),
        r matches Err(e) ==> e@ == (if !app_id_len_ok(spec.app_id@) {
            ErrorView::Internal("AppId: longitud debe ser 3..=64"@)
        } else {
            ErrorView::Internal("AppId: solo [a-z0-9.]"@)
        }),
{
    match AppId::new(spec.app_id.as_str()) {
        Ok(app_id) => Ok(
            (
                HelloExpect {
                    app_id,
                    instance: InstanceId::new(spec.instance),
                    artifact_hash: Digest(spec.artifact),
                },
                caps_from_bits(spec.caps_bits),
            ),
        ),
        Err(e) => Err(e),
    }
}

/// How a process ended, as the system reports it.
#[derive(Debug, Clone, Copy, PartialEq, Eq, Structural)]
pub enum WaitStatus {
    Exited(i32),
    Signaled(i32),
    /// Anything else.
    Other,
}

/// What a report of the system means for the instance.
pub open spec fn death_of(status: WaitStatus) -> DeathReason {
    match status {
        WaitStatus::Exited(code) => DeathReason::Exit { code },
        WaitStatus::Signaled(signal) => DeathReason::Signaled { signal },
        WaitStatus::Other => DeathReason::Lost,
    }
}

/// What a report of the system means for the instance.
pub fn death_reason(status: WaitStatus) -> (r: DeathReason)
    ensures
        r == death_of(status),
{
    match status {
        WaitStatus::Exited(code) => DeathReason::Exit { code },
        WaitStatus::Signaled(signal) => DeathReason::Signaled { signal },
        WaitStatus::Other => DeathReason::Lost,
    }
}

/// What is left of an instance whose kill did not succeed: it is lost.
pub fn after_kill(delivered: bool) -> (r: Option<DeathReason>)
    ensures
        r == (if delivered {
            None::<DeathReason>
        } else {
            Some(DeathReason::Lost)
        }),
{
    if delivered {
        None
    } else {
        Some(DeathReason::Lost)
    }
}

/// How far the watch has come.
#[derive(Debug, Clone, Copy, PartialEq, Eq, Structural)]
pub enum WatchPhase {
    /// The instance has not proved its identity yet.
    Handshake,
    /// The instance runs.
    Watching,
    /// The instance was killed because the host let go of it.
    Killed,
    /// The death was reported.
    Over,
}

/// What the watch learns.
#[derive(Debug, Clone, Copy, PartialEq, Eq, Structural)]
pub enum WatchEvent {
    HandshakeOk,
    HandshakeFailed,
    /// The process ended.
    Ended(WaitStatus),
    /// Nobody waits for the process any more.
    Disconnected,
    /// Nothing happened in time; tells whether the host holds the handle.
    Timeout(bool),
}

/// What the watch does.
#[derive(Debug, Clone, Copy, PartialEq, Eq, Structural)]
pub enum WatchAction {
    /// Hands the connection to the bus.
    InstallConnection,
    /// Tells the host that the instance said hello.
    EmitHello,
    /// Tells the host that the instance is ready.
    EmitReady,
    /// Collects the process if it is dead already.
    ReapNow,
    Kill,
    /// Waits for the process, so many milliseconds.
    Wait(u64),
    Report(DeathReason),
}

/// One step of the watch.
pub open spec fn watch_next(phase: WatchPhase, event: WatchEvent) -> (WatchPhase, Seq<WatchAction>) {
    match (phase, event) {
        (WatchPhase::Handshake, WatchEvent::HandshakeOk) => (
            WatchPhase::Watching,
            seq![
                WatchAction::InstallConnection,
                WatchAction::EmitHello,
                WatchAction::EmitReady,
                WatchAction::Wait(DETACH_POLL_MS),
            ],
        ),
        (WatchPhase::Handshake, _) => (
            WatchPhase::Over,
            seq![WatchAction::ReapNow, WatchAction::Report(DeathReason::Lost)],
        ),
        (WatchPhase::Watching, WatchEvent::Timeout(true)) => (
            WatchPhase::Watching,
            seq![WatchAction::Wait(DETACH_POLL_MS)],
        ),
        (WatchPhase::Watching, WatchEvent::Timeout(false)) => (
            WatchPhase::Killed,
            seq![WatchAction::Kill, WatchAction::Wait(REAP_AFTER_KILL_MS)],
        ),
        (WatchPhase::Over, _) => (WatchPhase::Over, seq![]),
        (_, WatchEvent::Ended(status)) => (
            WatchPhase::Over,
            seq![WatchAction::Report(death_of(status))],
        ),
        (_, _) => (WatchPhase::Over, seq![WatchAction::Report(DeathReason::Lost)]),
    }
}

/// One step of the watch: the next phase, and what to do.
pub fn watch_step(phase: WatchPhase, event: WatchEvent) -> (r: (WatchPhase, Vec<WatchAction>))
    ensures
        (r.0, r.1@) == watch_next(phase, event),
{
    let mut out: Vec<WatchAction> = Vec::new();
    let next: WatchPhase = match (phase, event) {
        (WatchPhase::Handshake, WatchEvent::HandshakeOk) => {
            out.push(WatchAction::InstallConnection);
            out.push(WatchAction::EmitHello);
            out.push(WatchAction::EmitReady);
            out.push(WatchAction::Wait(DETACH_POLL_MS));
            WatchPhase::Watching
        },
        (WatchPhase::Handshake, _) => {
            out.push(WatchAction::ReapNow);
            out.push(WatchAction::Report(DeathReason::Lost));
            WatchPhase::Over
        },
        (WatchPhase::Watching, WatchEvent::Timeout(true)) => {
            out.push(WatchAction::Wait(DETACH_POLL_MS));
            WatchPhase::Watching
        },
        (WatchPhase::Watching, WatchEvent::Timeout(false)) => {
            out.push(WatchAction::Kill);
            out.push(WatchAction::Wait(REAP_AFTER_KILL_MS));
            WatchPhase::Killed
        },
        (WatchPhase::Over, _) => WatchPhase::Over,
        (_, WatchEvent::Ended(status)) => {
            out.push(WatchAction::Report(death_reason(status)));
            WatchPhase::Over
        },
        (_, _) => {
            out.push(WatchAction::Report(DeathReason::Lost));
            WatchPhase::Over
        },
    };
    assert(out@ =~= watch_next(phase, event).1);
    (next, out)
}

/// Everything that the watch does in a run of events.
pub open spec fn watch_run(events: Seq<WatchEvent>) -> (WatchPhase, Seq<WatchAction>)
    decreases events.len(),
{
    if events.len() == 0 {
        (WatchPhase::Handshake, seq![])
    } else {
        let (phase, done) = watch_run(events.drop_last());
        let (next, more) = watch_next(phase, events.last());
        (next, done + more)
    }
}

/// How many deaths a list of actions reports.
pub open spec fn reports(actions: Seq<WatchAction>) -> nat
    decreases actions.len(),
{
    if actions.len() == 0 {
        0
    } else {
        reports(actions.drop_last()) + if actions.last() is Report {
            1nat
        } else {
            0
        }
    }
}

proof fn lemma_reports_concat(a: Seq<WatchAction>, b: Seq<WatchAction>)
    ensures
        reports(a + b) == reports(a) + reports(b),
    decreases b.len(),
{
    if b.len() == 0 {
        assert(a + b =~= a);
    } else {
        lemma_reports_concat(a, b.drop_last());
        assert((a + b).drop_last() =~= a + b.drop_last());
        assert((a + b).last() == b.last());
    }
}

/// Whatever happens, the death of an instance is reported at most once, and
/// exactly once when the watch is over.
pub proof fn law_one_death_is_reported(events: Seq<WatchEvent>)
    ensures
        reports(watch_run(events).1) == (if watch_run(events).0 is Over {
            1nat
        } else {
            0
        }),
    decreases events.len(),
{
    reveal_with_fuel(reports, 5);
    if events.len() > 0 {
        law_one_death_is_reported(events.drop_last());
        let (phase, done) = watch_run(events.drop_last());
        let (_, more) = watch_next(phase, events.last());
        lemma_reports_concat(done, more);
        assert(reports(more) == (if phase is Over {
            0nat
        } else if watch_next(phase, events.last()).0 is Over {
            1
        } else {
            0
        }));
    }
}

/// The watch ends: once the host has let go, two more events at most are
/// needed, and the instance is killed first.
pub proof fn law_a_dropped_instance_is_killed(later: WatchEvent)
    ensures
        watch_next(WatchPhase::Watching, WatchEvent::Timeout(false)).0 == WatchPhase::Killed,
        watch_next(WatchPhase::Watching, WatchEvent::Timeout(false)).1.contains(WatchAction::Kill),
        watch_next(WatchPhase::Killed, later).0 == WatchPhase::Over,
{
    let kill = watch_next(WatchPhase::Watching, WatchEvent::Timeout(false)).1;
    assert(kill[0] == WatchAction::Kill);
}

/// The host can use the connection as soon as it hears that the instance is
/// ready: the connection is installed before, and the hello comes between.
pub proof fn law_connection_before_ready(events: Seq<WatchEvent>, i: int)
    requires
        0 <= i < watch_run(events).1.len(),
        watch_run(events).1[i] == WatchAction::EmitReady,
    ensures
        i >= 2,
        watch_run(events).1[i - 1] == WatchAction::EmitHello,
        watch_run(events).1[i - 2] == WatchAction::InstallConnection,
    decreases events.len(),
{
    if events.len() > 0 {
        let (phase, done) = watch_run(events.drop_last());
        let (_, more) = watch_next(phase, events.last());
        if i < done.len() {
            law_connection_before_ready(events.drop_last(), i);
        } else {
            assert(more[i - done.len()] == WatchAction::EmitReady);
        }
    }
}

/// An instance is killed only after the host has let go of it: whatever
/// happens, a kill comes after a look that found nobody holding the handle, and
/// at every moment before that look nothing was killed.
pub proof fn law_killed_only_after_letting_go(events: Seq<WatchEvent>)
    ensures
        watch_run(events).1.contains(WatchAction::Kill) ==> events.contains(
            WatchEvent::Timeout(false),
        ),
        watch_run(events).0 is Killed ==> events.contains(WatchEvent::Timeout(false)),
        forall|n: int|
            0 <= n <= events.len() && (#[trigger] watch_run(events.take(n))).1.contains(
                WatchAction::Kill,
            ) ==> exists|i: int| 0 <= i < n && events[i] == WatchEvent::Timeout(false),
    decreases events.len(),
{
    if events.len() > 0 {
        let rest = events.drop_last();
        law_killed_only_after_letting_go(rest);
        let (phase, done) = watch_run(rest);
        let (_, more) = watch_next(phase, events.last());
        if rest.contains(WatchEvent::Timeout(false)) {
            let i = choose|i: int| 0 <= i < rest.len() && rest[i] == WatchEvent::Timeout(false);
            assert(events[i] == WatchEvent::Timeout(false));
        }
        if watch_run(events).1.contains(WatchAction::Kill) {
            let all = watch_run(events).1;
            let i = choose|i: int| 0 <= i < all.len() && all[i] == WatchAction::Kill;
            if i < done.len() {
                assert(done[i] == WatchAction::Kill);
            } else {
                assert(more[i - done.len()] == WatchAction::Kill);
                assert(events[events.len() - 1] == WatchEvent::Timeout(false));
            }
        }
        assert forall|n: int|
            0 <= n <= events.len() && (#[trigger] watch_run(events.take(n))).1.contains(
                WatchAction::Kill,
            ) implies exists|i: int| 0 <= i < n && events[i] == WatchEvent::Timeout(false) by {
            if n < events.len() {
                assert(events.take(n) =~= rest.take(n));
                let i = choose|i: int| 0 <= i < n && rest[i] == WatchEvent::Timeout(false);
                assert(events[i] == rest[i]);
            } else {
                assert(events.take(n) =~= events);
            }
        }
    } else {
        assert forall|n: int| n == 0 implies (#[trigger] watch_run(events.take(n))).1.len()
            == 0 by {
            assert(events.take(n) =~= events);
        }
    }
}

/// While the host holds the handle, a look at it changes nothing: the watch
/// waits for the process for another 250 milliseconds, and does nothing else.
pub proof fn law_a_held_instance_is_left_alone(events: Seq<WatchEvent>)
    requires
        watch_run(events).0 is Watching,
    ensures
        ({
            let after = watch_run(events.push(WatchEvent::Timeout(true)));
            &&& after.0 == watch_run(events).0
            &&& after.1 == watch_run(events).1.push(WatchAction::Wait(250))
        }),
{
    let more = events.push(WatchEvent::Timeout(true));
    assert(more.drop_last() =~= events);
    assert(watch_run(more).1 =~= watch_run(events).1.push(WatchAction::Wait(250)));
}

/// When nobody holds the handle of a running instance any more, the instance is
/// killed at once and the watch waits 2000 milliseconds for its death, once.
pub proof fn law_letting_go_kills_once(events: Seq<WatchEvent>)
    requires
        watch_run(events).0 is Watching,
    ensures
        ({
            let after = watch_run(events.push(WatchEvent::Timeout(false)));
            &&& after.0 is Killed
            &&& after.1 == watch_run(events).1.push(WatchAction::Kill).push(
                WatchAction::Wait(2000),
            )
        }),
        !watch_run(events).1.contains(WatchAction::Kill),
{
    let more = events.push(WatchEvent::Timeout(false));
    assert(more.drop_last() =~= events);
    assert(watch_run(more).1 =~= watch_run(events).1.push(WatchAction::Kill).push(
        WatchAction::Wait(2000),
    ));
    lemma_watching_has_not_killed(events);
}

proof fn lemma_watching_has_not_killed(events: Seq<WatchEvent>)
    ensures
        watch_run(events).0 is Watching || watch_run(events).0 is Handshake
            ==> !watch_run(events).1.contains(WatchAction::Kill),
    decreases events.len(),
{
    if events.len() > 0 {
        lemma_watching_has_not_killed(events.drop_last());
        let (phase, done) = watch_run(events.drop_last());
        let (next, more) = watch_next(phase, events.last());
        if next is Watching || next is Handshake {
            let all = watch_run(events).1;
            assert forall|i: int| 0 <= i < all.len() implies all[i] != WatchAction::Kill by {
                if i < done.len() {
                    assert(done[i] != WatchAction::Kill);
                } else {
                    assert(more[i - done.len()] != WatchAction::Kill);
                }
            }
        }
    }
}

/// The death of a running or killed instance is reported as the system tells
/// it: an exit with its code, a signal with its number, anything else, and a
/// killed instance whose death nobody sees in time, as lost. It is the last thing that the watch does.
pub proof fn law_the_death_is_told_as_it_was(events: Seq<WatchEvent>, last: WatchEvent)
    requires
        (watch_run(events).0 is Watching && last !is Timeout) || watch_run(events).0 is Killed,
    ensures
        watch_run(events.push(last)).0 is Over,
        watch_run(events.push(last)).1 == watch_run(events).1.push(
            WatchAction::Report(
                match last {
                    WatchEvent::Ended(WaitStatus::Exited(code)) => DeathReason::Exit { code },
                    WatchEvent::Ended(WaitStatus::Signaled(signal)) => DeathReason::Signaled {
                        signal,
                    },
                    _ => DeathReason::Lost,
                },
            ),
        ),
        forall|more: WatchEvent| #[trigger]
            watch_run(events.push(last).push(more)) == watch_run(events.push(last)),
{
    let ended = events.push(last);
    assert(ended.drop_last() =~= events);
    assert(watch_run(ended).1 =~= watch_run(events).1 + watch_next(watch_run(events).0, last).1);
    assert forall|more: WatchEvent| #[trigger] watch_run(ended.push(more)) == watch_run(ended) by {
        assert(ended.push(more).drop_last() =~= ended);
        assert(watch_run(ended.push(more)).1 =~= watch_run(ended).1);
    }
}

/// An instance that does not prove its identity is collected and reported as
/// lost, and is never announced: the host hears hello and ready, once each and
/// in this order, only from an instance whose handshake succeeded, and that as
/// the first event.
pub proof fn law_only_a_proved_instance_is_announced(events: Seq<WatchEvent>)
    requires
        events.len() > 0,
    ensures
        events[0] is HandshakeOk ==> watch_run(events.take(1)) == (
            WatchPhase::Watching,
            seq![
                WatchAction::InstallConnection,
                WatchAction::EmitHello,
                WatchAction::EmitReady,
                WatchAction::Wait(250),
            ],
        ),
        events[0] !is HandshakeOk ==> watch_run(events) == (
            WatchPhase::Over,
            seq![WatchAction::ReapNow, WatchAction::Report(DeathReason::Lost)],
        ),
        forall|i: int|
            4 <= i < watch_run(events).1.len() ==> (#[trigger] watch_run(events).1[i])
                != WatchAction::InstallConnection && watch_run(events).1[i]
                != WatchAction::EmitHello && watch_run(events).1[i] != WatchAction::EmitReady,
        events[0] is HandshakeOk ==> watch_run(events).1.len() >= 4 && !(watch_run(
            events,
        ).0 is Handshake),
    decreases events.len(),
{
    let rest = events.drop_last();
    if events.len() == 1 {
        assert(rest =~= Seq::<WatchEvent>::empty());
        assert(events.take(1) =~= events);
        assert(watch_run(rest) == (WatchPhase::Handshake, Seq::<WatchAction>::empty()));
        assert(watch_run(events).1 =~= watch_next(WatchPhase::Handshake, events[0]).1);
    } else {
        law_only_a_proved_instance_is_announced(rest);
        assert(rest.take(1) =~= events.take(1));
        let (phase, done) = watch_run(rest);
        let (_, more) = watch_next(phase, events.last());
        if !(events[0] is HandshakeOk) {
            assert(watch_run(events).1 =~= done);
        }
        let all = watch_run(events).1;
        assert forall|i: int| 4 <= i < all.len() implies (#[trigger] all[i])
            != WatchAction::InstallConnection && all[i] != WatchAction::EmitHello && all[i]
            != WatchAction::EmitReady by {
            if i < done.len() {
                assert(all[i] == done[i]);
            } else {
                assert(all[i] == more[i - done.len()]);
            }
        }
    }
}

} // verus!
