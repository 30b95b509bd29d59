//! The event machine of a live instance.
//!
//! [`HandleMachine`] decides which events are accepted and hands the accepted
//! ones to every subscriber. `Spawned` is always the first event of the stream
//! and never repeats; `Dead` comes at most once and nothing follows it.
use vstd::prelude::*;

use crate::exec_abi::state::{status_of, AppEvent, AppState, DeathReason, ExitStatus};
use crate::types::error::{fails, ArcaError, ErrorView, Res};
use crate::types::{AppId, InstanceId};

verus! {

/// The state of the life cycle after an event. Health and handshake events
/// leave it as it is.
pub open spec fn state_after(ev: AppEvent, state: AppState) -> AppState {
    match ev {
        AppEvent::Ready => AppState::Ready,
        AppEvent::Paused => AppState::Paused,
        AppEvent::Resumed => AppState::Running,
        AppEvent::Dead { reason, .. } => AppState::Dead { reason },
        _ => state,
    }
}

/// The state after a whole stream of events.
pub open spec fn state_of_stream(events: Seq<AppEvent>) -> AppState
    decreases events.len(),
{
    if events.len() == 0 {
        AppState::Spawning
    } else {
        state_after(events.last(), state_of_stream(events.drop_last()))
    }
}

/// A stream ended by a death.
pub open spec fn is_over(events: Seq<AppEvent>) -> bool {
    events.len() > 0 && events.last() is Dead
}

/// The contract of a stream: it begins with `Spawned`, which does not repeat,
/// and nothing follows a `Dead`.
pub open spec fn stream_ok(events: Seq<AppEvent>) -> bool {
    &&& events.len() > 0
    &&& events[0] is Spawned
    &&& forall|i: int| 0 < i < events.len() ==> !((#[trigger] events[i]) is Spawned)
    &&& forall|i: int| 0 <= i < events.len() - 1 ==> !((#[trigger] events[i]) is Dead)
}

/// Whether the machine accepts `ev` after `events`.
pub open spec fn accepts(events: Seq<AppEvent>, ev: AppEvent) -> bool {
    !(ev is Spawned) && !is_over(events)
}

/// The terminal status of a stream.
pub open spec fn terminal_of(events: Seq<AppEvent>) -> Option<ExitStatus> {
    if is_over(events) {
        Some(status_of(events.last()->reason))
    } else {
        None
    }
}

/// One receiver of the stream.
pub struct Subscriber {
    queue: Vec<AppEvent>,
    start: Ghost<nat>,
    taken: Ghost<Seq<AppEvent>>,
}

impl Subscriber {
    /// What was taken and what still waits are the events since the start.
    spec fn follows(&self, events: Seq<AppEvent>) -> bool {
        self.start@ <= events.len() && self.taken@ + self.queue@ == events.skip(self.start@ as int)
    }
}

/// State of a live instance.
pub struct HandleMachine {
    app_id: AppId,
    instance: InstanceId,
    state: AppState,
    terminal: Option<ExitStatus>,
    dead_sent: bool,
    primary_taken: bool,
    kill_installed: bool,
    subs: Vec<Subscriber>,
    events: Ghost<Seq<AppEvent>>,
}

impl HandleMachine {
    /// Every event accepted so far.
    pub closed spec fn stream(&self) -> Seq<AppEvent> {
        self.events@
    }

    /// How many receivers there are.
    pub closed spec fn receivers(&self) -> nat {
        self.subs@.len()
    }

    /// The first receiver was handed out.
    pub closed spec fn primary_out(&self) -> bool {
        self.primary_taken
    }

    /// The events that receiver `id` was given so far.
    pub closed spec fn given(&self, id: int) -> Seq<AppEvent> {
        self.subs@[id].taken@
    }

    /// The events that wait for receiver `id`.
    pub closed spec fn waiting(&self, id: int) -> Seq<AppEvent> {
        self.subs@[id].queue@
    }

    /// From which event on receiver `id` follows the stream.
    pub closed spec fn since(&self, id: int) -> nat {
        self.subs@[id].start@
    }

    /// The instance number.
    pub closed spec fn instance_id(&self) -> InstanceId {
        self.instance
    }

    /// The identity of the application.
    pub closed spec fn app(&self) -> Seq<char> {
        self.app_id@
    }

    /// A kill hook is installed.
    pub closed spec fn can_kill(&self) -> bool {
        self.kill_installed
    }

    /// What always holds: the stream keeps its contract, state and terminal
    /// status are those of the stream, and every receiver has been given, or
    /// still waits for, exactly the events since it subscribed.
    pub closed spec fn wf(&self) -> bool {
        &&& stream_ok(self.events@)
        &&& self.state == state_of_stream(self.events@)
        &&& self.terminal == terminal_of(self.events@)
        &&& self.dead_sent == is_over(self.events@)
        &&& self.subs@.len() > 0
        &&& self.subs@[0].start@ == 0
        &&& forall|i: int| 0 <= i < self.subs@.len() ==> (#[trigger] self.subs@[i]).follows(self.events@)
    }

    /// A fresh instance: spawn accepted, and `Spawned` already waiting for the
    /// first receiver.
    pub fn new(app_id: AppId, instance: InstanceId) -> (r: HandleMachine)
        ensures
            r.wf(),
            r.stream() == seq![AppEvent::Spawned],
            r.app() == app_id@,
            r.instance_id() == instance,
            r.receivers() == 1,
            r.since(0) == 0,
            r.given(0).len() == 0,
            r.waiting(0) == seq![AppEvent::Spawned],
            !r.primary_out(),
            !r.can_kill(),
    {
        let ghost events = seq![AppEvent::Spawned];
        let mut queue: Vec<AppEvent> = Vec::new();
        queue.push(AppEvent::Spawned);
        let first: Subscriber = Subscriber {
            queue,
            start: Ghost(0),
            taken: Ghost(Seq::empty()),
        };
        let mut subs: Vec<Subscriber> = Vec::new();
        subs.push(first);
        proof {
            assert(events.skip(0) =~= events);
            assert(Seq::<AppEvent>::empty() + queue@ =~= events);
            assert(events.drop_last() =~= Seq::<AppEvent>::empty());
            reveal_with_fuel(state_of_stream, 2);
        }
        HandleMachine {
            app_id,
            instance,
            state: AppState::Spawning,
            terminal: None,
            dead_sent: false,
            primary_taken: false,
            kill_installed: false,
            subs,
            events: Ghost(events),
        }
    }

    /// The instance number.
    pub fn id(&self) -> (r: InstanceId)
        ensures
            r == self.instance_id(),
    {
        self.instance
    }

    /// The identity of the application.
    pub fn app_id(&self) -> (r: &AppId)
        ensures
            r@ == self.app(),
    {
        &self.app_id
    }

    /// The current state.
    pub fn state(&self) -> (r: AppState)
        requires
            self.wf(),
        ensures
            r == state_of_stream(self.stream()),
    {
        self.state
    }

    /// The terminal status, once the instance is dead.
    pub fn terminal(&self) -> (r: Option<ExitStatus>)
        requires
            self.wf(),
        ensures
            r == terminal_of(self.stream()),
    {
        self.terminal
    }

    /// Puts an accepted event in the queue of every receiver.
    fn forward(&mut self, ev: AppEvent)
        requires
            old(self).subs@.len() > 0,
            old(self).subs@[0].start@ == 0,
            forall|i: int|
                0 <= i < old(self).subs@.len() ==> (#[trigger] old(self).subs@[i]).follows(
                    old(self).events@,
                ),
        ensures
            final(self).events@ == old(self).events@.push(ev),
            final(self).subs@.len() == old(self).subs@.len(),
            forall|i: int|
                0 <= i < final(self).subs@.len() ==> (#[trigger] final(self).subs@[i]).follows(
                    final(self).events@,
                ) && final(self).subs@[i].start@ == old(self).subs@[i].start@
                    && final(self).subs@[i].taken@ == old(self).subs@[i].taken@
                    && final(self).subs@[i].queue@ == old(self).subs@[i].queue@.push(ev),
            final(self).app_id == old(self).app_id,
            final(self).instance == old(self).instance,
            final(self).state == old(self).state,
            final(self).terminal == old(self).terminal,
            final(self).dead_sent == old(self).dead_sent,
            final(self).primary_taken == old(self).primary_taken,
            final(self).kill_installed == old(self).kill_installed,
    {
        let ghost before = self.subs@;
        let ghost events = self.events@;
        let ghost longer = events.push(ev);
        let mut next: Vec<Subscriber> = Vec::new();
        let mut rest: Vec<Subscriber> = Vec::new();
        std::mem::swap(&mut rest, &mut self.subs);
        while rest.len() > 0
            invariant
                rest@.len() + next@.len() == before.len(),
                rest@ == before.skip(next@.len() as int),
                longer == events.push(ev),
                forall|i: int| 0 <= i < before.len() ==> (#[trigger] before[i]).follows(events),
                forall|i: int|
                    0 <= i < next@.len() ==> (#[trigger] next@[i]).follows(longer)
                        && next@[i].start@ == before[i].start@ && next@[i].taken@
                        == before[i].taken@ && next@[i].queue@ == before[i].queue@.push(ev),
            decreases rest@.len(),
        {
            let ghost k = next@.len() as int;
            assert(rest@[0] == before[k]);
            let mut sub: Subscriber = rest.remove(0);
            assert(rest@ =~= before.skip(k + 1));
            assert(before[k].follows(events));
            let copy: AppEvent = ev.duplicate();
            sub.queue.push(copy);
            proof {
                let start = sub.start@ as int;
                assert(longer.skip(start) =~= events.skip(start).push(ev));
                assert(sub.taken@ + sub.queue@ =~= (before[k].taken@ + before[k].queue@).push(ev));
            }
            next.push(sub);
        }
        self.subs = next;
        self.events = Ghost(longer);
    }

    /// Offers an event. Returns whether it was accepted: `Spawned` never is
    /// (it is there from the start), and nothing is after a `Dead`.
    pub fn emit(&mut self, ev: AppEvent) -> (r: bool)
        requires
            old(self).wf(),
        ensures
            final(self).wf(),
            r == accepts(old(self).stream(), ev),
            final(self).stream() == (if r {
                old(self).stream().push(ev)
            } else {
                old(self).stream()
            }),
            final(self).receivers() == old(self).receivers(),
            forall|i: int|
                0 <= i < final(self).receivers() ==> #[trigger] final(self).given(i)
                    == old(self).given(i) && final(self).since(i) == old(self).since(i),
            forall|i: int|
                0 <= i < final(self).receivers() ==> #[trigger] final(self).waiting(i) == (if r {
                    old(self).waiting(i).push(ev)
                } else {
                    old(self).waiting(i)
                }),
            final(self).primary_out() == old(self).primary_out(),
            final(self).can_kill() == old(self).can_kill(),
            final(self).app() == old(self).app(),
            final(self).instance_id() == old(self).instance_id(),
    {
        match &ev {
            AppEvent::Spawned => {
                return false;
            },
            _ => {},
        }
        if self.dead_sent {
            return false;
        }
        let ghost events = self.events@;
        proof {
            let longer = events.push(ev);
            assert(longer.drop_last() =~= events);
            assert(longer.last() == ev);
        }
        match &ev {
            AppEvent::Dead { reason, .. } => {
                self.dead_sent = true;
                self.terminal = Some(ExitStatus::from(*reason));
                self.state = AppState::Dead { reason: *reason };
            },
            AppEvent::Ready => {
                self.state = AppState::Ready;
            },
            AppEvent::Paused => {
                self.state = AppState::Paused;
            },
            AppEvent::Resumed => {
                self.state = AppState::Running;
            },
            _ => {},
        }
        self.forward(ev);
        true
    }

    /// Reports the death of the instance. Only the first report counts.
    pub fn report_death(&mut self, reason: DeathReason, minidump: Option<String>) -> (r: bool)
        requires
            old(self).wf(),
        ensures
            final(self).wf(),
            r == !is_over(old(self).stream()),
            final(self).stream() == (if r {
                old(self).stream().push(AppEvent::Dead { reason, minidump })
            } else {
                old(self).stream()
            }),
            final(self).receivers() == old(self).receivers(),
            forall|i: int|
                0 <= i < final(self).receivers() ==> #[trigger] final(self).given(i)
                    == old(self).given(i) && final(self).since(i) == old(self).since(i),
            forall|i: int|
                0 <= i < final(self).receivers() ==> #[trigger] final(self).waiting(i) == (if r {
                    old(self).waiting(i).push(AppEvent::Dead { reason, minidump })
                } else {
                    old(self).waiting(i)
                }),
            final(self).primary_out() == old(self).primary_out(),
            final(self).can_kill() == old(self).can_kill(),
            final(self).app() == old(self).app(),
            final(self).instance_id() == old(self).instance_id(),
    {
        self.emit(AppEvent::Dead { reason, minidump })
    }

    /// Hands out a receiver. The first one follows the stream from its
    /// beginning; later ones see only what is emitted after this call.
    pub fn on_state_change(&mut self) -> (id: usize)
        requires
            old(self).wf(),
            old(self).receivers() < usize::MAX,
        ensures
            final(self).wf(),
            final(self).stream() == old(self).stream(),
            final(self).primary_out(),
            id < final(self).receivers(),
            !old(self).primary_out() ==> id == 0 && final(self).receivers() == old(
                self,
            ).receivers() && final(self).since(0) == 0,
            old(self).primary_out() ==> id == old(self).receivers() && final(self).receivers()
                == old(self).receivers() + 1 && final(self).since(id as int)
                == old(self).stream().len() && final(self).given(id as int).len() == 0
                && final(self).waiting(id as int).len() == 0,
            forall|i: int|
                0 <= i < old(self).receivers() ==> #[trigger] final(self).given(i) == old(
                    self,
                ).given(i) && final(self).since(i) == old(self).since(i),
            forall|i: int|
                0 <= i < old(self).receivers() ==> #[trigger] final(self).waiting(i) == old(
                    self,
                ).waiting(i),
            final(self).can_kill() == old(self).can_kill(),
            final(self).app() == old(self).app(),
            final(self).instance_id() == old(self).instance_id(),
    {
        if !self.primary_taken {
            self.primary_taken = true;
            return 0;
        }
        let ghost events = self.events@;
        let ghost before = self.subs@;
        let id: usize = self.subs.len();
        let queue: Vec<AppEvent> = Vec::new();
        let sub: Subscriber = Subscriber {
            queue,
            start: Ghost(events.len()),
            taken: Ghost(Seq::empty()),
        };
        self.subs.push(sub);
        proof {
            assert(events.skip(events.len() as int) =~= Seq::<AppEvent>::empty());
            assert(sub.taken@ + sub.queue@ =~= Seq::<AppEvent>::empty());
            assert forall|i: int| 0 <= i < self.subs@.len() implies (#[trigger] self.subs@[i]).follows(
            events) by {
                if i < before.len() {
                    assert(self.subs@[i] == before[i]);
                }
            }
        }
        id
    }

    /// Takes everything that waits for a receiver, in order.
    pub fn drain(&mut self, id: usize) -> (r: Vec<AppEvent>)
        requires
            old(self).wf(),
            id < old(self).receivers(),
        ensures
            final(self).wf(),
            r@ == old(self).waiting(id as int),
            final(self).waiting(id as int).len() == 0,
            final(self).given(id as int) == old(self).given(id as int) + r@,
            final(self).given(id as int) == old(self).stream().skip(old(self).since(id as int) as int),
            final(self).stream() == old(self).stream(),
            final(self).receivers() == old(self).receivers(),
            final(self).primary_out() == old(self).primary_out(),
            final(self).can_kill() == old(self).can_kill(),
            final(self).app() == old(self).app(),
            final(self).instance_id() == old(self).instance_id(),
            forall|i: int|
                0 <= i < old(self).receivers() && i != id ==> #[trigger] final(self).given(i)
                    == old(self).given(i) && final(self).waiting(i) == old(self).waiting(i),
            forall|i: int|
                0 <= i < old(self).receivers() ==> #[trigger] final(self).since(i) == old(
                    self,
                ).since(i),
    {
        let ghost before = self.subs@;
        let ghost events = self.events@;
        let mut out: Vec<AppEvent> = Vec::new();
        assert(before[id as int].follows(events));
        let mut sub: Subscriber = self.subs.remove(id);
        std::mem::swap(&mut out, &mut sub.queue);
        let ghost taken = sub.taken@ + out@;
        sub.taken = Ghost(taken);
        self.subs.insert(id, sub);
        proof {
            let after = self.subs@;
            assert(after =~= before.update(id as int, sub));
            assert(taken + sub.queue@ =~= events.skip(sub.start@ as int));
            assert forall|i: int| 0 <= i < after.len() implies (#[trigger] after[i]).follows(
                events,
            ) by {
                if i != id {
                    assert(after[i] == before[i]);
                }
            }
        }
        out
    }

    /// Declares that the executor can kill the instance.
    pub fn install_kill(&mut self)
        requires
            old(self).wf(),
        ensures
            final(self).wf(),
            final(self).can_kill(),
            final(self).stream() == old(self).stream(),
            final(self).receivers() == old(self).receivers(),
            final(self).primary_out() == old(self).primary_out(),
            forall|i: int|
                0 <= i < old(self).receivers() ==> #[trigger] final(self).given(i) == old(
                    self,
                ).given(i) && final(self).since(i) == old(self).since(i),
            forall|i: int|
                0 <= i < old(self).receivers() ==> #[trigger] final(self).waiting(i) == old(
                    self,
                ).waiting(i),
            final(self).app() == old(self).app(),
            final(self).instance_id() == old(self).instance_id(),
    {
        self.kill_installed = true;
    }

    /// Whether a kill hook is installed.
    pub fn has_kill(&self) -> (r: bool)
        ensures
            r == self.can_kill(),
    {
        self.kill_installed
    }

    /// Whether a control message may be sent: not to a dead instance.
    pub fn check_send(&self) -> (r: Res<()>)
        requires
            self.wf(),
        ensures
            r is Ok <==> !is_over(self.stream()),
            r is Err ==> fails(
                r,
                ErrorView::Internal("exec-abi: send a instancia muerta"@),
            ),
    {
        if self.dead_sent {
            Err(ArcaError::Internal("exec-abi: send a instancia muerta"))
        } else {
            Ok(())
        }
    }
}

/// Every receiver was given, or still waits for, exactly the events since it
/// subscribed, in order; the first one follows the stream from its beginning.
/// So each accepted event reaches each receiver exactly once.
pub proof fn law_receivers_follow_the_stream(machine: HandleMachine, id: int)
    requires
        machine.wf(),
        0 <= id < machine.receivers(),
    ensures
        stream_ok(machine.stream()),
        machine.since(id) <= machine.stream().len(),
        machine.given(id) + machine.waiting(id) == machine.stream().skip(
            machine.since(id) as int,
        ),
        machine.since(0) == 0,
{
    assert(machine.subs@[id].follows(machine.events@));
}

/// An event is accepted exactly when it is not `Spawned` and no death was
/// accepted before. It then moves the state by itself alone.
pub proof fn law_acceptance_depends_on_death_alone(events: Seq<AppEvent>, ev: AppEvent)
    requires
        stream_ok(events),
    ensures
        accepts(events, ev) <==> !(ev is Spawned) && !(exists|i: int|
            0 <= i < events.len() && (#[trigger] events[i]) is Dead),
        state_of_stream(events.push(ev)) == state_after(ev, state_of_stream(events)),
{
    assert(events.push(ev).drop_last() =~= events);
    if is_over(events) {
        assert(events[events.len() - 1] is Dead);
    }
}

/// The stream after events were offered one after the other.
pub open spec fn offered(events: Seq<AppEvent>) -> Seq<AppEvent>
    decreases events.len(),
{
    if events.len() == 0 {
        seq![AppEvent::Spawned]
    } else {
        let before = offered(events.drop_last());
        if accepts(before, events.last()) {
            before.push(events.last())
        } else {
            before
        }
    }
}

/// Whatever is offered, in whatever order: the stream begins with `Spawned`,
/// holds it once, and holds at most one `Dead`, at its end.
pub proof fn law_any_offer_keeps_the_contract(events: Seq<AppEvent>)
    ensures
        stream_ok(offered(events)),
        is_over(offered(events)) ==> state_of_stream(offered(events)) == (AppState::Dead {
            reason: offered(events).last()->reason,
        }),
    decreases events.len(),
{
    if events.len() > 0 {
        law_any_offer_keeps_the_contract(events.drop_last());
    } else {
        assert(offered(events)[0] is Spawned);
    }
}

/// Once an instance is dead, offers change nothing any more.
pub proof fn law_nothing_follows_death(events: Seq<AppEvent>, more: Seq<AppEvent>)
    requires
        is_over(offered(events)),
    ensures
        offered(events + more) == offered(events),
    decreases more.len(),
{
    if more.len() == 0 {
        assert(events + more =~= events);
    } else {
        law_nothing_follows_death(events, more.drop_last());
        assert((events + more).drop_last() =~= events + more.drop_last());
        assert((events + more).last() == more.last());
    }
}

/// A regular life is delivered as it happened: events that are neither
/// `Spawned` nor `Dead`, then a death.
pub proof fn law_regular_life_is_delivered(middle: Seq<AppEvent>, death: AppEvent)
    requires
        forall|i: int|
            0 <= i < middle.len() ==> !((#[trigger] middle[i]) is Spawned) && !(middle[i] is Dead),
        death is Dead,
    ensures
        offered(middle) == seq![AppEvent::Spawned] + middle,
        offered(middle.push(death)) == (seq![AppEvent::Spawned] + middle).push(death),
        terminal_of(offered(middle.push(death))) == Some(status_of(death->reason)),
    decreases middle.len(),
{
    if middle.len() == 0 {
        assert(seq![AppEvent::Spawned] + middle =~= seq![AppEvent::Spawned]);
    } else {
        law_regular_life_is_delivered(middle.drop_last(), death);
        let init = middle.drop_last();
        assert((seq![AppEvent::Spawned] + init).push(middle.last()) =~= seq![AppEvent::Spawned]
            + middle);
        let so_far = offered(init);
        assert(!is_over(so_far)) by {
            if init.len() > 0 {
                assert(so_far.last() == init.last());
            }
        }
    }
    assert(middle.push(death).drop_last() =~= middle);
    let so_far = offered(middle);
    assert(!is_over(so_far)) by {
        if middle.len() > 0 {
            assert(so_far.last() == middle.last());
        }
    }
}

/// The state of an instance is what the last event about its life cycle says:
/// ready, paused, running after a resumption, or dead for the reported reason.
/// Greetings and reports on its health change nothing.
pub proof fn law_last_change_makes_the_state(events: Seq<AppEvent>, ev: AppEvent)
    ensures
        state_of_stream(Seq::empty()) == AppState::Spawning,
        ev is Ready ==> state_of_stream(events.push(ev)) == AppState::Ready,
        ev is Paused ==> state_of_stream(events.push(ev)) == AppState::Paused,
        ev is Resumed ==> state_of_stream(events.push(ev)) == AppState::Running,
        ev matches AppEvent::Dead { reason, .. } ==> state_of_stream(events.push(ev))
            == (AppState::Dead { reason }),
        ev is Spawned || ev is Hello || ev is Unhealthy || ev is FrameStalled ==> state_of_stream(
            events.push(ev),
        ) == state_of_stream(events),
{
    assert(events.push(ev).drop_last() =~= events);
}

/// A stream has a terminal status exactly if it ended with a death, and it is
/// the status of that death.
pub proof fn law_terminal_status_is_of_the_death(events: Seq<AppEvent>, ev: AppEvent)
    ensures
        terminal_of(events.push(ev)) is Some <==> ev is Dead,
        ev matches AppEvent::Dead { reason, .. } ==> terminal_of(events.push(ev)) == Some(
            status_of(reason),
        ),
        terminal_of(Seq::empty()) is None,
{
}

} // verus!
