//! What callers of the runtime can rely on, told by what goes into a call and
//! what comes out of it.
use vstd::prelude::*;

use crate::bytes::{le_bytes, le_value, lemma_le_round_trip, lemma_pow256_values};
use crate::exec_native::plan::{ShmLayout, WindowSpec};
use crate::rt::context::{
    input_region, AppCtx, CallOutcome, ControlMsg, CtlLink, CtlResult, Reply, RtAction,
};
use crate::rt::context_laws::{law_identity_is_read_back, law_numbers_are_read};
use crate::rt::identity::{hello_from_env, log_instance, Hello};
use crate::text::{dec_text, hex_text};
use crate::types::error::Res;
use crate::types::ids::app_id_ok;
use crate::types::{AppId, Capability, InstanceId, WinId};

verus! {

/// After a change of the primary window's geometry the context has the size and
/// the scale that it would have if it had been attached to such a window: width
/// first, then height. Nothing is answered.
pub proof fn law_changed_like_attached(
    ctx: &mut AppCtx,
    windows: &Vec<WindowSpec>,
    app_id: AppId,
    instance: InstanceId,
    caps: Vec<Capability>,
    fresh: AppCtx,
    out: Vec<RtAction>,
)
    requires
        windows@.len() > 0,
        old(ctx).windows@.len() > 0,
        old(ctx).windows@[0] == windows@[0].win_id,
        call_ensures(AppCtx::attach, (app_id, instance, windows, caps), fresh),
        call_ensures(
            AppCtx::handle_ctl,
            (
                ctx,
                CtlResult::Message(
                    ControlMsg::ConfigChanged {
                        win_id: windows@[0].win_id,
                        width: windows@[0].width,
                        height: windows@[0].height,
                        scale: windows@[0].scale,
                    },
                ),
            ),
            out,
        ),
    ensures
        final(ctx).size == fresh.size,
        final(ctx).scale_pm == fresh.scale_pm,
        final(ctx).size.0 == windows@[0].width,
        final(ctx).size.1 == windows@[0].height,
        final(ctx).scale_pm == windows@[0].scale,
        final(ctx).windows@ == old(ctx).windows@,
        out@.len() == 0,
{
}

/// Every control message leaves identity and capabilities of the instance as
/// they are; a ping is answered with its own time stamp, and a shutdown ends the
/// process with code 0.
pub proof fn law_messages_leave_the_identity(
    ctx: &mut AppCtx,
    m: ControlMsg,
    out: Vec<RtAction>,
)
    requires
        call_ensures(AppCtx::handle_ctl, (ctx, CtlResult::Message(m)), out),
    ensures
        final(ctx).app_id == old(ctx).app_id,
        final(ctx).instance == old(ctx).instance,
        final(ctx).caps == old(ctx).caps,
        final(ctx).ticks == old(ctx).ticks,
        final(ctx).frame_seq == old(ctx).frame_seq,
        m matches ControlMsg::Ping { t_ns } ==> out@ == seq![RtAction::Send(Reply::Pong { t_ns })],
        m is Shutdown ==> out@ == seq![RtAction::Exit(0)],
        m is Pause ==> out@ == seq![RtAction::Send(Reply::Busy)],
        m is Resume || m is WindowFocus || m is Other ==> out@.len() == 0 && final(ctx)@ == old(
            ctx,
        )@,
{
}

/// A tick counts itself and the input that was drained for it.
pub proof fn law_tick_is_counted(ctx: &mut AppCtx, n: usize)
    requires
        old(ctx).ticks < u64::MAX,
        old(ctx).input_total + n <= u64::MAX,
        call_ensures(AppCtx::begin_tick, (ctx, Some(n)), ()),
    ensures
        final(ctx).ticks == old(ctx).ticks + 1,
        final(ctx).input_slots == n,
        final(ctx).input_total == old(ctx).input_total + n,
        final(ctx).dirty,
        final(ctx).frame_seq == old(ctx).frame_seq,
        final(ctx).windows@ == old(ctx).windows@,
{
}

/// Frames are numbered in turn and go to the two slots by turns.
pub proof fn law_frames_go_by_turns(ctx: &mut AppCtx, slot: usize)
    requires
        old(ctx).frame_seq < u64::MAX,
        call_ensures(AppCtx::next_frame, (ctx,), slot),
    ensures
        final(ctx).frame_seq == old(ctx).frame_seq + 1,
        slot <= 1,
        slot != old(ctx).frame_seq % 2,
{
}

/// A call that came to its end is followed by a frame exactly if the application
/// asked for one; a call that failed or panicked is reported, and ends the
/// process with code 101.
pub proof fn law_call_is_followed_up(
    ctx: &AppCtx,
    msg: String,
    done: Vec<RtAction>,
    failed: Vec<RtAction>,
    panicked: Vec<RtAction>,
)
    requires
        call_ensures(AppCtx::end_tick, (ctx, CallOutcome::Done), done),
        call_ensures(AppCtx::end_tick, (ctx, CallOutcome::Failed), failed),
        call_ensures(AppCtx::end_tick, (ctx, CallOutcome::Panicked(msg)), panicked),
    ensures
        ctx.dirty ==> done@ == seq![RtAction::Publish],
        !ctx.dirty ==> done@.len() == 0,
        failed@.len() == 2 && failed@[0] is Send && failed@[1] == RtAction::Exit(101),
        panicked@.len() == 2 && panicked@[0] is Send && panicked@[1] == RtAction::Exit(101),
{
}

/// A tick comes before a control message, and neither is made up.
pub proof fn law_ticks_come_first(tick: bool, ctl: bool, out: Vec<RtAction>)
    requires
        call_ensures(AppCtx::after_poll, (tick, ctl), out),
    ensures
        out@.contains(RtAction::Tick) <==> tick,
        out@.contains(RtAction::Receive) <==> ctl,
        tick ==> out@[0] == RtAction::Tick,
        out@.len() <= 2,
{
    if tick {
        assert(out@[0] == RtAction::Tick);
    }
    if ctl {
        assert(out@.last() == RtAction::Receive);
        assert(out@[out@.len() - 1] == RtAction::Receive);
    }
}

/// Without a connection the process ends with code 102; a read without a
/// deadline gets one of 500 milliseconds.
pub proof fn law_reads_have_a_deadline(connected: bool, deadline_ms: u32, out: Vec<RtAction>)
    requires
        call_ensures(AppCtx::before_receive, (connected, deadline_ms), out),
    ensures
        !connected ==> out@ == seq![RtAction::Exit(102)],
        connected && deadline_ms == 0 ==> out@ == seq![RtAction::SetDeadline(500)],
        connected && deadline_ms != 0 ==> out@.len() == 0,
{
}

/// Messages of an instance are numbered in turn; without a connection no number
/// is used up.
pub proof fn law_instance_numbers_its_messages(link: &mut CtlLink, r: Res<u64>)
    requires
        call_ensures(CtlLink::begin_send, (link,), r),
    ensures
        r is Ok <==> old(link).connected(),
        r matches Ok(n) ==> n == old(link).next() && (n < u64::MAX ==> final(link).next() == n + 1)
            && (n == u64::MAX ==> final(link).next() == 0),
        r is Err ==> final(link).next() == old(link).next(),
{
}

/// The greeting of an instance carries the identity that the launcher wrote into
/// its environment, the protocol version 1.0, and the clock in its nonce.
pub proof fn law_greeting_carries_the_identity(
    app_id: String,
    instance: String,
    artifact: String,
    number: u64,
    digest: Seq<u8>,
    clock: u64,
    pid: u32,
    r: Res<Hello>,
)
    requires
        app_id_ok(app_id@),
        instance@ == dec_text(number as nat),
        artifact@ == hex_text(digest),
        digest.len() == 32,
        call_ensures(
            hello_from_env,
            (&Some(app_id), &Some(instance), &Some(artifact), clock, pid),
            r,
        ),
    ensures
        r matches Ok(h) && h.app_id@ == app_id@ && h.instance.value() == number
            && h.artifact_hash@ == digest && h.proto.major == 1 && h.proto.minor == 0 && le_value(
            h.nonce@.take(8),
        ) == clock,
{
    law_identity_is_read_back(app_id@, number, digest);
    lemma_pow256_values();
    lemma_le_round_trip(clock as nat, 8);
    if r is Ok {
        assert(r->Ok_0.nonce@.take(8) =~= le_bytes(clock as nat, 8));
    }
}

/// The region of the input takes 64 bytes and then each slot.
pub proof fn law_room_for_the_input(layout: &ShmLayout, n: u64)
    requires
        call_ensures(input_region, (layout,), n),
    ensures
        n == 64 + layout.input_slot_bytes * layout.input_slots,
{
}

/// The number of an instance in the log is the one it was given, and 0 where it
/// was given none that can be read.
pub proof fn law_logged_instance(given: Option<String>, number: u64, id: InstanceId, none: InstanceId)
    requires
        given matches Some(s) && s@ == dec_text(number as nat),
        call_ensures(log_instance, (&given,), id),
        call_ensures(log_instance, (&None::<String>,), none),
    ensures
        id.value() == number,
        none.value() == 0,
{
    law_numbers_are_read(number, dec_text(number as nat));
}

/// A frame shows its number, the ticks and the input, each in eight bytes, and
/// nothing else.
pub proof fn law_frame_shows_the_counts(ctx: &AppCtx, payload: &mut [u8], i: int)
    requires
        old(payload)@.len() >= 24,
        call_ensures(AppCtx::fill_frame, (ctx, payload), ()),
        24 <= i < old(payload)@.len(),
    ensures
        final(payload)@.len() == old(payload)@.len(),
        le_value(final(payload)@.subrange(0, 8)) == ctx.frame_seq,
        le_value(final(payload)@.subrange(8, 16)) == ctx.ticks,
        le_value(final(payload)@.subrange(16, 24)) == ctx.input_total,
        final(payload)@[i] == 0,
{
    lemma_pow256_values();
    lemma_le_round_trip(ctx.frame_seq as nat, 8);
    lemma_le_round_trip(ctx.ticks as nat, 8);
    lemma_le_round_trip(ctx.input_total as nat, 8);
    let f = final(payload)@;
    assert(f.subrange(0, 8) =~= le_bytes(ctx.frame_seq as nat, 8));
    assert(f.subrange(8, 16) =~= le_bytes(ctx.ticks as nat, 8));
    assert(f.subrange(16, 24) =~= le_bytes(ctx.input_total as nat, 8));
}

/// A window that was opened is the last; the others stay, and so does the size.
pub proof fn law_opened_window_is_the_last(ctx: &mut AppCtx, w: WinId, out: Vec<RtAction>)
    requires
        call_ensures(
            AppCtx::handle_ctl,
            (ctx, CtlResult::Message(ControlMsg::WindowOpen { win_id: w })),
            out,
        ),
    ensures
        final(ctx).windows@ == old(ctx).windows@ + seq![w],
        final(ctx).size == old(ctx).size && final(ctx).scale_pm == old(ctx).scale_pm,
        out@.len() == 0,
{
    assert(old(ctx).windows@.push(w) =~= old(ctx).windows@ + seq![w]);
}

} // verus!
