//! What holds of the frame loop: geometry, windows, answers, frames, and the
//! identity that an instance reads from its environment.
use vstd::prelude::*;
use vstd::utf8::*;

use crate::bytes::{le_bytes, le_value, lemma_le_round_trip, lemma_pow256_values};
use crate::exec_native::plan::WindowSpec;
use crate::pick::{is_selection, lemma_select_none, lemma_select_step};
use crate::rt::context::{
    after_ctl, attached, call_actions, ctl_actions, fnv, frame_slot, occurs, ticked, without,
    AppCtx, ControlMsg, CtlResult, CtxView, Reply, RtAction,
};
use crate::rt::identity::{identity_error, nonce_mix, number_of, turned};
use crate::rt::ping::{ping_actions, PingAction};
use crate::text::{dec_text, digits_value, hex_text, is_digit, is_digits, lemma_dec_text_value};
use crate::types::digest::{hex_decoded, is_hex_of_len, law_hex_round_trip};
use crate::types::error::ErrorView;
use crate::types::ids::app_id_ok;
use crate::types::WinId;

verus! {

/// A change of the primary window's geometry has the same effect as attaching a
/// window of that geometry: the size is the width and the height, in this
/// order, the scale is that of the message, and nothing else changes.
pub proof fn law_change_is_like_attaching(
    ctx: CtxView,
    w: WindowSpec,
    others: Seq<WindowSpec>,
)
    requires
        ctx.windows.len() > 0,
        ctx.windows[0] == w.win_id,
    ensures
        ({
            let changed = after_ctl(
                ctx,
                CtlResult::Message(
                    ControlMsg::ConfigChanged {
                        win_id: w.win_id,
                        width: w.width,
                        height: w.height,
                        scale: w.scale,
                    },
                ),
            );
            let fresh = attached(seq![w] + others);
            &&& changed.size == fresh.size
            &&& changed.scale_pm == fresh.scale_pm
            &&& changed.size.0 == w.width
            &&& changed.size.1 == w.height
            &&& changed.scale_pm == w.scale
            &&& fresh.size.0 == w.width
            &&& fresh.size.1 == w.height
            &&& fresh.scale_pm == w.scale
            &&& changed.windows == ctx.windows
            &&& changed.input_slots == ctx.input_slots
            &&& changed.input_total == ctx.input_total
            &&& changed.frame_seq == ctx.frame_seq
            &&& changed.ticks == ctx.ticks
            &&& changed.dirty == ctx.dirty
        }),
{
    assert((seq![w] + others)[0] == w);
}

/// A change of the geometry of a window that is not the primary one, or that
/// comes when no window is open, changes nothing.
pub proof fn law_other_windows_do_not_count(
    ctx: CtxView,
    win_id: WinId,
    width: u32,
    height: u32,
    scale: u32,
)
    requires
        ctx.windows.len() == 0 || ctx.windows[0] != win_id,
    ensures
        after_ctl(
            ctx,
            CtlResult::Message(ControlMsg::ConfigChanged { win_id, width, height, scale }),
        ) == ctx,
{
}

/// A fresh context lists the attached windows in their order, has counted
/// nothing yet, and is due to be painted. Without a window it assumes 1080 by
/// 2400 at scale one.
pub proof fn law_attaching_starts_from_nothing(windows: Seq<WindowSpec>)
    ensures
        attached(windows).windows.len() == windows.len(),
        forall|i: int|
            0 <= i < windows.len() ==> #[trigger] attached(windows).windows[i]
                == windows[i].win_id,
        attached(windows).ticks == 0,
        attached(windows).frame_seq == 0,
        attached(windows).input_total == 0,
        attached(windows).input_slots == 0,
        attached(windows).dirty,
        windows.len() == 0 ==> attached(windows).size.0 == 1080 && attached(windows).size.1 == 2400
            && attached(windows).scale_pm == 1000,
{
}

/// Opening a window puts it behind the open ones; closing takes away the
/// windows with that number and leaves the others in their order. Neither
/// touches anything else of the context.
pub proof fn law_windows_come_and_go(ctx: CtxView, w: WinId)
    ensures
        ({
            let opened = after_ctl(ctx, CtlResult::Message(ControlMsg::WindowOpen { win_id: w }));
            let closed = after_ctl(ctx, CtlResult::Message(ControlMsg::WindowClose { win_id: w }));
            &&& opened.windows == ctx.windows + seq![w]
            &&& is_selection(closed.windows, ctx.windows, |x: WinId| x != w, |x: WinId| x)
            &&& opened == (CtxView { windows: opened.windows, ..ctx })
            &&& closed == (CtxView { windows: closed.windows, ..ctx })
        }),
{
    lemma_without(ctx.windows, w);
    assert(ctx.windows.push(w) =~= ctx.windows + seq![w]);
}

proof fn lemma_without(windows: Seq<WinId>, w: WinId)
    ensures
        is_selection(without(windows, w), windows, |x: WinId| x != w, |x: WinId| x),
    decreases windows.len(),
{
    let good = |x: WinId| x != w;
    let make = |x: WinId| x;
    if windows.len() == 0 {
        lemma_select_none(without(windows, w), windows, good, make);
    } else {
        lemma_without(windows.drop_last(), w);
        lemma_select_step(without(windows.drop_last(), w), windows, good, make);
    }
}

/// Only messages about windows change the context: whatever else comes of the
/// control channel leaves it as it is.
pub proof fn law_only_window_messages_change_the_context(ctx: CtxView, r: CtlResult)
    requires
        !(r matches CtlResult::Message(m) && (m is ConfigChanged || m is WindowOpen
            || m is WindowClose)),
    ensures
        after_ctl(ctx, r) == ctx,
{
}

/// What the host gets for a message: a ping comes back with its own time stamp,
/// a pause is answered as busy, a shutdown ends the process with code 0, and
/// everything else goes without an answer.
pub proof fn law_messages_are_answered(m: ControlMsg)
    ensures
        ({
            let acts = ctl_actions(CtlResult::Message(m));
            &&& m matches ControlMsg::Ping { t_ns } ==> acts == seq![
                RtAction::Send(Reply::Pong { t_ns }),
            ]
            &&& m is Pause ==> acts == seq![RtAction::Send(Reply::Busy)]
            &&& m is Shutdown ==> acts == seq![RtAction::Exit(0)]
            &&& !(m is Ping) && !(m is Pause) && !(m is Shutdown) ==> acts.len() == 0
        }),
{
}

/// A read that ran into its deadline gets another 500 milliseconds, whatever
/// stands around the word in the error; any other error means that the host is
/// gone, and the process ends with code 102. A message that cannot be read is
/// passed over.
pub proof fn law_a_deadline_is_no_end(r: CtlResult, before: Seq<char>, after: Seq<char>)
    ensures
        r is Unreadable ==> ctl_actions(r).len() == 0,
        r matches CtlResult::Error(e) ==> (e@ == ErrorView::Internal(
            before + "deadline"@ + after,
        ) ==> ctl_actions(r) == seq![RtAction::SetDeadline(500)]) && (!(e@ is Internal)
            ==> ctl_actions(r) == seq![RtAction::Exit(102)]) && (e@ matches ErrorView::Internal(m)
            ==> m.len() < 8 ==> ctl_actions(r) == seq![RtAction::Exit(102)]),
{
    reveal_strlit("deadline");
    let m = before + "deadline"@ + after;
    let at = before.len() as int;
    assert(m.subrange(at, at + "deadline"@.len()) =~= "deadline"@);
    assert(occurs(m, "deadline"@));
}

/// A frame is published after a call of the application exactly if the call
/// came to its end and asked for one; nothing else is done then.
pub proof fn law_a_frame_is_published_if_asked(
    dirty: bool,
    panicked: Option<Seq<char>>,
    failed: bool,
)
    ensures
        call_actions(dirty, panicked, failed).contains(RtAction::Publish) <==> dirty
            && panicked is None && !failed,
        panicked is None && !failed ==> call_actions(dirty, panicked, failed).len() == (if dirty {
            1nat
        } else {
            0
        }),
        panicked is None && failed ==> call_actions(dirty, panicked, failed) == seq![
            RtAction::Send(
                Reply::CrashReport { signal: 0, backtrace_hash: 0, minidump_len: 0 },
            ),
            RtAction::Exit(101),
        ],
        panicked is Some ==> call_actions(dirty, panicked, failed) == seq![
            RtAction::Send(
                Reply::CrashReport {
                    signal: 0,
                    backtrace_hash: fnv(encode_utf8(panicked->0)),
                    minidump_len: 0,
                },
            ),
            RtAction::Exit(101),
        ],
{
    if dirty && panicked is None && !failed {
        assert(call_actions(dirty, panicked, failed)[0] == RtAction::Publish);
    }
}

/// The hash of a panic message is FNV-1a of 64 bits: it starts from the offset
/// basis, and every byte is mixed in by exclusive or, then multiplied by the
/// prime.
pub proof fn law_hash_is_fnv_1a(bytes: Seq<u8>, b: u8)
    ensures
        fnv(Seq::empty()) == 14695981039346656037u64,
        fnv(bytes.push(b)) == ((fnv(bytes) ^ (b as u64)) * 1099511628211)
            % 0x1_0000_0000_0000_0000,
{
    assert(bytes.push(b).drop_last() =~= bytes);
}

/// A tick counts itself and the input that was drained for it, asks for a
/// frame, and leaves windows, size, scale and the count of frames alone.
pub proof fn law_a_tick_counts(ctx: CtxView, n: usize)
    requires
        ctx.ticks < u64::MAX,
        ctx.input_total + n <= u64::MAX,
    ensures
        ({
            let with = ticked(ctx, Some(n));
            let none = ticked(ctx, None);
            &&& with.ticks == ctx.ticks + 1 && none.ticks == ctx.ticks + 1
            &&& with.input_total == ctx.input_total + n && none.input_total == ctx.input_total
            &&& with.input_slots == n && none.input_slots == ctx.input_slots
            &&& with.dirty && none.dirty
            &&& with.frame_seq == ctx.frame_seq && none.frame_seq == ctx.frame_seq
            &&& with.windows == ctx.windows && none.windows == ctx.windows
            &&& with.size == ctx.size && none.size == ctx.size
            &&& with.scale_pm == ctx.scale_pm && none.scale_pm == ctx.scale_pm
        }),
{
}

/// Two frames in a row never go to the same slot, and there are only two slots.
pub proof fn law_frames_alternate(frame_seq: u64)
    requires
        frame_seq < u64::MAX,
    ensures
        0 <= frame_slot(frame_seq) <= 1,
        frame_slot((frame_seq + 1) as u64) != frame_slot(frame_seq),
        frame_slot(0) == 0,
{
}

/// What a reader finds in a frame: the number of the frame, the ticks and the
/// input so far, each in eight bytes, least significant first, and zeros
/// behind them.
pub proof fn law_a_frame_reads_back(ctx: AppCtx, len: nat)
    requires
        len >= 24,
    ensures
        ctx.frame(len).len() == len,
        le_value(ctx.frame(len).subrange(0, 8)) == ctx.frame_seq,
        le_value(ctx.frame(len).subrange(8, 16)) == ctx.ticks,
        le_value(ctx.frame(len).subrange(16, 24)) == ctx.input_total,
        forall|i: int| 24 <= i < len ==> #[trigger] ctx.frame(len)[i] == 0,
{
    lemma_pow256_values();
    lemma_le_round_trip(ctx.frame_seq as nat, 8);
    lemma_le_round_trip(ctx.ticks as nat, 8);
    lemma_le_round_trip(ctx.input_total as nat, 8);
    let f = ctx.frame(len);
    assert(f.subrange(0, 8) =~= le_bytes(ctx.frame_seq as nat, 8));
    assert(f.subrange(8, 16) =~= le_bytes(ctx.ticks as nat, 8));
    assert(f.subrange(16, 24) =~= le_bytes(ctx.input_total as nat, 8));
}

/// A decimal number is read as what it writes, with or without a plus sign in
/// front; what has no digits, or anything but digits behind the sign, is no
/// number, and neither is one that takes more than 64 bits.
pub proof fn law_numbers_are_read(n: u64, s: Seq<char>)
    ensures
        number_of(dec_text(n as nat)) == Some(n),
        number_of(seq!['+'] + dec_text(n as nat)) == Some(n),
        number_of(s) matches Some(v) ==> is_digits(s) && v == digits_value(s) || s.len() > 1
            && s[0] == '+' && is_digits(s.skip(1)) && v == digits_value(s.skip(1)),
        is_digits(s) ==> (number_of(s) is Some <==> digits_value(s) <= 18446744073709551615),
{
    let t = dec_text(n as nat);
    lemma_dec_text_value(n as nat);
    assert(is_digit(t[0]));
    let p = seq!['+'] + t;
    assert(p.skip(1) =~= t);
    if is_digits(s) {
        assert(is_digit(s[0]));
    }
}

/// What the launcher writes of an identity into the environment, the instance
/// reads as that identity.
pub proof fn law_identity_is_read_back(app_id: Seq<char>, instance: u64, artifact: Seq<u8>)
    requires
        app_id_ok(app_id),
        artifact.len() == 32,
    ensures
        identity_error(
            Some(app_id),
            Some(dec_text(instance as nat)),
            Some(hex_text(artifact)),
        ) is None,
        number_of(dec_text(instance as nat)) == Some(instance),
        hex_decoded(encode_utf8(hex_text(artifact)), 32) == artifact,
{
    law_numbers_are_read(instance, Seq::empty());
    law_hex_round_trip(artifact);
}

/// An instance has an identity exactly if its environment has all three parts
/// and each can be read.
pub proof fn law_identity_needs_all_parts(
    app_id: Option<Seq<char>>,
    instance: Option<Seq<char>>,
    artifact: Option<Seq<char>>,
)
    ensures
        identity_error(app_id, instance, artifact) is None <==> app_id is Some && app_id_ok(
            app_id->0,
        ) && instance is Some && number_of(instance->0) is Some && artifact is Some
            && is_hex_of_len(encode_utf8(artifact->0), 32),
        app_id is None ==> identity_error(app_id, instance, artifact) == Some(
            ErrorView::Internal("rt: falta ARCA_APP_ID"@),
        ),
        app_id is Some && app_id_ok(app_id->0) && instance is None ==> identity_error(
            app_id,
            instance,
            artifact,
        ) == Some(ErrorView::Internal("rt: falta ARCA_INSTANCE"@)),
        app_id is Some && app_id_ok(app_id->0) && instance is Some && number_of(
            instance->0,
        ) is Some && artifact is None ==> identity_error(app_id, instance, artifact) == Some(
            ErrorView::Internal("rt: falta ARCA_ARTIFACT"@),
        ),
{
}

/// Two processes that start at the same reading of the clock have different
/// nonces, and so have two runs at different readings: the first half of a
/// nonce is the reading, and the second loses nothing of the process number.
pub proof fn law_nonces_tell_runs_apart(clock: u64, other: u64, a: u32, b: u32)
    ensures
        le_bytes(clock as nat, 8) == le_bytes(other as nat, 8) ==> clock == other,
        nonce_mix(clock, a) == nonce_mix(clock, b) ==> a == b,
{
    lemma_pow256_values();
    lemma_le_round_trip(clock as nat, 8);
    lemma_le_round_trip(other as nat, 8);
    if nonce_mix(clock, a) == nonce_mix(clock, b) {
        let x: u64 = ((a * 0x9e37_79b9_7f4a_7c15u64) % 0x1_0000_0000_0000_0000) as u64;
        let y: u64 = ((b * 0x9e37_79b9_7f4a_7c15u64) % 0x1_0000_0000_0000_0000) as u64;
        let t = turned(clock, 17);
        let (p, q) = (turned(clock ^ x, 31), turned(clock ^ y, 31));
        assert(p == q) by (bit_vector)
            requires
                t ^ p == t ^ q,
        ;
        assert(x == y) by (bit_vector)
            requires
                ((clock ^ x) << 31u64) | ((clock ^ x) >> 33u64) == ((clock ^ y) << 31u64) | ((
                clock ^ y) >> 33u64),
        ;
        lemma_salt_keeps_the_process(a as int);
        lemma_salt_keeps_the_process(b as int);
    }
}

proof fn lemma_salt_keeps_the_process(p: int)
    requires
        0 <= p <= 0xffff_ffff,
    ensures
        (((p * 0x9e37_79b9_7f4a_7c15) % 0x1_0000_0000_0000_0000) * 17428512612931826493)
            % 0x1_0000_0000_0000_0000 == p,
{
    let n = 0x1_0000_0000_0000_0000int;
    let k = 0x9e37_79b9_7f4a_7c15int;
    let inv = 17428512612931826493int;
    let m = 10771413168148108919int;
    assert(k * inv == 1 + n * m);
    vstd::arithmetic::div_mod::lemma_mul_mod_noop_left(p * k, inv, n);
    assert((p * k) * inv == p + n * (p * m)) by (nonlinear_arith)
        requires
            k * inv == 1 + n * m,
    ;
    vstd::arithmetic::div_mod::lemma_mod_multiples_vanish(p * m, p, n);
    vstd::arithmetic::div_mod::lemma_small_mod(p as nat, n as nat);
}

/// The test application panics only if asked to, in its first tick, and then
/// does nothing else but the socket it was asked for. In every other tick it
/// asks for a frame, and it ends as soon as the limit of ticks is reached.
pub proof fn law_test_application_does_as_asked(
    ticks: u64,
    limit: u64,
    text: Seq<char>,
    socket: bool,
    panic: bool,
)
    requires
        number_of(text) == Some(limit),
    ensures
        ({
            let acts = ping_actions(ticks, Some(text), socket, panic);
            let free = ping_actions(ticks, None, socket, panic);
            &&& acts.contains(PingAction::Panic) <==> panic && ticks == 1
            &&& free.contains(PingAction::Panic) <==> panic && ticks == 1
            &&& acts.contains(PingAction::OpenSocket) <==> socket
            &&& acts.contains(PingAction::MarkDirty) <==> !(panic && ticks == 1)
            &&& acts.contains(PingAction::Exit) <==> !(panic && ticks == 1) && limit <= ticks
            &&& !free.contains(PingAction::Exit)
            &&& socket ==> acts[0] == PingAction::OpenSocket
        }),
{
    let acts = ping_actions(ticks, Some(text), socket, panic);
    let free = ping_actions(ticks, None, socket, panic);
    if socket {
        assert(acts[0] == PingAction::OpenSocket);
        if panic && ticks == 1 {
            assert(acts[1] == PingAction::Panic);
            assert(free[1] == PingAction::Panic);
        } else {
            assert(acts[1] == PingAction::MarkDirty);
            if limit <= ticks {
                assert(acts[2] == PingAction::Exit);
            }
        }
    } else {
        if panic && ticks == 1 {
            assert(acts[0] == PingAction::Panic);
            assert(free[0] == PingAction::Panic);
        } else {
            assert(acts[0] == PingAction::MarkDirty);
            if limit <= ticks {
                assert(acts[1] == PingAction::Exit);
            }
        }
    }
}

} // verus!
