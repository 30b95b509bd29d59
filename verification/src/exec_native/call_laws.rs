//! What callers of the native executor can rely on, told by what goes into a
//! call and what comes out of it.
use vstd::prelude::*;
use vstd::utf8::*;

use crate::exec_abi::spec::AppSpec;
use crate::exec_abi::state::DeathReason;
use crate::exec_native::bus::ConnBus;
use crate::exec_native::drain::{law_kept_is_bounded, texts, Drained, LineDrain};
use crate::exec_native::launch_laws::{
    law_all_but_the_kept_are_closed, law_launched_as_specified, law_unfinished_output_waits,
};
use crate::exec_native::launcher::{
    fd_named, fds_to_close, launcher_next, launcher_run, launcher_step, names_of, Deed,
    LauncherAction, LauncherEvent, LauncherState, News, Stage,
};
use crate::exec_native::masks::{caps_bits, law_mask_holds_the_list, law_mask_round_trip};
use crate::exec_native::plan::{
    default_window, is_elf, launch_view, LaunchPlan, NativeProcessExec, WindowMode, WindowSpec,
};
use crate::exec_native::spec::{env_view, validar_env_extra, LaunchSpec};
use crate::exec_native::spec_laws::{encodable, law_launch_round_trip};
use crate::exec_native::watch::{
    after_kill, death_reason, watch_start, watch_step, HelloExpect, WaitStatus, WatchAction,
    WatchEvent, WatchPhase,
};
use crate::pick::lemma_selection_members;
use crate::text::{dec_text, hex_text};
use crate::types::error::Res;
use crate::types::Capability;

verus! {

/// A plan carries out what its application specification says. The launcher that
/// reads the plan's bytes enters the directory of the application and executes
/// the artifact with the identity, the private directory and the extra pairs.
pub proof fn law_planned_launch_is_carried_out(
    exec: &NativeProcessExec,
    spec: &AppSpec,
    head: &[u8],
    env_extra: Vec<(String, String)>,
    plan: LaunchPlan,
    names: Seq<Seq<char>>,
    own: Option<i32>,
)
    requires
        64 + 64 * exec.input_slots <= usize::MAX,
        call_ensures(
            NativeProcessExec::plan_launch,
            (exec, spec, head, env_extra),
            Ok::<LaunchPlan, _>(plan),
        ),
        encode_utf8(spec.artifact.path@).len() < 0x1_0000,
        encode_utf8(spec.dirs.app_dir@).len() < 0x1_0000,
        encode_utf8(spec.dirs.vault_dir@).len() < 0x1_0000,
        encode_utf8(spec.app_id@).len() < 0x1_0000,
        !spec.artifact.path@.contains('\0'),
        !spec.dirs.vault_dir@.contains('\0'),
        !spec.app_id@.contains('\0'),
    ensures
        ({
            let sent = plan.framed@;
            let env = env_view(env_extra@);
            let read = seq![News::Length(sent.take(4)), News::Blob(sent.skip(4))];
            let filtered = read.push(News::Fds(names, own)).push(News::Filtered);
            let closed = filtered.push(News::Closed);
            &&& launcher_next(launcher_run(filtered), News::Closed).1 == Deed::EnterDir(
                spec.dirs.app_dir@,
            )
            &&& launcher_next(launcher_run(closed), News::Entered).1 == Deed::Execute(
                spec.artifact.path@,
                seq![
                    "ARCA_APP_ID="@ + spec.app_id@,
                    "ARCA_INSTANCE="@ + dec_text(spec.instance.value() as nat),
                    "ARCA_ARTIFACT="@ + hex_text(spec.artifact.hash@),
                    "ARCA_VAULT="@ + spec.dirs.vault_dir@,
                ] + Seq::new(env.len(), |i: int| env[i].0 + seq!['='] + env[i].1),
            )
        }),
        is_elf(head@),
        plan.input_len == 64 + 64 * exec.input_slots,
        plan.window.width == 1080 && plan.window.height == 2400 && plan.window.scale == 1000,
{
    law_launched_as_specified(*spec, env_view(env_extra@), names, own);
}

/// The watch expects of a planned instance the identity that its specification
/// gives, and grants it the capabilities that the specification lists.
pub proof fn law_watch_expects_what_was_planned(
    exec: &NativeProcessExec,
    spec: &AppSpec,
    head: &[u8],
    env_extra: Vec<(String, String)>,
    plan: LaunchPlan,
    expect: HelloExpect,
    caps: Vec<Capability>,
    c: Capability,
)
    requires
        64 + 64 * exec.input_slots <= usize::MAX,
        call_ensures(
            NativeProcessExec::plan_launch,
            (exec, spec, head, env_extra),
            Ok::<LaunchPlan, _>(plan),
        ),
        call_ensures(
            watch_start,
            (&plan.spec,),
            Ok::<(HelloExpect, Vec<Capability>), _>((expect, caps)),
        ),
    ensures
        expect.app_id@ == spec.app_id@,
        expect.instance.value() == spec.instance.value(),
        expect.artifact_hash@ == spec.artifact.hash@,
        caps@.contains(c) <==> spec.caps@.contains(c),
{
    assert(plan.spec@.app_id == plan.spec.app_id@);
    law_mask_round_trip(spec.caps@);
}

/// A launch is planned exactly if the artifact begins like an ELF file and the
/// extra pairs are accepted.
pub proof fn law_when_a_launch_is_planned(
    exec: &NativeProcessExec,
    spec: &AppSpec,
    head: &[u8],
    env_extra: Vec<(String, String)>,
    r: Res<LaunchPlan>,
    checked: Res<()>,
    pairs: &[(String, String)],
)
    requires
        64 + 64 * exec.input_slots <= usize::MAX,
        pairs@ == env_extra@,
        call_ensures(NativeProcessExec::plan_launch, (exec, spec, head, env_extra), r),
        call_ensures(validar_env_extra, (pairs,), checked),
    ensures
        r is Ok <==> seq![0x7fu8, 0x45u8, 0x4cu8, 0x46u8].is_prefix_of(head@) && checked is Ok,
{
    crate::exec_native::launch_laws::law_elf_begins_with_its_mark(head@);
}

/// The window that an instance gets: number 1, 1080 by 2400 pixels at scale one,
/// 60 frames a second, over the whole screen.
pub proof fn law_default_window(w: WindowSpec)
    requires
        call_ensures(default_window, (), w),
    ensures
        w.win_id.value() == 1,
        w.width == 1080 && w.height == 2400,
        w.scale == 1000 && w.vsync_hz == 60,
        w.mode == WindowMode::Full,
{
}

/// An executor has the launcher and the frame size it was made with, and 256
/// slots of input until another number is asked for.
pub proof fn law_executor_is_as_it_was_made(
    bin: &str,
    is_file: bool,
    frame: usize,
    r: Res<NativeProcessExec>,
    other: NativeProcessExec,
    bytes: usize,
    slots: usize,
    resized: NativeProcessExec,
    widened: NativeProcessExec,
)
    requires
        call_ensures(NativeProcessExec::new, (bin, is_file, frame), r),
        call_ensures(NativeProcessExec::with_frame_bytes, (other, bytes), resized),
        call_ensures(NativeProcessExec::with_input_slots, (other, slots), widened),
    ensures
        r is Ok <==> is_file,
        r matches Ok(e) ==> e.launch_bin@ == bin@ && e.frame_bytes == frame && e.input_slots == 256,
        resized.frame_bytes == bytes && resized.input_slots == other.input_slots
            && resized.launch_bin@ == other.launch_bin@,
        widened.input_slots == slots && widened.frame_bytes == other.frame_bytes
            && widened.launch_bin@ == other.launch_bin@,
{
}

/// A running instance is killed exactly when a look finds that the host has let
/// go of it, and in no other step.
pub proof fn law_a_step_kills_only_the_abandoned(
    phase: WatchPhase,
    event: WatchEvent,
    r: (WatchPhase, Vec<WatchAction>),
)
    requires
        call_ensures(watch_step, (phase, event), r),
    ensures
        r.1@.contains(WatchAction::Kill) <==> phase is Watching && event == WatchEvent::Timeout(
            false,
        ),
        phase is Watching && event == WatchEvent::Timeout(true) ==> r.0 is Watching && r.1@ == seq![
            WatchAction::Wait(250),
        ],
        r.1@.contains(WatchAction::EmitReady) <==> phase is Handshake && event is HandshakeOk,
        r.1@.contains(WatchAction::ReapNow) <==> phase is Handshake && event !is HandshakeOk,
{
    if phase is Watching && event == WatchEvent::Timeout(false) {
        assert(r.1@[0] == WatchAction::Kill);
    }
    if phase is Handshake && event is HandshakeOk {
        assert(r.1@[2] == WatchAction::EmitReady);
    }
    if phase is Handshake && event !is HandshakeOk {
        assert(r.1@[0] == WatchAction::ReapNow);
    }
}

/// A kill that could not be delivered means that the instance is lost.
pub proof fn law_undelivered_kill_is_a_loss(delivered: bool, r: Option<DeathReason>)
    requires
        call_ensures(after_kill, (delivered,), r),
    ensures
        r is None <==> delivered,
        r matches Some(d) ==> d == DeathReason::Lost,
{
}

/// The numbers of messages follow one another, also where one could not be sent
/// for want of a connection; after the last of 64 bits comes 0.
pub proof fn law_messages_are_numbered_in_turn(bus: &mut ConnBus, r: Res<u64>)
    requires
        call_ensures(ConnBus::begin_send, (bus,), r),
    ensures
        r is Ok <==> old(bus).connected(),
        r matches Ok(n) ==> n == old(bus).next(),
        old(bus).next() < u64::MAX ==> final(bus).next() == old(bus).next() + 1,
        old(bus).next() == u64::MAX ==> final(bus).next() == 0,
        final(bus).connected() == old(bus).connected(),
{
}

/// A deadline is set before receiving only where none is, and is held within 32
/// bits.
pub proof fn law_deadline_is_set_once(
    bus: &ConnBus,
    current: u32,
    timeout_ms: u128,
    r: Res<Option<u32>>,
)
    requires
        call_ensures(ConnBus::begin_receive, (bus, current, timeout_ms), r),
    ensures
        r is Ok <==> bus.connected(),
        r matches Ok(d) ==> (current != 0 ==> d is None) && (current == 0 && timeout_ms
            <= 4294967295 ==> (d matches Some(ms) && ms == timeout_ms)) && (current == 0
            && timeout_ms > 4294967295 ==> d == Some(4294967295u32)),
{
}

/// No descriptor that the application keeps is closed, nor the listing itself,
/// and every other open one is.
pub proof fn law_kept_descriptors_stay_open(
    names: &Vec<String>,
    link: Option<String>,
    fds: Vec<i32>,
    name: int,
    fd: i32,
)
    requires
        call_ensures(fds_to_close, (names, &link), fds),
        0 <= name < names@.len(),
        fd_named(names@[name]@) == Some(fd),
    ensures
        0 <= fd <= 2 || 4 <= fd <= 6 ==> !fds@.contains(fd),
        (link matches Some(l) && fd_named(l@) == Some(fd)) ==> !fds@.contains(fd),
        !(0 <= fd <= 2 || 4 <= fd <= 6) && !(link matches Some(l) && fd_named(l@) == Some(fd))
            ==> fds@.contains(fd),
{
    let own = match link {
        Some(l) => fd_named(l@),
        None => None,
    };
    let all = names_of(names@);
    law_all_but_the_kept_are_closed(all, own);
    let good = |n: Seq<char>|
        fd_named(n) is Some && fd_named(n) != own && fd_named(n)->0 != 0 && fd_named(n)->0 != 1
            && fd_named(n)->0 != 2 && fd_named(n)->0 != 4 && fd_named(n)->0 != 5 && fd_named(n)->0
            != 6;
    lemma_selection_members(fds@, all, good, |n: Seq<char>| fd_named(n)->0);
    assert(all[name] == names@[name]@);
    if fds@.contains(fd) {
        let i = choose|i: int| 0 <= i < all.len() && good(#[trigger] all[i]) && fd == fd_named(
            all[i],
        )->0;
        assert(good(all[i]));
    }
    if !(0 <= fd <= 2 || 4 <= fd <= 6) && own != Some(fd) {
        assert(good(all[name]));
    }
}

/// The bit of each capability is set exactly if the capability is in the list.
pub proof fn law_bits_stand_for_capabilities(caps: &[Capability], bits: u32)
    requires
        call_ensures(caps_bits, (caps,), bits),
    ensures
        bits & 0x1 != 0 <==> caps@.contains(Capability::NetClient),
        bits & 0x2 != 0 <==> caps@.contains(Capability::NetServer),
        bits & 0x4 != 0 <==> caps@.contains(Capability::ClipboardRead),
        bits & 0x8 != 0 <==> caps@.contains(Capability::ClipboardWrite),
        bits & 0x10 != 0 <==> caps@.contains(Capability::Notify),
        bits & 0x20 != 0 <==> caps@.contains(Capability::Share),
        bits & 0x40 != 0 <==> caps@.contains(Capability::OpenUri),
        bits & 0x80 != 0 <==> caps@.contains(Capability::Vibrate),
        bits & 0x100 != 0 <==> caps@.contains(Capability::FsVault),
        bits & 0x200 != 0 <==> caps@.contains(Capability::SystemStoreRead),
        bits & 0x400 != 0 <==> caps@.contains(Capability::BackgroundAudio),
{
    assert(1u32 << 0u32 == 0x1 && 1u32 << 1u32 == 0x2 && 1u32 << 2u32 == 0x4 && 1u32 << 3u32 == 0x8 && 1u32 << 4u32 == 0x10 && 1u32 << 5u32 == 0x20 && 1u32 << 6u32 == 0x40 && 1u32 << 7u32 == 0x80 && 1u32 << 8u32 == 0x100 && 1u32 << 9u32 == 0x200 && 1u32 << 10u32 == 0x400) by (bit_vector);
    law_mask_holds_the_list(caps@, Capability::NetClient);
    law_mask_holds_the_list(caps@, Capability::NetServer);
    law_mask_holds_the_list(caps@, Capability::ClipboardRead);
    law_mask_holds_the_list(caps@, Capability::ClipboardWrite);
    law_mask_holds_the_list(caps@, Capability::Notify);
    law_mask_holds_the_list(caps@, Capability::Share);
    law_mask_holds_the_list(caps@, Capability::OpenUri);
    law_mask_holds_the_list(caps@, Capability::Vibrate);
    law_mask_holds_the_list(caps@, Capability::FsVault);
    law_mask_holds_the_list(caps@, Capability::SystemStoreRead);
    law_mask_holds_the_list(caps@, Capability::BackgroundAudio);
}

/// The specification of a launch holds each part of the application in its own
/// place, and so does what is decoded of its bytes.
pub proof fn law_parts_of_a_launch_keep_their_places(
    exec: &NativeProcessExec,
    spec: &AppSpec,
    head: &[u8],
    env_extra: Vec<(String, String)>,
    plan: LaunchPlan,
)
    requires
        64 + 64 * exec.input_slots <= usize::MAX,
        call_ensures(
            NativeProcessExec::plan_launch,
            (exec, spec, head, env_extra),
            Ok::<LaunchPlan, _>(plan),
        ),
    ensures
        plan.spec.app_path@ == spec.artifact.path@,
        plan.spec.app_dir@ == spec.dirs.app_dir@,
        plan.spec.vault_dir@ == spec.dirs.vault_dir@,
        plan.spec.app_id@ == spec.app_id@,
        plan.spec.instance == spec.instance.value(),
        plan.spec.artifact@ == spec.artifact.hash@,
        env_view(plan.spec.env_extra@) == env_view(env_extra@),
{
    let v = plan.spec@;
    assert(v == launch_view(*spec, env_view(env_extra@)));
}

/// A launch that was written is read back part by part.
pub proof fn law_written_launch_is_read_back(
    spec: &LaunchSpec,
    bytes: Vec<u8>,
    buf: &[u8],
    r: Res<LaunchSpec>,
)
    requires
        encodable(spec@),
        call_ensures(LaunchSpec::encode, (spec,), bytes),
        buf@ == bytes@,
        call_ensures(LaunchSpec::decode, (buf,), r),
    ensures
        r matches Ok(back) && back.app_path@ == spec.app_path@ && back.app_dir@ == spec.app_dir@
            && back.vault_dir@ == spec.vault_dir@ && back.app_id@ == spec.app_id@ && back.instance
            == spec.instance && back.caps_bits == spec.caps_bits && back.artifact@ == spec.artifact@
            && env_view(back.env_extra@) == env_view(spec.env_extra@),
{
    law_launch_round_trip(spec@);
    if r is Ok {
        assert(r->Ok_0@ == spec@);
    }
}

/// A launcher that failed once does nothing but give up, and one that is told of
/// a failure gives up with it.
pub proof fn law_launcher_gives_up_for_good(
    state: LauncherState,
    event: LauncherEvent,
    r: (LauncherState, LauncherAction),
)
    requires
        call_ensures(launcher_step, (state, event), r),
    ensures
        state is Failed ==> r.0 is Failed && r.1 is Abort,
        event matches LauncherEvent::Failed(e) ==> r.0 is Failed && (r.1 matches
            LauncherAction::Abort(x) && x@ == e@),
        r.1 is Execute ==> state is Entering && event is Entered,
        r.1 is EnterDir ==> state is Closing && event is Closed,
        r.1 is CloseFds ==> state is Filter && event is Filtered,
{
    assert((r.0@, r.1@) == launcher_next(state@, event@));
}

/// The application is executed by the path that the launch says, in the directory
/// that it says.
pub proof fn law_launcher_does_what_the_launch_says(
    spec: LaunchSpec,
    entering: (LauncherState, LauncherAction),
    started: (LauncherState, LauncherAction),
)
    requires
        call_ensures(
            launcher_step,
            (LauncherState::Closing(spec), LauncherEvent::Closed),
            entering,
        ),
        call_ensures(
            launcher_step,
            (LauncherState::Entering(spec), LauncherEvent::Entered),
            started,
        ),
        !spec.app_path@.contains('\0'),
    ensures
        entering.1 matches LauncherAction::EnterDir(d) && d@ == spec.app_dir@,
        started.1 matches LauncherAction::Execute(p, _) && p@ == spec.app_path@,
{
    assert((entering.0@, entering.1@) == launcher_next(Stage::Closing(spec@), News::Closed));
    assert((started.0@, started.1@) == launcher_next(Stage::Entering(spec@), News::Entered));
}

/// Text without an end of line gives no lines and waits.
pub proof fn law_unfinished_text_is_kept(drain: &mut LineDrain, text: &str, lines: Vec<String>)
    requires
        !text@.contains('\n'),
        call_ensures(LineDrain::feed_text, (drain, text), lines),
        encode_utf8(old(drain).pending() + text@).len() <= 65536,
    ensures
        lines@.len() == 0,
        final(drain).pending() == old(drain).pending() + text@,
{
    let d = Drained { pending: old(drain).pending(), lines: Seq::empty() };
    law_unfinished_output_waits(d, text@);
    law_kept_is_bounded(old(drain).pending() + text@);
    assert(texts(lines@).len() == lines@.len());
}

/// How a process died is told as the system says.
pub proof fn law_death_is_as_the_system_says(status: WaitStatus, reason: DeathReason)
    requires
        call_ensures(death_reason, (status,), reason),
    ensures
        status matches WaitStatus::Exited(c) ==> reason == (DeathReason::Exit { code: c }),
        status matches WaitStatus::Signaled(s) ==> reason == (DeathReason::Signaled { signal: s }),
        status is Other ==> reason == DeathReason::Lost,
{
}

/// A connection is there after it was installed until it is taken; its numbering
/// goes on.
pub proof fn law_connection_is_taken_once(bus: &mut ConnBus, had: bool)
    requires
        call_ensures(ConnBus::take, (bus,), had),
    ensures
        had <==> old(bus).connected(),
        !final(bus).connected(),
        final(bus).next() == old(bus).next(),
{
}

} // verus!
