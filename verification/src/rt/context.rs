//! The context of an application inside the frame loop, and the loop's rules.
use vstd::prelude::*;
use vstd::utf8::*;

use crate::bytes::{le_bytes, lemma_le_bytes_len, push_le};
use crate::exec_abi::shutdown::ShutdownReason;
use crate::exec_native::plan::{ShmLayout, WindowSpec};
use crate::text::to_chars;
use crate::types::error::{fails, ArcaError, ErrorView, Res};
use crate::types::{AppId, Capability, InstanceId, WinId};

verus! {

/// Exit code of a clean shutdown.
pub const EXIT_CLEAN: i32 = 0;

/// Exit code after an error or a panic of the application.
pub const EXIT_CRASH: i32 = 101;

/// Exit code when the host is not there.
pub const EXIT_NO_HOST: i32 = 102;

/// Milliseconds that a read from the host may take.
pub const CTL_DEADLINE_MS: u32 = 500;

/// A control message from the host, as far as the runtime acts on it.
#[derive(Debug, Clone, Copy, PartialEq, Eq, Structural)]
pub enum ControlMsg {
    Ping { t_ns: u64 },
    Shutdown { reason: ShutdownReason },
    Pause,
    Resume,
    ConfigChanged { win_id: WinId, width: u32, height: u32, scale: u32 },
    WindowOpen { win_id: WinId },
    WindowClose { win_id: WinId },
    WindowFocus { win_id: WinId },
    /// Any other message.
    Other,
}

/// What the runtime sends to the host.
#[derive(Debug, Clone, Copy, PartialEq, Eq, Structural)]
pub enum Reply {
    Pong { t_ns: u64 },
    Busy,
    /// Comes without a minidump: its length is 0.
    CrashReport { signal: i32, backtrace_hash: u64, minidump_len: u32 },
}

/// What the runtime does.
#[derive(Debug, Clone, Copy, PartialEq, Eq, Structural)]
pub enum RtAction {
    /// Drains the input and calls the application.
    Tick,
    /// Reads a control message.
    Receive,
    /// Publishes a frame.
    Publish,
    /// Sends a message; failure is of no consequence.
    Send(Reply),
    /// Sets the deadline of reads from the host.
    SetDeadline(u32),
    /// Ends the process.
    Exit(i32),
}

/// How a call of the application ended.
pub enum CallOutcome {
    Done,
    /// It returned an error.
    Failed,
    /// It panicked, with this message.
    Panicked(String),
}

/// What came of reading a control message.
pub enum CtlResult {
    Message(ControlMsg),
    /// A message that cannot be read.
    Unreadable,
    Error(ArcaError),
}

/// What the application sees of itself in the frame loop.
pub struct AppCtx {
    pub app_id: AppId,
    pub instance: InstanceId,
    /// Windows that are open; the first is the primary one.
    pub windows: Vec<WinId>,
    /// Capabilities that were granted.
    pub caps: Vec<Capability>,
    /// Scale in thousandths.
    pub scale_pm: u32,
    /// Size of the primary window.
    pub size: (u32, u32),
    /// Input slots drained in this tick.
    pub input_slots: usize,
    /// Frames that were published.
    pub frame_seq: u64,
    /// Whether this tick publishes a frame.
    pub dirty: bool,
    /// Ticks that were processed.
    pub ticks: u64,
    /// Input slots drained so far.
    pub input_total: u64,
}

/// What changes in a context.
#[verifier::ext_equal]
pub struct CtxView {
    pub windows: Seq<WinId>,
    pub scale_pm: u32,
    pub size: (u32, u32),
    pub input_slots: usize,
    pub frame_seq: u64,
    pub dirty: bool,
    pub ticks: u64,
    pub input_total: u64,
}

impl View for AppCtx {
    type V = CtxView;

    open spec fn view(&self) -> CtxView {
        CtxView {
            windows: self.windows@,
            scale_pm: self.scale_pm,
            size: self.size,
            input_slots: self.input_slots,
            frame_seq: self.frame_seq,
            dirty: self.dirty,
            ticks: self.ticks,
            input_total: self.input_total,
        }
    }
}

/// The windows without one of them.
pub open spec fn without(windows: Seq<WinId>, w: WinId) -> Seq<WinId>
    decreases windows.len(),
{
    if windows.len() == 0 {
        windows
    } else if windows.last() == w {
        without(windows.drop_last(), w)
    } else {
        without(windows.drop_last(), w).push(windows.last())
    }
}

/// What a control message makes of the context.
pub open spec fn after_message(ctx: CtxView, m: ControlMsg) -> CtxView {
    match m {
        ControlMsg::ConfigChanged { win_id, width, height, scale } => if ctx.windows.len() > 0
            && ctx.windows[0] == win_id {
            CtxView { size: (width, height), scale_pm: scale, ..ctx }
        } else {
            ctx
        },
        ControlMsg::WindowOpen { win_id } => CtxView { windows: ctx.windows.push(win_id), ..ctx },
        ControlMsg::WindowClose { win_id } => CtxView {
            windows: without(ctx.windows, win_id),
            ..ctx
        },
        _ => ctx,
    }
}

/// What the runtime does about a control message.
pub open spec fn message_actions(m: ControlMsg) -> Seq<RtAction> {
    match m {
        ControlMsg::Ping { t_ns } => seq![RtAction::Send(Reply::Pong { t_ns })],
        ControlMsg::Shutdown { .. } => seq![RtAction::Exit(EXIT_CLEAN)],
        ControlMsg::Pause => seq![RtAction::Send(Reply::Busy)],
        _ => seq![],
    }
}

/// One step of FNV-1a.
pub open spec fn fnv_step(h: u64, b: u8) -> u64 {
    (((h ^ (b as u64)) * 0x100_0000_01b3u64) % 0x1_0000_0000_0000_0000) as u64
}

/// FNV-1a over bytes.
pub open spec fn fnv(bytes: Seq<u8>) -> u64
    decreases bytes.len(),
{
    if bytes.len() == 0 {
        0xcbf2_9ce4_8422_2325
    } else {
        fnv_step(fnv(bytes.drop_last()), bytes.last())
    }
}

/// Stable hash of a panic message, for grouping.
pub fn panic_hash(msg: &str) -> (h: u64)
    ensures
        h == fnv(encode_utf8(msg@)),
{
    let b: &[u8] = msg.as_bytes();
    let mut h: u64 = 0xcbf2_9ce4_8422_2325;
    let mut i: usize = 0;
    while i < b.len()
        invariant
            i <= b@.len(),
            h == fnv(b@.take(i as int)),
        decreases b@.len() - i,
    {
        assert(b@.take(i + 1).drop_last() =~= b@.take(i as int));
        h = (h ^ (b[i] as u64)).wrapping_mul(0x100_0000_01b3);
        i += 1;
    }
    assert(b@.take(i as int) =~= b@);
    h
}

/// The report of a crash inside the application: no signal, and no minidump.
pub open spec fn crash_report(backtrace_hash: u64) -> Reply {
    Reply::CrashReport { signal: 0, backtrace_hash, minidump_len: 0 }
}

/// What the runtime does after a call of the application.
pub open spec fn call_actions(dirty: bool, panicked: Option<Seq<char>>, failed: bool) -> Seq<
    RtAction,
> {
    if panicked is Some {
        seq![
            RtAction::Send(crash_report(fnv(encode_utf8(panicked->0)))),
            RtAction::Exit(EXIT_CRASH),
        ]
    } else if failed {
        seq![
            RtAction::Send(crash_report(0)),
            RtAction::Exit(EXIT_CRASH),
        ]
    } else if dirty {
        seq![RtAction::Publish]
    } else {
        seq![]
    }
}

/// `needle` occurs in `text`.
pub open spec fn occurs(text: Seq<char>, needle: Seq<char>) -> bool {
    exists|i: int| 0 <= i <= text.len() - needle.len() && #[trigger] text.subrange(
        i,
        i + needle.len(),
    ) == needle
}

fn matches_at(text: &Vec<char>, needle: &Vec<char>, at: usize) -> (r: bool)
    requires
        at + needle@.len() <= text@.len(),
    ensures
        r == (text@.subrange(at as int, at + needle@.len()) == needle@),
{
    let ghost part = text@.subrange(at as int, at + needle@.len());
    let n: usize = needle.len();
    let total: usize = text.len();
    let mut i: usize = 0;
    while i < n
        invariant
            i <= n,
            n == needle@.len(),
            total == text@.len(),
            at + n <= total,
            part == text@.subrange(at as int, at + needle@.len()),
            forall|k: int| 0 <= k < i ==> part[k] == needle@[k],
        decreases n - i,
    {
        if text[at + i] != needle[i] {
            assert(part[i as int] != needle@[i as int]);
            return false;
        }
        i += 1;
    }
    assert(part =~= needle@);
    true
}

/// Whether `needle` occurs in `text`.
pub fn contains_text(text: &str, needle: &str) -> (r: bool)
    ensures
        r == occurs(text@, needle@),
{
    let t: Vec<char> = to_chars(text);
    let n: Vec<char> = to_chars(needle);
    if n.len() > t.len() {
        return false;
    }
    let last: usize = t.len() - n.len();
    let mut i: usize = 0;
    while i <= last
        invariant
            t@ == text@,
            n@ == needle@,
            last == t@.len() - n@.len(),
            0 <= i <= last + 1,
            forall|k: int|
                0 <= k < i ==> #[trigger] text@.subrange(k, k + needle@.len()) != needle@,
        decreases last + 1 - i,
    {
        if matches_at(&t, &n, i) {
            return true;
        }
        if i == last {
            return false;
        }
        i += 1;
    }
    false
}

/// The error says that a deadline has passed.
pub open spec fn is_deadline(e: ErrorView) -> bool {
    e matches ErrorView::Internal(m) && occurs(m, "deadline"@)
}

/// What a control channel makes of the context.
pub open spec fn after_ctl(ctx: CtxView, r: CtlResult) -> CtxView {
    match r {
        CtlResult::Message(m) => after_message(ctx, m),
        _ => ctx,
    }
}

/// What the runtime does about the control channel: a deadline that passed is
/// set again, a channel that is gone ends the process.
pub open spec fn ctl_actions(r: CtlResult) -> Seq<RtAction> {
    match r {
        CtlResult::Message(m) => message_actions(m),
        CtlResult::Unreadable => seq![],
        CtlResult::Error(e) => if is_deadline(e@) {
            seq![RtAction::SetDeadline(CTL_DEADLINE_MS)]
        } else {
            seq![RtAction::Exit(EXIT_NO_HOST)]
        },
    }
}

/// The context right after the handshake: the windows that were attached, with
/// scale and size of the first of them.
pub open spec fn attached(windows: Seq<WindowSpec>) -> CtxView {
    CtxView {
        windows: windows.map_values(|w: WindowSpec| w.win_id),
        scale_pm: if windows.len() > 0 {
            windows[0].scale
        } else {
            1000
        },
        size: if windows.len() > 0 {
            (windows[0].width, windows[0].height)
        } else {
            (1080, 2400)
        },
        input_slots: 0,
        frame_seq: 0,
        dirty: true,
        ticks: 0,
        input_total: 0,
    }
}

/// What the beginning of a tick makes of the context.
pub open spec fn ticked(ctx: CtxView, drained: Option<usize>) -> CtxView {
    CtxView {
        input_slots: match drained {
            Some(n) => n,
            None => ctx.input_slots,
        },
        input_total: match drained {
            Some(n) => (ctx.input_total + n) as u64,
            None => ctx.input_total,
        },
        ticks: (ctx.ticks + 1) as u64,
        dirty: true,
        ..ctx
    }
}

/// The slot that a frame goes to.
pub open spec fn frame_slot(frame_seq: u64) -> int {
    frame_seq as int % 2
}

impl AppCtx {
    /// The context after the handshake: the windows that were attached, and
    /// scale and size of the first of them.
    pub fn attach(
        app_id: AppId,
        instance: InstanceId,
        windows: &Vec<WindowSpec>,
        caps: Vec<Capability>,
    ) -> (r: AppCtx)
        ensures
            r.app_id == app_id,
            r.instance == instance,
            r.caps == caps,
            r@ == attached(windows@),
            r@ == (CtxView {
                windows: windows@.map_values(|w: WindowSpec| w.win_id),
                scale_pm: if windows@.len() > 0 {
                    windows@[0].scale
                } else {
                    1000
                },
                size: if windows@.len() > 0 {
                    (windows@[0].width, windows@[0].height)
                } else {
                    (1080, 2400)
                },
                input_slots: 0,
                frame_seq: 0,
                dirty: true,
                ticks: 0,
                input_total: 0,
            }),
    {
        let mut ids: Vec<WinId> = Vec::new();
        let mut i: usize = 0;
        while i < windows.len()
            invariant
                i <= windows@.len(),
                ids@ == windows@.take(i as int).map_values(|w: WindowSpec| w.win_id),
            decreases windows@.len() - i,
        {
            ids.push(windows[i].win_id);
            assert(ids@ =~= windows@.take(i + 1).map_values(|w: WindowSpec| w.win_id));
            i += 1;
        }
        assert(windows@.take(i as int) =~= windows@);
        let (scale_pm, size) = if windows.len() > 0 {
            (windows[0].scale, (windows[0].width, windows[0].height))
        } else {
            (1000, (1080, 2400))
        };
        AppCtx {
            app_id,
            instance,
            windows: ids,
            caps,
            scale_pm,
            size,
            input_slots: 0,
            frame_seq: 0,
            dirty: true,
            ticks: 0,
            input_total: 0,
        }
    }

    /// What to do after a look at the channels: a tick comes before a control
    /// message.
    pub fn after_poll(tick: bool, ctl: bool) -> (r: Vec<RtAction>)
        ensures
            r@ == (if tick {
                seq![RtAction::Tick]
            } else {
                seq![]
            }) + (if ctl {
                seq![RtAction::Receive]
            } else {
                seq![]
            }),
    {
        let mut out: Vec<RtAction> = Vec::new();
        if tick {
            out.push(RtAction::Tick);
        }
        if ctl {
            out.push(RtAction::Receive);
        }
        assert(out@ =~= (if tick {
            seq![RtAction::Tick]
        } else {
            seq![]
        }) + (if ctl {
            seq![RtAction::Receive]
        } else {
            seq![]
        }));
        out
    }

    /// What to do before a control message is read: without a connection the
    /// process ends, and a read that could wait for ever gets a deadline.
    pub fn before_receive(connected: bool, deadline_ms: u32) -> (r: Vec<RtAction>)
        ensures
            r@ == (if !connected {
                seq![RtAction::Exit(EXIT_NO_HOST)]
            } else if deadline_ms == 0 {
                seq![RtAction::SetDeadline(CTL_DEADLINE_MS)]
            } else {
                seq![]
            }),
    {
        let mut out: Vec<RtAction> = Vec::new();
        if !connected {
            out.push(RtAction::Exit(EXIT_NO_HOST));
        } else if deadline_ms == 0 {
            out.push(RtAction::SetDeadline(CTL_DEADLINE_MS));
        }
        out
    }

    /// A tick begins; `drained` input slots were taken, or there is no ring.
    pub fn begin_tick(&mut self, drained: Option<usize>)
        requires
            old(self).ticks < u64::MAX,
            drained matches Some(n) ==> old(self).input_total + n <= u64::MAX,
        ensures
            final(self)@ == ticked(old(self)@, drained),
            final(self)@ == (CtxView {
                input_slots: match drained {
                    Some(n) => n,
                    None => old(self).input_slots,
                },
                input_total: match drained {
                    Some(n) => (old(self).input_total + n) as u64,
                    None => old(self).input_total,
                },
                ticks: (old(self).ticks + 1) as u64,
                dirty: true,
                ..old(self)@
            }),
            final(self).app_id == old(self).app_id,
            final(self).instance == old(self).instance,
            final(self).caps == old(self).caps,
    {
        match drained {
            Some(n) => {
                self.input_slots = n;
                self.input_total = self.input_total + n as u64;
            },
            None => {},
        }
        self.ticks = self.ticks + 1;
        self.dirty = true;
    }

    /// The application was called: what to do.
    pub fn end_tick(&self, outcome: CallOutcome) -> (r: Vec<RtAction>)
        ensures
            r@ == call_actions(
                self.dirty,
                match outcome {
                    CallOutcome::Panicked(m) => Some(m@),
                    _ => None,
                },
                outcome is Failed,
            ),
    {
        let mut out: Vec<RtAction> = Vec::new();
        match outcome {
            CallOutcome::Done => {
                if self.dirty {
                    out.push(RtAction::Publish);
                }
            },
            CallOutcome::Failed => {
                out.push(
                    RtAction::Send(
                        Reply::CrashReport { signal: 0, backtrace_hash: 0, minidump_len: 0 },
                    ),
                );
                out.push(RtAction::Exit(EXIT_CRASH));
            },
            CallOutcome::Panicked(msg) => {
                let hash: u64 = panic_hash(msg.as_str());
                out.push(
                    RtAction::Send(
                        Reply::CrashReport { signal: 0, backtrace_hash: hash, minidump_len: 0 },
                    ),
                );
                out.push(RtAction::Exit(EXIT_CRASH));
            },
        }
        assert(out@ =~= call_actions(
            self.dirty,
            match outcome {
                CallOutcome::Panicked(m) => Some(m@),
                _ => None,
            },
            outcome is Failed,
        ));
        out
    }

    /// A control message arrived, or the attempt to read one failed: changes
    /// the context, and tells what to do.
    pub fn handle_ctl(&mut self, r: CtlResult) -> (out: Vec<RtAction>)
        ensures
            final(self)@ == after_ctl(old(self)@, r),
            out@ == ctl_actions(r),
            final(self).app_id == old(self).app_id,
            final(self).instance == old(self).instance,
            final(self).caps == old(self).caps,
    {
        let mut out: Vec<RtAction> = Vec::new();
        match r {
            CtlResult::Message(m) => {
                match m {
                    ControlMsg::Ping { t_ns } => {
                        out.push(RtAction::Send(Reply::Pong { t_ns }));
                    },
                    ControlMsg::Shutdown { .. } => {
                        out.push(RtAction::Exit(EXIT_CLEAN));
                    },
                    ControlMsg::Pause => {
                        out.push(RtAction::Send(Reply::Busy));
                    },
                    ControlMsg::ConfigChanged { win_id, width, height, scale } => {
                        if self.windows.len() > 0 && self.windows[0] == win_id {
                            self.size = (width, height);
                            self.scale_pm = scale;
                        }
                    },
                    ControlMsg::WindowOpen { win_id } => {
                        self.windows.push(win_id);
                    },
                    ControlMsg::WindowClose { win_id } => {
                        self.close_window(win_id);
                    },
                    _ => {},
                }
                assert(out@ =~= message_actions(m));
            },
            CtlResult::Unreadable => {},
            CtlResult::Error(e) => {
                if deadline_passed(&e) {
                    out.push(RtAction::SetDeadline(CTL_DEADLINE_MS));
                } else {
                    out.push(RtAction::Exit(EXIT_NO_HOST));
                }
            },
        }
        assert(out@ =~= ctl_actions(r));
        out
    }

    fn close_window(&mut self, w: WinId)
        ensures
            final(self)@ == (CtxView { windows: without(old(self).windows@, w), ..old(self)@ }),
            final(self).app_id == old(self).app_id,
            final(self).instance == old(self).instance,
            final(self).caps == old(self).caps,
    {
        let mut left: Vec<WinId> = Vec::new();
        let mut i: usize = 0;
        assert(without(self.windows@.take(0), w) =~= Seq::<WinId>::empty());
        while i < self.windows.len()
            invariant
                i <= self.windows@.len(),
                left@ == without(self.windows@.take(i as int), w),
            decreases self.windows@.len() - i,
        {
            assert(self.windows@.take(i + 1).drop_last() =~= self.windows@.take(i as int));
            let x: WinId = self.windows[i];
            if x != w {
                left.push(x);
            }
            i += 1;
        }
        assert(self.windows@.take(i as int) =~= self.windows@);
        self.windows = left;
    }

    /// The next frame: counts it, and gives the slot it goes to.
    pub fn next_frame(&mut self) -> (slot: usize)
        requires
            old(self).frame_seq < u64::MAX,
        ensures
            final(self)@ == (CtxView { frame_seq: (old(self).frame_seq + 1) as u64, ..old(self)@ }),
            slot == final(self).frame_seq % 2,
            slot == frame_slot(final(self).frame_seq),
            final(self).app_id == old(self).app_id,
            final(self).instance == old(self).instance,
            final(self).caps == old(self).caps,
    {
        self.frame_seq = self.frame_seq + 1;
        (self.frame_seq % 2) as usize
    }

    /// The content of the frame: its number, the ticks and the input so far,
    /// and zeros.
    pub open spec fn frame(&self, len: nat) -> Seq<u8> {
        le_bytes(self.frame_seq as nat, 8) + le_bytes(self.ticks as nat, 8) + le_bytes(
            self.input_total as nat,
            8,
        ) + Seq::new((len - 24) as nat, |i: int| 0u8)
    }

    /// Writes the frame into the payload of its slot.
    pub fn fill_frame(&self, payload: &mut [u8])
        requires
            old(payload)@.len() >= 24,
        ensures
            final(payload)@ == self.frame(old(payload)@.len()),
    {
        let mut head: Vec<u8> = Vec::new();
        push_le(&mut head, self.frame_seq, 8);
        push_le(&mut head, self.ticks, 8);
        push_le(&mut head, self.input_total, 8);
        proof {
            lemma_le_bytes_len(self.frame_seq as nat, 8);
            lemma_le_bytes_len(self.ticks as nat, 8);
            lemma_le_bytes_len(self.input_total as nat, 8);
        }
        let ghost frame = self.frame(payload@.len());
        assert(frame =~= head@ + Seq::new((payload@.len() - 24) as nat, |i: int| 0u8));
        let n: usize = payload.len();
        let mut i: usize = 0;
        while i < n
            invariant
                i <= n,
                n == payload@.len(),
                n >= 24,
                head@.len() == 24,
                frame == head@ + Seq::new((n - 24) as nat, |i: int| 0u8),
                forall|k: int| 0 <= k < i ==> payload@[k] == frame[k],
            decreases n - i,
        {
            payload[i] = if i < 24 {
                head[i]
            } else {
                0
            };
            i += 1;
        }
        assert(payload@ =~= frame);
    }
}

fn deadline_passed(e: &ArcaError) -> (r: bool)
    ensures
        r == is_deadline(e@),
{
    match e {
        ArcaError::Internal(m) => contains_text(m, "deadline"),
        _ => false,
    }
}

/// Bytes of the input region of a layout.
pub fn input_region(layout: &ShmLayout) -> (n: u64)
    ensures
        n == 64 + layout.input_slot_bytes * layout.input_slots,
{
    assert(0 <= layout.input_slot_bytes * layout.input_slots <= u32::MAX * u32::MAX)
        by (nonlinear_arith)
        requires
            0 <= layout.input_slot_bytes <= u32::MAX,
            0 <= layout.input_slots <= u32::MAX,
    ;
    64 + layout.input_slot_bytes as u64 * layout.input_slots as u64
}

/// The numbering of the messages that an instance sends.
pub struct CtlLink {
    connected: bool,
    seq: u64,
}

impl CtlLink {
    pub closed spec fn connected(&self) -> bool {
        self.connected
    }

    /// Number of the next message.
    pub closed spec fn next(&self) -> u64 {
        self.seq
    }

    /// Messages are numbered from 1.
    pub fn new(connected: bool) -> (r: CtlLink)
        ensures
            r.connected() == connected,
            r.next() == 1,
    {
        CtlLink { connected, seq: 1 }
    }

    /// The number under which a message is sent. Without a connection none is
    /// used up.
    pub fn begin_send(&mut self) -> (r: Res<u64>)
        ensures
            final(self).connected() == old(self).connected(),
            r is Ok <==> old(self).connected(),
            r matches Ok(n) ==> n == old(self).next() && final(self).next() == (if n == u64::MAX {
                0
            } else {
                n + 1
            }),
            r is Err ==> final(self).next() == old(self).next() && fails(
                r,
                ErrorView::Internal("rt: sin conexión"@),
            ),
    {
        if !self.connected {
            return Err(ArcaError::Internal("rt: sin conexión"));
        }
        let n: u64 = self.seq;
        self.seq = if n == u64::MAX {
            0
        } else {
            n + 1
        };
        Ok(n)
    }
}

/// The process ends cleanly exactly when the host asks for it.
pub proof fn law_clean_exit_is_asked_for(r: CtlResult)
    ensures
        ctl_actions(r).contains(RtAction::Exit(EXIT_CLEAN)) <==> (r matches CtlResult::Message(m)
            && m is Shutdown),
        forall|code: i32| #[trigger]
            ctl_actions(r).contains(RtAction::Exit(code)) ==> code == EXIT_CLEAN || code
                == EXIT_NO_HOST,
{
    if r matches CtlResult::Message(m) && m is Shutdown {
        assert(ctl_actions(r)[0] == RtAction::Exit(EXIT_CLEAN));
    }
}

/// An application that fails or panics ends its process with the crash code,
/// and the host is told before.
pub proof fn law_a_crash_is_reported(dirty: bool, panicked: Option<Seq<char>>, failed: bool)
    requires
        panicked is Some || failed,
    ensures
        call_actions(dirty, panicked, failed).len() == 2,
        call_actions(dirty, panicked, failed)[0] == RtAction::Send(
            crash_report(
                match panicked {
                    Some(msg) => fnv(encode_utf8(msg)),
                    None => 0,
                },
            ),
        ),
        call_actions(dirty, panicked, failed)[1] == RtAction::Exit(EXIT_CRASH),
{
}

proof fn lemma_without_absent(windows: Seq<WinId>, w: WinId)
    requires
        !windows.contains(w),
    ensures
        without(windows, w) == windows,
    decreases windows.len(),
{
    if windows.len() > 0 {
        let rest = windows.drop_last();
        assert(windows[windows.len() - 1] == windows.last());
        assert forall|i: int| 0 <= i < rest.len() implies rest[i] != w by {
            assert(windows[i] != w);
        }
        lemma_without_absent(rest, w);
        assert(rest.push(windows.last()) =~= windows);
    }
}

/// Closing a window takes it away, and undoes its opening.
pub proof fn law_close_undoes_open(ctx: CtxView, w: WinId)
    ensures
        !after_message(ctx, ControlMsg::WindowClose { win_id: w }).windows.contains(w),
        !ctx.windows.contains(w) ==> after_message(
            after_message(ctx, ControlMsg::WindowOpen { win_id: w }),
            ControlMsg::WindowClose { win_id: w },
        ) == ctx,
{
    lemma_without_gone(ctx.windows, w);
    if !ctx.windows.contains(w) {
        lemma_without_absent(ctx.windows, w);
        assert(ctx.windows.push(w).drop_last() =~= ctx.windows);
    }
}

proof fn lemma_without_gone(windows: Seq<WinId>, w: WinId)
    ensures
        !without(windows, w).contains(w),
    decreases windows.len(),
{
    if windows.len() > 0 {
        lemma_without_gone(windows.drop_last(), w);
        let rest = without(windows.drop_last(), w);
        if windows.last() != w {
            let out = rest.push(windows.last());
            assert forall|i: int| 0 <= i < out.len() implies out[i] != w by {
                if i < rest.len() {
                    assert(rest[i] != w);
                }
            }
        }
    }
}

} // verus!
