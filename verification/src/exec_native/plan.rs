//! What a launch is made of: the checks before it, the shared memory, the
//! descriptors of the child, and the blob that the launcher reads.
use vstd::prelude::*;
use vstd::utf8::*;

use crate::bytes::{le_bytes, push_bytes, push_le};
use crate::exec_abi::spec::AppSpec;
use crate::exec_native::masks::{caps_bits, caps_mask};
use crate::exec_native::spec::{
    env_error, env_view, launch_bytes, validar_env_extra, EnvPair, LaunchSpec, LaunchView,
};
use crate::types::error::{fails, ArcaError, ErrorView, Res};
use crate::types::WinId;

verus! {

/// Bytes of a slot of the input ring.
pub const INPUT_SLOT_BYTES: usize = 64;

/// Geometry of the shared memory, as it is announced to the instance.
#[derive(Debug, Clone, Copy, PartialEq, Eq, Structural)]
pub struct ShmLayout {
    pub frame_slot_bytes: u32,
    pub atlas_bytes: u32,
    pub input_slots: u32,
    pub input_slot_bytes: u32,
}

/// How a window is shown.
#[derive(Debug, Clone, Copy, PartialEq, Eq, Structural)]
pub enum WindowMode {
    Full,
}

/// A window that the instance attaches to.
#[derive(Debug, Clone, Copy, PartialEq, Eq, Structural)]
pub struct WindowSpec {
    pub win_id: WinId,
    pub width: u32,
    pub height: u32,
    /// In thousandths.
    pub scale: u32,
    pub vsync_hz: u32,
    pub mode: WindowMode,
}

/// The window that every instance gets until the window manager decides.
pub fn default_window() -> (w: WindowSpec)
    ensures
        w.win_id.value() == 1,
        w.width == 1080,
        w.height == 2400,
        w.scale == 1000,
        w.vsync_hz == 60,
        w.mode == WindowMode::Full,
{
    WindowSpec {
        win_id: WinId::new(1),
        width: 1080,
        height: 2400,
        scale: 1000,
        vsync_hz: 60,
        mode: WindowMode::Full,
    }
}

/// What the child finds behind a descriptor.
#[derive(Debug, Clone, Copy, PartialEq, Eq, Structural)]
pub enum ChildEnd {
    /// The launch blob.
    Blob,
    /// The control socket.
    Control,
    /// Signals from the host.
    SignalIn,
    /// Signals to the host.
    SignalOut,
    Stdout,
    Stderr,
}

/// Descriptor of the launch blob in the child.
pub const FD_SPEC: i32 = 3;

/// Descriptor of the control socket in the child.
pub const FD_CTL: i32 = 4;

/// Descriptor of the signals from the host.
pub const FD_SIG_IN: i32 = 5;

/// Descriptor of the signals to the host.
pub const FD_SIG_OUT: i32 = 6;

impl ChildEnd {
    /// The descriptor under which the child finds it.
    pub open spec fn number(self) -> i32 {
        match self {
            ChildEnd::Blob => FD_SPEC,
            ChildEnd::Control => FD_CTL,
            ChildEnd::SignalIn => FD_SIG_IN,
            ChildEnd::SignalOut => FD_SIG_OUT,
            ChildEnd::Stdout => 1,
            ChildEnd::Stderr => 2,
        }
    }

    /// The descriptor under which the child finds it.
    pub fn fd(self) -> (r: i32)
        ensures
            r == self.number(),
    {
        match self {
            ChildEnd::Blob => FD_SPEC,
            ChildEnd::Control => FD_CTL,
            ChildEnd::SignalIn => FD_SIG_IN,
            ChildEnd::SignalOut => FD_SIG_OUT,
            ChildEnd::Stdout => 1,
            ChildEnd::Stderr => 2,
        }
    }
}

/// The descriptors that the application itself keeps: standard streams,
/// control socket and signals.
pub open spec fn kept_fd(fd: i32) -> bool {
    fd == 0 || fd == 1 || fd == 2 || fd == FD_CTL || fd == FD_SIG_IN || fd == FD_SIG_OUT
}

/// Whether the application keeps the descriptor.
pub fn keeps_fd(fd: i32) -> (r: bool)
    ensures
        r == kept_fd(fd),
{
    fd == 0 || fd == 1 || fd == 2 || fd == FD_CTL || fd == FD_SIG_IN || fd == FD_SIG_OUT
}

/// No two ends share a descriptor, and the application keeps all of them but
/// the launch blob.
pub proof fn law_child_ends_are_apart(a: ChildEnd, b: ChildEnd)
    ensures
        a.number() == b.number() ==> a == b,
        kept_fd(a.number()) <==> a != ChildEnd::Blob,
{
}

/// The bytes begin like an ELF file.
pub open spec fn is_elf(head: Seq<u8>) -> bool {
    head.len() >= 4 && head[0] == 0x7f && head[1] == 69 && head[2] == 76 && head[3] == 70
}

/// Whether what could be read of a file begins like an ELF file.
pub fn elf_ok(head: &[u8]) -> (r: bool)
    ensures
        r == is_elf(head@),
{
    head.len() >= 4 && head[0] == 0x7f && head[1] == 69 && head[2] == 76 && head[3] == 70
}

/// The launch that an application specification asks for.
pub open spec fn launch_view(spec: AppSpec, env: Seq<EnvPair>) -> LaunchView {
    LaunchView {
        app_path: spec.artifact.path@,
        app_dir: spec.dirs.app_dir@,
        vault_dir: spec.dirs.vault_dir@,
        app_id: spec.app_id@,
        instance: spec.instance.value(),
        caps_bits: caps_mask(spec.caps@),
        artifact: spec.artifact.hash@,
        env_extra: env,
    }
}

/// A blob as it goes through the pipe: its length and its bytes.
pub open spec fn framed(blob: Seq<u8>) -> Seq<u8> {
    le_bytes(blob.len() % 0x1_0000_0000, 4) + blob
}

/// A launch that passed its checks.
pub struct LaunchPlan {
    /// Bytes of the input region.
    pub input_len: usize,
    /// What is announced of the shared memory.
    pub layout: ShmLayout,
    /// The launch.
    pub spec: LaunchSpec,
    /// What goes through the pipe to the launcher.
    pub framed: Vec<u8>,
    pub window: WindowSpec,
}

/// The executor of native processes: the launcher it starts, and the size of
/// the shared memory.
pub struct NativeProcessExec {
    pub launch_bin: String,
    pub frame_bytes: usize,
    pub input_slots: usize,
}

impl NativeProcessExec {
    /// An executor for a launcher; `is_file` tells whether it is there, and
    /// `frame_bytes` is the largest frame.
    pub fn new(launch_bin: &str, is_file: bool, frame_bytes: usize) -> (r: Res<NativeProcessExec>)
        ensures
            r is Ok <==> is_file,
            r matches Ok(e) ==> e.launch_bin@ == launch_bin@ && e.frame_bytes == frame_bytes
                && e.input_slots == 256,
            r is Err ==> fails(
                r,
                ErrorView::Internal(
                    "exec-native: launch_bin no existe (compila el bin arca-launch)"@,
                ),
            ),
    {
        if !is_file {
            return Err(
                ArcaError::Internal(
                    "exec-native: launch_bin no existe (compila el bin arca-launch)",
                ),
            );
        }
        Ok(
            NativeProcessExec {
                launch_bin: crate::text::owned(launch_bin),
                frame_bytes,
                input_slots: 256,
            },
        )
    }

    /// The same executor with another frame size.
    pub fn with_frame_bytes(self, bytes: usize) -> (r: NativeProcessExec)
        ensures
            r == (NativeProcessExec { frame_bytes: bytes, ..self }),
    {
        NativeProcessExec {
            launch_bin: self.launch_bin,
            frame_bytes: bytes,
            input_slots: self.input_slots,
        }
    }

    /// The same executor with another number of input slots.
    pub fn with_input_slots(self, slots: usize) -> (r: NativeProcessExec)
        ensures
            r == (NativeProcessExec { input_slots: slots, ..self }),
    {
        NativeProcessExec {
            launch_bin: self.launch_bin,
            frame_bytes: self.frame_bytes,
            input_slots: slots,
        }
    }

    /// Whether an artifact can be launched: it is a file, and begins like an
    /// ELF file.
    pub fn supports(&self, is_file: bool, head: &[u8]) -> (r: bool)
        ensures
            r == (is_file && is_elf(head@)),
    {
        is_file && elf_ok(head)
    }

    /// What is announced of the shared memory.
    pub open spec fn layout(&self) -> ShmLayout {
        ShmLayout {
            frame_slot_bytes: (self.frame_bytes as u64 % 0x1_0000_0000) as u32,
            atlas_bytes: 0,
            input_slots: (self.input_slots as u64 % 0x1_0000_0000) as u32,
            input_slot_bytes: 64,
        }
    }

    /// Checks a launch and lays it out. `head` is what could be read of the
    /// start of the artifact.
    pub fn plan_launch(
        &self,
        spec: &AppSpec,
        head: &[u8],
        env_extra: Vec<(String, String)>,
    ) -> (r: Res<LaunchPlan>)
        requires
            64 + 64 * self.input_slots <= usize::MAX,
        ensures
            r is Ok <==> is_elf(head@) && env_error(env_view(env_extra@)) is None,
            !is_elf(head@) ==> fails(
                r,
                ErrorView::InvalidPackage("exec-native: artefacto no es ELF o no existe"@),
            ),
            is_elf(head@) && env_error(env_view(env_extra@)) is Some ==> fails(
                r,
                ErrorView::InvalidPackage(env_error(env_view(env_extra@))->0),
            ),
            r matches Ok(p) ==> {
                let launch = launch_view(*spec, env_view(env_extra@));
                &&& p.input_len == 64 + 64 * self.input_slots
                &&& p.layout == self.layout()
                &&& p.spec@ == launch
                &&& p.framed@ == framed(launch_bytes(launch))
                &&& p.window.win_id.value() == 1
                &&& p.window.width == 1080 && p.window.height == 2400
                &&& p.window.scale == 1000 && p.window.vsync_hz == 60
            },
    {
        if !elf_ok(head) {
            return Err(ArcaError::InvalidPackage("exec-native: artefacto no es ELF o no existe"));
        }
        match validar_env_extra(env_extra.as_slice()) {
            Ok(()) => {},
            Err(e) => {
                return Err(e);
            },
        }
        let launch: LaunchSpec = LaunchSpec {
            app_path: spec.artifact.path.clone(),
            app_dir: spec.dirs.app_dir.clone(),
            vault_dir: spec.dirs.vault_dir.clone(),
            app_id: spec.app_id.to_text(),
            instance: spec.instance.get(),
            caps_bits: caps_bits(spec.caps.as_slice()),
            artifact: spec.artifact.hash.0,
            env_extra,
        };
        let blob: Vec<u8> = launch.encode();
        let mut out: Vec<u8> = Vec::new();
        push_le(&mut out, blob.len() as u64 % 0x1_0000_0000, 4);
        push_bytes(&mut out, blob.as_slice());
        assert(out@ =~= framed(blob@));
        let layout: ShmLayout = ShmLayout {
            frame_slot_bytes: (self.frame_bytes as u64 % 0x1_0000_0000) as u32,
            atlas_bytes: 0,
            input_slots: (self.input_slots as u64 % 0x1_0000_0000) as u32,
            input_slot_bytes: 64,
        };
        Ok(
            LaunchPlan {
                input_len: 64 + 64 * self.input_slots,
                layout,
                spec: launch,
                framed: out,
                window: default_window(),
            },
        )
    }
}

} // verus!
