//! The error type shared by the whole platform.
use vstd::prelude::*;
use vstd::std_specs::convert::FromSpecImpl;

use crate::text::{dec_text, owned, push_dec};
use crate::types::caps::Capability;
use crate::types::ids::AppId;
use crate::types::version::ProtoVersion;

verus! {

/// Result of the platform's fallible operations.
pub type Res<T> = Result<T, ArcaError>;

/// What kind of input/output failure happened.
#[derive(Debug, Clone, Copy, PartialEq, Eq, Structural)]
pub enum IoErrorKind {
    /// The bytes that were read are not what the format asks for.
    InvalidData,
    /// Anything else.
    Other,
}

/// A failure of the underlying input/output.
#[derive(Debug)]
pub struct IoError {
    pub kind: IoErrorKind,
    pub text: String,
}

impl IoError {
    pub fn invalid_data(text: &str) -> (r: IoError)
        ensures
            r.kind == IoErrorKind::InvalidData,
            r.text@ == text@,
    {
        IoError { kind: IoErrorKind::InvalidData, text: owned(text) }
    }

    pub fn other(text: &str) -> (r: IoError)
        ensures
            r.kind == IoErrorKind::Other,
            r.text@ == text@,
    {
        IoError { kind: IoErrorKind::Other, text: owned(text) }
    }
}

/// Base error. Contexts are fixed texts: no dynamic data leaks into logs.
#[derive(Debug)]
#[non_exhaustive]
pub enum ArcaError {
    /// The application is neither installed nor in the store.
    NotFound(AppId),
    /// The operation needs a capability that was not granted.
    PermissionDenied { cap: Capability },
    /// The peer speaks an incompatible protocol version.
    ProtocolMismatch { have: ProtoVersion, want: ProtoVersion },
    /// A message is larger than the channel allows.
    FrameOverflow { bytes: usize, limit: usize },
    /// The ed25519 signature of a package does not verify.
    InvalidSignature,
    /// The package does not hold what was signed or declared.
    InvalidPackage(&'static str),
    /// A frame fails framing or validation.
    InvalidFrame(&'static str),
    /// Input/output failed.
    Io(IoError),
    /// Internal error with a fixed context.
    Internal(&'static str),
}

/// What an error says, with texts as character sequences.
pub enum ErrorView {
    NotFound(Seq<char>),
    PermissionDenied(Capability),
    ProtocolMismatch(ProtoVersion, ProtoVersion),
    FrameOverflow(nat, nat),
    InvalidSignature,
    InvalidPackage(Seq<char>),
    InvalidFrame(Seq<char>),
    Io(IoErrorKind, Seq<char>),
    Internal(Seq<char>),
}

impl View for ArcaError {
    type V = ErrorView;

    open spec fn view(&self) -> ErrorView {
        match *self {
            ArcaError::NotFound(id) => ErrorView::NotFound(id@),
            ArcaError::PermissionDenied { cap } => ErrorView::PermissionDenied(cap),
            ArcaError::ProtocolMismatch { have, want } => ErrorView::ProtocolMismatch(have, want),
            ArcaError::FrameOverflow { bytes, limit } => ErrorView::FrameOverflow(
                bytes as nat,
                limit as nat,
            ),
            ArcaError::InvalidSignature => ErrorView::InvalidSignature,
            ArcaError::InvalidPackage(m) => ErrorView::InvalidPackage(m@),
            ArcaError::InvalidFrame(m) => ErrorView::InvalidFrame(m@),
            ArcaError::Io(e) => ErrorView::Io(e.kind, e.text@),
            ArcaError::Internal(m) => ErrorView::Internal(m@),
        }
    }
}

/// Whether `r` is the error `want`.
pub open spec fn fails<T>(r: Res<T>, want: ErrorView) -> bool {
    r matches Err(e) && e@ == want
}

/// The text of an error, as shown in diagnostics.
pub open spec fn error_text(e: ErrorView) -> Seq<char> {
    match e {
        ErrorView::NotFound(id) => "app no encontrada: "@ + id,
        ErrorView::PermissionDenied(cap) => "capability denegada: "@ + cap.name(),
        ErrorView::ProtocolMismatch(have, want) => "protocolo incompatible: local "@ + have.text()
            + ", remoto "@ + want.text(),
        ErrorView::FrameOverflow(bytes, limit) => "frame de "@ + dec_text(bytes)
            + " B excede el límite de "@ + dec_text(limit) + " B"@,
        ErrorView::InvalidSignature => "firma inválida"@,
        ErrorView::InvalidPackage(m) => "paquete inválido: "@ + m,
        ErrorView::InvalidFrame(m) => "trama AIPC inválida: "@ + m,
        ErrorView::Io(_, m) => "error de E/S: "@ + m,
        ErrorView::Internal(m) => "error interno: "@ + m,
    }
}

impl ArcaError {
    /// The text of the error.
    pub fn to_text(&self) -> (r: String)
        ensures
            r@ == error_text(self@),
    {
        match self {
            ArcaError::NotFound(id) => {
                let mut s: String = owned("app no encontrada: ");
                s.append(id.as_str());
                s
            },
            ArcaError::PermissionDenied { cap } => {
                let mut s: String = owned("capability denegada: ");
                s.append(cap.as_str());
                s
            },
            ArcaError::ProtocolMismatch { have, want } => {
                let mut s: String = owned("protocolo incompatible: local ");
                s.append(have.to_text().as_str());
                s.append(", remoto ");
                s.append(want.to_text().as_str());
                s
            },
            ArcaError::FrameOverflow { bytes, limit } => {
                let mut s: String = owned("frame de ");
                push_dec(&mut s, *bytes as u64);
                s.append(" B excede el límite de ");
                push_dec(&mut s, *limit as u64);
                s.append(" B");
                s
            },
            ArcaError::InvalidSignature => owned("firma inválida"),
            ArcaError::InvalidPackage(m) => {
                let mut s: String = owned("paquete inválido: ");
                s.append(m);
                s
            },
            ArcaError::InvalidFrame(m) => {
                let mut s: String = owned("trama AIPC inválida: ");
                s.append(m);
                s
            },
            ArcaError::Io(e) => {
                let mut s: String = owned("error de E/S: ");
                s.append(e.text.as_str());
                s
            },
            ArcaError::Internal(m) => {
                let mut s: String = owned("error interno: ");
                s.append(m);
                s
            },
        }
    }
}

impl From<IoError> for ArcaError {
    fn from(e: IoError) -> (r: ArcaError) {
        ArcaError::Io(e)
    }
}

impl FromSpecImpl<IoError> for ArcaError {
    open spec fn obeys_from_spec() -> bool {
        true
    }

    open spec fn from_spec(e: IoError) -> ArcaError {
        ArcaError::Io(e)
    }
}

/// What an error says, word for word: the context stands behind the colon, and
/// every value that is named is that of the error.
pub proof fn law_texts_of_errors(
    m: Seq<char>,
    cap: Capability,
    have: ProtoVersion,
    want: ProtoVersion,
    n: nat,
    limit: nat,
)
    ensures
        error_text(ErrorView::NotFound(m)) == "app no encontrada: "@ + m,
        error_text(ErrorView::PermissionDenied(cap)) == "capability denegada: "@ + cap.name(),
        error_text(ErrorView::ProtocolMismatch(have, want)) == "protocolo incompatible: local "@
            + have.text() + ", remoto "@ + want.text(),
        error_text(ErrorView::FrameOverflow(n, limit)) == "frame de "@ + dec_text(n)
            + " B excede el límite de "@ + dec_text(limit) + " B"@,
        error_text(ErrorView::InvalidSignature) == "firma inválida"@,
        error_text(ErrorView::InvalidPackage(m)) == "paquete inválido: "@ + m,
        error_text(ErrorView::InvalidFrame(m)) == "trama AIPC inválida: "@ + m,
        error_text(ErrorView::Io(IoErrorKind::Other, m)) == "error de E/S: "@ + m,
        error_text(ErrorView::Io(IoErrorKind::InvalidData, m)) == "error de E/S: "@ + m,
        error_text(ErrorView::Internal(m)) == "error interno: "@ + m,
{
}

} // verus!
