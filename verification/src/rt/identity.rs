//! Who an instance is: what it finds in its environment, and the greeting it
//! sends to the host.
use vstd::prelude::*;
use vstd::utf8::*;

use crate::bytes::{le_bytes, push_le};
use crate::text::{digits_value, is_digits, parse_digits, to_chars};
use crate::types::digest::{hex_decoded, is_hex_of_len};
use crate::types::error::{ArcaError, ErrorView, Res};
use crate::types::ids::{app_id_len_ok, app_id_ok};
use crate::types::{proto_version, AppId, Digest, InstanceId, ProtoVersion};

verus! {

/// The greeting of an instance.
pub struct Hello {
    pub proto: ProtoVersion,
    pub app_id: AppId,
    pub instance: InstanceId,
    pub artifact_hash: Digest,
    /// Tells apart the runs of an instance.
    pub nonce: [u8; 16],
}

/// The number that a decimal without a minus sign writes, if it fits 64 bits.
pub open spec fn number_of(s: Seq<char>) -> Option<u64> {
    let digits = if s.len() > 0 && s[0] == '+' {
        s.skip(1)
    } else {
        s
    };
    if is_digits(digits) && digits_value(digits) <= u64::MAX {
        Some(digits_value(digits) as u64)
    } else {
        None
    }
}

/// Reads a 64-bit decimal with an optional plus sign.
pub fn parse_u64(s: &str) -> (r: Option<u64>)
    ensures
        r == number_of(s@),
{
    let c: Vec<char> = to_chars(s);
    let n: usize = c.len();
    if n > 0 && c[0] == '+' {
        assert(c@.subrange(1, n as int) =~= s@.skip(1));
        parse_digits(&c, 1, n, u64::MAX)
    } else {
        assert(c@.subrange(0, n as int) =~= s@);
        parse_digits(&c, 0, n, u64::MAX)
    }
}

/// The 64-bit number with its bits turned `k` places to the left.
pub open spec fn turned(v: u64, k: u64) -> u64 {
    (v << k) | (v >> ((64 - k) as u64))
}

/// The second half of a nonce, from a clock reading and a process number.
pub open spec fn nonce_mix(clock: u64, pid: u32) -> u64 {
    let salted = clock ^ (((pid * 0x9e37_79b9_7f4a_7c15u64) % 0x1_0000_0000_0000_0000) as u64);
    turned(clock, 17) ^ turned(salted, 31)
}

/// The nonce of a run: the clock reading and a mix of it with the process
/// number.
pub fn nonce(clock: u64, pid: u32) -> (r: [u8; 16])
    ensures
        r@ == le_bytes(clock as nat, 8) + le_bytes(nonce_mix(clock, pid) as nat, 8),
{
    let salt: u64 = (pid as u64).wrapping_mul(0x9e37_79b9_7f4a_7c15);
    let salted: u64 = clock ^ salt;
    let c: u64 = ((clock << 17) | (clock >> 47)) ^ ((salted << 31) | (salted >> 33));
    let mut bytes: Vec<u8> = Vec::new();
    push_le(&mut bytes, clock, 8);
    push_le(&mut bytes, c, 8);
    proof {
        crate::bytes::lemma_le_bytes_len(clock as nat, 8);
        crate::bytes::lemma_le_bytes_len(c as nat, 8);
    }
    let mut out: [u8; 16] = [0u8; 16];
    let mut i: usize = 0;
    while i < 16
        invariant
            i <= 16,
            bytes@.len() == 16,
            forall|k: int| 0 <= k < i ==> out@[k] == bytes@[k],
        decreases 16 - i,
    {
        out[i] = bytes[i];
        i += 1;
    }
    assert(out@ =~= bytes@);
    out
}

/// Why the environment gives no identity, if it does not. The parts are looked
/// at in turn.
pub open spec fn identity_error(
    app_id: Option<Seq<char>>,
    instance: Option<Seq<char>>,
    artifact: Option<Seq<char>>,
) -> Option<ErrorView> {
    if app_id is None {
        Some(ErrorView::Internal("rt: falta ARCA_APP_ID"@))
    } else if !app_id_len_ok(app_id->0) {
        Some(ErrorView::Internal("AppId: longitud debe ser 3..=64"@))
    } else if !app_id_ok(app_id->0) {
        Some(ErrorView::Internal("AppId: solo [a-z0-9.]"@))
    } else if instance is None {
        Some(ErrorView::Internal("rt: falta ARCA_INSTANCE"@))
    } else if number_of(instance->0) is None {
        Some(ErrorView::Internal("rt: ARCA_INSTANCE no numérico"@))
    } else if artifact is None {
        Some(ErrorView::Internal("rt: falta ARCA_ARTIFACT"@))
    } else if !is_hex_of_len(encode_utf8(artifact->0), 32) {
        Some(ErrorView::Internal("Digest.from_hex: 64 hex chars esperadas"@))
    } else {
        None
    }
}

/// The text of an environment variable that may be missing.
pub open spec fn var_text(v: Option<String>) -> Option<Seq<char>> {
    match v {
        Some(s) => Some(s@),
        None => None,
    }
}

/// The greeting of an instance, from its environment, a clock reading and its
/// process number.
pub fn hello_from_env(
    app_id: &Option<String>,
    instance: &Option<String>,
    artifact: &Option<String>,
    clock: u64,
    pid: u32,
) -> (r: Res<Hello>)
    ensures
        ({
            let e = identity_error(var_text(*app_id), var_text(*instance), var_text(*artifact));
            &&& r is Ok <==> e is None
            &&& r matches Err(x) ==> e == Some(x@)
            &&& r matches Ok(h) ==> {
                &&& h.proto == (ProtoVersion { major: 1, minor: 0 })
                &&& h.app_id@ == var_text(*app_id)->0
                &&& Some(h.instance.value()) == number_of(var_text(*instance)->0)
                &&& h.artifact_hash@ == hex_decoded(encode_utf8(var_text(*artifact)->0), 32)
                &&& h.nonce@ == le_bytes(clock as nat, 8) + le_bytes(
                    nonce_mix(clock, pid) as nat,
                    8,
                )
            }
        }),
{
    let app_id: AppId = match app_id {
        Some(s) => match AppId::new(s.as_str()) {
            Ok(id) => id,
            Err(e) => {
                return Err(e);
            },
        },
        None => {
            return Err(ArcaError::Internal("rt: falta ARCA_APP_ID"));
        },
    };
    let instance: u64 = match instance {
        Some(s) => match parse_u64(s.as_str()) {
            Some(n) => n,
            None => {
                return Err(ArcaError::Internal("rt: ARCA_INSTANCE no numérico"));
            },
        },
        None => {
            return Err(ArcaError::Internal("rt: falta ARCA_INSTANCE"));
        },
    };
    let artifact_hash: Digest = match artifact {
        Some(s) => match Digest::from_hex(s.as_str()) {
            Ok(d) => d,
            Err(e) => {
                return Err(e);
            },
        },
        None => {
            return Err(ArcaError::Internal("rt: falta ARCA_ARTIFACT"));
        },
    };
    Ok(
        Hello {
            proto: proto_version(),
            app_id,
            instance: InstanceId::new(instance),
            artifact_hash,
            nonce: nonce(clock, pid),
        },
    )
}

/// The instance number for the log: 0 where the environment has none.
pub fn log_instance(instance: &Option<String>) -> (r: InstanceId)
    ensures
        r.value() == (match var_text(*instance) {
            Some(s) => match number_of(s) {
                Some(n) => n,
                None => 0,
            },
            None => 0,
        }),
{
    let n: u64 = match instance {
        Some(s) => match parse_u64(s.as_str()) {
            Some(n) => n,
            None => 0,
        },
        None => 0,
    };
    InstanceId::new(n)
}

} // verus!
