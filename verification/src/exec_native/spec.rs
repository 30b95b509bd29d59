//! The launch spec: the binary blob handed to the launcher.
//!
//! ```text
//!  0  magic    "ARCLNC1\0" (8 bytes)
//!  8  version  u16 = 2
//! 10  reserved u16
//! 12  caps_bits u32
//! 16  instance u64
//! 24  artifact 32 bytes
//! 56  app_path, app_dir, vault_dir, app_id: each u16 length and bytes
//! ..  env_extra: u16 count and pairs of strings
//! ..  crc32 of everything before, u32
//! ```
//!
//! Numbers are little-endian.
use vstd::prelude::*;
use vstd::utf8::*;

use crate::bytes::{
    array_32, bytes_eq, le_bytes, le_value, lemma_pow256_values, push_bytes, push_le, read_le,
};
use crate::text::{has_char, has_prefix, hex_text, push_hex, str_eq, utf8_to_string};
use crate::types::error::{ArcaError, ErrorView, Res};

verus! {

/// Version of the blob format.
pub const VERSION: u16 = 2;

/// Most `env_extra` pairs a spec may hold.
pub const ENV_EXTRA_MAX: usize = 16;

/// Longest key or value of a pair, in bytes.
pub const ENV_STR_MAX: usize = 256;

/// The eight bytes every blob begins with: `ARCLNC1` and a zero.
pub open spec fn magic() -> Seq<u8> {
    seq![65u8, 82u8, 67u8, 76u8, 78u8, 67u8, 49u8, 0u8]
}

fn magic_bytes() -> (r: [u8; 8])
    ensures
        r@ == magic(),
{
    let r: [u8; 8] = [65u8, 82u8, 67u8, 76u8, 78u8, 67u8, 49u8, 0u8];
    assert(r@ =~= magic());
    r
}

/// The CRC-32 of a byte string, as the `crc32fast` crate computes it.
pub uninterp spec fn crc32(data: Seq<u8>) -> u32;

/// `crc32fast::hash`: the checksum of the bytes.
#[verifier::external_body]
fn crc32_hash(data: &[u8]) -> (r: u32)
    ensures
        r == crc32(data@),
{
    crc32fast::hash(data)
}

/// A key and a value, as texts.
pub type EnvPair = (Seq<char>, Seq<char>);

/// The pairs as texts.
pub open spec fn env_view(pairs: Seq<(String, String)>) -> Seq<EnvPair> {
    pairs.map_values(|p: (String, String)| (p.0@, p.1@))
}

/// The four keys that carry the identity of the instance.
pub open spec fn reserved_key(k: Seq<char>) -> bool {
    k == "ARCA_APP_ID"@ || k == "ARCA_INSTANCE"@ || k == "ARCA_ARTIFACT"@ || k == "ARCA_VAULT"@
}

/// Why a pair is refused, if it is.
pub open spec fn env_pair_error(p: EnvPair) -> Option<Seq<char>> {
    let (k, v) = p;
    if k.len() == 0 || encode_utf8(k).len() > ENV_STR_MAX || encode_utf8(v).len() > ENV_STR_MAX {
        Some("launch spec: env_extra de longitud inválida"@)
    } else if !is_ascii_chars(k) || k.contains('\0') || v.contains('\0') {
        Some("launch spec: env_extra con caracteres inválidos"@)
    } else if !"ARCA_"@.is_prefix_of(k) {
        Some("launch spec: env_extra debe ser ARCA_*"@)
    } else if reserved_key(k) {
        Some("launch spec: env_extra no puede tocar la identidad"@)
    } else {
        None
    }
}

/// The first reason among the pairs from `i` on.
pub open spec fn first_pair_error(pairs: Seq<EnvPair>, i: int) -> Option<Seq<char>>
    decreases pairs.len() - i,
{
    if i < 0 || i >= pairs.len() {
        None
    } else {
        match env_pair_error(pairs[i]) {
            Some(m) => Some(m),
            None => first_pair_error(pairs, i + 1),
        }
    }
}

/// Why the pairs are refused, if they are.
pub open spec fn env_error(pairs: Seq<EnvPair>) -> Option<Seq<char>> {
    if pairs.len() > ENV_EXTRA_MAX {
        Some("launch spec: demasiados pares env_extra"@)
    } else {
        first_pair_error(pairs, 0)
    }
}

fn check_pair(k: &str, v: &str) -> (r: Option<&'static str>)
    ensures
        r is Some <==> env_pair_error((k@, v@)) is Some,
        r matches Some(m) ==> env_pair_error((k@, v@)) == Some(m@),
{
    let kb: &[u8] = k.as_bytes();
    let vb: &[u8] = v.as_bytes();
    if k.is_empty() || kb.len() > ENV_STR_MAX || vb.len() > ENV_STR_MAX {
        return Some("launch spec: env_extra de longitud inválida");
    }
    if !k.is_ascii() || has_char(k, '\0') || has_char(v, '\0') {
        return Some("launch spec: env_extra con caracteres inválidos");
    }
    if !has_prefix(k, "ARCA_") {
        return Some("launch spec: env_extra debe ser ARCA_*");
    }
    if str_eq(k, "ARCA_APP_ID") || str_eq(k, "ARCA_INSTANCE") || str_eq(k, "ARCA_ARTIFACT")
        || str_eq(k, "ARCA_VAULT") {
        return Some("launch spec: env_extra no puede tocar la identidad");
    }
    None
}

/// Checks the extra environment of a launch: ASCII `ARCA_*` keys that do not
/// touch the identity, no NUL, bounded lengths.
pub fn validar_env_extra(pares: &[(String, String)]) -> (r: Res<()>)
    ensures
        r is Ok <==> env_error(env_view(pares@)) is None,
        r matches Err(e) ==> e@ == ErrorView::InvalidPackage(env_error(env_view(pares@))->0),
{
    let ghost view = env_view(pares@);
    if pares.len() > ENV_EXTRA_MAX {
        let m = "launch spec: demasiados pares env_extra";
        assert(env_error(view) == Some(m@));
        return Err(ArcaError::InvalidPackage(m));
    }
    let mut i: usize = 0;
    while i < pares.len()
        invariant
            i <= pares@.len(),
            pares@.len() <= ENV_EXTRA_MAX,
            view == env_view(pares@),
            env_error(view) == first_pair_error(view, i as int),
        decreases pares@.len() - i,
    {
        let p: &(String, String) = &pares[i];
        assert(view[i as int] == (p.0@, p.1@));
        match check_pair(p.0.as_str(), p.1.as_str()) {
            Some(m) => {
                assert(env_error(view) == Some(m@));
                return Err(ArcaError::InvalidPackage(m));
            },
            None => {},
        }
        i += 1;
    }
    Ok(())
}

/// What the launcher needs to start an application.
#[derive(Debug, PartialEq, Eq)]
pub struct LaunchSpec {
    /// Absolute path of the executable.
    pub app_path: String,
    /// Directory of the application: its working directory.
    pub app_dir: String,
    /// Private data directory.
    pub vault_dir: String,
    /// Identity of the application.
    pub app_id: String,
    /// Instance number given by the host.
    pub instance: u64,
    /// Granted capabilities, one bit each.
    pub caps_bits: u32,
    /// blake3 digest of the executable.
    pub artifact: [u8; 32],
    /// Extra environment. Nothing else of the host's environment reaches the
    /// application.
    pub env_extra: Vec<(String, String)>,
}

/// The contents of a launch spec.
pub struct LaunchView {
    pub app_path: Seq<char>,
    pub app_dir: Seq<char>,
    pub vault_dir: Seq<char>,
    pub app_id: Seq<char>,
    pub instance: u64,
    pub caps_bits: u32,
    pub artifact: Seq<u8>,
    pub env_extra: Seq<EnvPair>,
}

impl View for LaunchSpec {
    type V = LaunchView;

    open spec fn view(&self) -> LaunchView {
        LaunchView {
            app_path: self.app_path@,
            app_dir: self.app_dir@,
            vault_dir: self.vault_dir@,
            app_id: self.app_id@,
            instance: self.instance,
            caps_bits: self.caps_bits,
            artifact: self.artifact@,
            env_extra: env_view(self.env_extra@),
        }
    }
}

/// A string in the blob: the low 16 bits of its length, then its UTF-8 bytes.
#[verifier::opaque]
pub open spec fn str_bytes(s: Seq<char>) -> Seq<u8> {
    le_bytes(encode_utf8(s).len() % 0x1_0000, 2) + encode_utf8(s)
}

/// The first `n` pairs in the blob.
pub open spec fn pairs_bytes(pairs: Seq<EnvPair>, n: nat) -> Seq<u8>
    decreases n,
{
    if n == 0 || n > pairs.len() {
        Seq::<u8>::empty()
    } else {
        pairs_bytes(pairs, (n - 1) as nat) + str_bytes(pairs[n - 1].0) + str_bytes(pairs[n - 1].1)
    }
}

/// The fixed part of the blob: everything before the strings.
pub open spec fn launch_header(v: LaunchView) -> Seq<u8> {
    magic() + le_bytes(VERSION as nat, 2) + le_bytes(0, 2) + le_bytes(v.caps_bits as nat, 4)
        + le_bytes(v.instance as nat, 8) + v.artifact
}

/// Everything that the checksum covers.
pub open spec fn launch_body(v: LaunchView) -> Seq<u8> {
    launch_header(v) + str_bytes(v.app_path) + str_bytes(v.app_dir) + str_bytes(v.vault_dir)
        + str_bytes(v.app_id) + le_bytes(v.env_extra.len() % 0x1_0000, 2) + pairs_bytes(
        v.env_extra,
        v.env_extra.len(),
    )
}

/// The whole blob.
pub open spec fn launch_bytes(v: LaunchView) -> Seq<u8> {
    launch_body(v) + le_bytes(crc32(launch_body(v)) as nat, 4)
}

/// Reads a string of the blob at `p`: the text and where the next item starts.
#[verifier::opaque]
pub open spec fn take_str(body: Seq<u8>, p: int) -> Result<(Seq<char>, int), ErrorView> {
    if p + 2 > body.len() {
        Err(ErrorView::InvalidFrame("launch spec: truncada en string"@))
    } else {
        let n = le_value(body.subrange(p, p + 2)) as int;
        let b = body.subrange(p + 2, p + 2 + n);
        if p + 2 + n > body.len() {
            Err(ErrorView::InvalidFrame("launch spec: string desbordado"@))
        } else if !valid_utf8(b) {
            Err(ErrorView::InvalidFrame("launch spec: string no UTF-8"@))
        } else {
            Ok((decode_utf8(b), p + 2 + n))
        }
    }
}

/// Reads `n` pairs of strings at `p` behind the pairs `acc`.
pub open spec fn take_pairs(body: Seq<u8>, p: int, n: nat, acc: Seq<EnvPair>) -> Result<
    (Seq<EnvPair>, int),
    ErrorView,
>
    decreases n,
{
    if n == 0 {
        Ok((acc, p))
    } else {
        match take_str(body, p) {
            Err(e) => Err(e),
            Ok((k, p1)) => match take_str(body, p1) {
                Err(e) => Err(e),
                Ok((v, p2)) => take_pairs(body, p2, (n - 1) as nat, acc.push((k, v))),
            },
        }
    }
}

/// The variable part of a body: four strings, then the pairs, then nothing.
pub open spec fn take_tail(body: Seq<u8>) -> Result<
    (Seq<char>, Seq<char>, Seq<char>, Seq<char>, Seq<EnvPair>),
    ErrorView,
> {
    match take_str(body, 56) {
        Err(e) => Err(e),
        Ok((app_path, p1)) => match take_str(body, p1) {
            Err(e) => Err(e),
            Ok((app_dir, p2)) => match take_str(body, p2) {
                Err(e) => Err(e),
                Ok((vault_dir, p3)) => match take_str(body, p3) {
                    Err(e) => Err(e),
                    Ok((app_id, p4)) => if p4 + 2 > body.len() {
                        Err(ErrorView::InvalidFrame("launch spec: truncada en env_extra"@))
                    } else {
                        let n = le_value(body.subrange(p4, p4 + 2));
                        if n > ENV_EXTRA_MAX {
                            Err(ErrorView::InvalidFrame("launch spec: env_extra desbordado"@))
                        } else {
                            match take_pairs(body, p4 + 2, n, Seq::empty()) {
                                Err(e) => Err(e),
                                Ok((env, p5)) => if p5 != body.len() {
                                    Err(ErrorView::InvalidFrame("launch spec: bytes sobrantes"@))
                                } else {
                                    Ok((app_path, app_dir, vault_dir, app_id, env))
                                },
                            }
                        }
                    },
                },
            },
        },
    }
}

/// What a blob says, or why it is refused.
pub open spec fn launch_parse(buf: Seq<u8>) -> Result<LaunchView, ErrorView> {
    if buf.len() < 60 {
        Err(ErrorView::InvalidFrame("launch spec: más corta que la cabecera mínima"@))
    } else if buf.subrange(0, 8) != magic() {
        Err(ErrorView::InvalidFrame("launch spec: magic inválido"@))
    } else if le_value(buf.subrange(8, 10)) != VERSION {
        Err(ErrorView::InvalidFrame("launch spec: versión no soportada"@))
    } else {
        let body = buf.subrange(0, buf.len() - 4);
        if crc32(body) != le_value(buf.subrange(buf.len() - 4, buf.len() as int)) {
            Err(ErrorView::InvalidFrame("launch spec: crc32 no coincide"@))
        } else {
            match take_tail(body) {
                Err(e) => Err(e),
                Ok((app_path, app_dir, vault_dir, app_id, env_extra)) => match env_error(
                    env_extra,
                ) {
                    Some(m) => Err(ErrorView::InvalidPackage(m)),
                    None => Ok(
                        LaunchView {
                            app_path,
                            app_dir,
                            vault_dir,
                            app_id,
                            instance: le_value(buf.subrange(16, 24)) as u64,
                            caps_bits: le_value(buf.subrange(12, 16)) as u32,
                            artifact: buf.subrange(24, 56),
                            env_extra,
                        },
                    ),
                },
            }
        }
    }
}

fn push_str(out: &mut Vec<u8>, s: &str)
    ensures
        final(out)@ == old(out)@ + str_bytes(s@),
{
    let ghost before = out@;
    let b: &[u8] = s.as_bytes();
    push_le(out, (b.len() % 0x1_0000) as u64, 2);
    push_bytes(out, b);
    assert(out@ =~= before + str_bytes(s@)) by {
        reveal(str_bytes);
    }
}

fn read_str(body: &[u8], p: usize) -> (r: Result<(String, usize), ArcaError>)
    requires
        p <= body@.len(),
    ensures
        match r {
            Ok(x) => take_str(body@, p as int) == Ok::<(Seq<char>, int), ErrorView>(
                (x.0@, x.1 as int),
            ) && p <= x.1 <= body@.len(),
            Err(e) => take_str(body@, p as int) == Err::<(Seq<char>, int), ErrorView>(e@),
        },
{
    reveal(take_str);
    if body.len() - p < 2 {
        return Err(ArcaError::InvalidFrame("launch spec: truncada en string"));
    }
    let n: usize = read_le(body, p, 2) as usize;
    proof {
        lemma_pow256_values();
    }
    if n > body.len() - p - 2 {
        return Err(ArcaError::InvalidFrame("launch spec: string desbordado"));
    }
    let b: &[u8] = vstd::slice::slice_subrange(body, p + 2, p + 2 + n);
    match utf8_to_string(b) {
        Some(s) => Ok((s, p + 2 + n)),
        None => Err(ArcaError::InvalidFrame("launch spec: string no UTF-8")),
    }
}

fn read_pairs(body: &[u8], at: usize, n: usize) -> (r: Result<
    (Vec<(String, String)>, usize),
    ArcaError,
>)
    requires
        at <= body@.len(),
    ensures
        match r {
            Ok(x) => take_pairs(body@, at as int, n as nat, Seq::empty()) == Ok::<
                (Seq<EnvPair>, int),
                ErrorView,
            >((env_view(x.0@), x.1 as int)),
            Err(e) => take_pairs(body@, at as int, n as nat, Seq::empty()) == Err::<
                (Seq<EnvPair>, int),
                ErrorView,
            >(e@),
        },
{
    let mut out: Vec<(String, String)> = Vec::new();
    let mut p: usize = at;
    let mut left: usize = n;
    assert(env_view(out@) =~= Seq::<EnvPair>::empty());
    while left > 0
        invariant
            p <= body@.len(),
            take_pairs(body@, at as int, n as nat, Seq::empty()) == take_pairs(
                body@,
                p as int,
                left as nat,
                env_view(out@),
            ),
        decreases left,
    {
        let (k, p1) = read_str(body, p)?;
        let (v, p2) = read_str(body, p1)?;
        let ghost before = env_view(out@);
        let ghost pair = (k@, v@);
        out.push((k, v));
        assert(env_view(out@) =~= before.push(pair));
        p = p2;
        left = left - 1;
    }
    Ok((out, p))
}

impl LaunchSpec {
    /// The artifact digest in hexadecimal.
    pub fn artifact_hex(&self) -> (r: String)
        ensures
            r@ == hex_text(self.artifact@),
    {
        let mut s: String = String::new();
        push_hex(&mut s, &self.artifact);
        assert(s@ =~= hex_text(self.artifact@));
        s
    }

    /// The blob.
    pub fn encode(&self) -> (r: Vec<u8>)
        ensures
            r@ == launch_bytes(self@),
    {
        let mut out: Vec<u8> = Vec::with_capacity(160);
        push_bytes(&mut out, &magic_bytes());
        assert(out@ =~= magic());
        push_le(&mut out, VERSION as u64, 2);
        push_le(&mut out, 0, 2);
        push_le(&mut out, self.caps_bits as u64, 4);
        push_le(&mut out, self.instance, 8);
        push_bytes(&mut out, &self.artifact);
        assert(out@ == launch_header(self@));
        push_str(&mut out, self.app_path.as_str());
        push_str(&mut out, self.app_dir.as_str());
        push_str(&mut out, self.vault_dir.as_str());
        push_str(&mut out, self.app_id.as_str());
        push_le(&mut out, (self.env_extra.len() % 0x1_0000) as u64, 2);
        let ghost head = out@;
        let ghost pairs = env_view(self.env_extra@);
        let mut i: usize = 0;
        assert(out@ =~= head + pairs_bytes(pairs, 0));
        while i < self.env_extra.len()
            invariant
                i <= self.env_extra@.len(),
                pairs == env_view(self.env_extra@),
                out@ == head + pairs_bytes(pairs, i as nat),
            decreases self.env_extra@.len() - i,
        {
            let ghost before = out@;
            let p: &(String, String) = &self.env_extra[i];
            assert(pairs[i as int] == (p.0@, p.1@));
            push_str(&mut out, p.0.as_str());
            push_str(&mut out, p.1.as_str());
            assert(out@ =~= head + pairs_bytes(pairs, (i + 1) as nat));
            i += 1;
        }
        assert(out@ == launch_body(self@));
        let crc: u32 = crc32_hash(out.as_slice());
        push_le(&mut out, crc as u64, 4);
        out
    }

    /// Reads a blob and checks it: magic, version, checksum, lengths, pairs.
    pub fn decode(buf: &[u8]) -> (r: Res<LaunchSpec>)
        ensures
            match r {
                Ok(s) => launch_parse(buf@) == Ok::<LaunchView, ErrorView>(s@),
                Err(e) => launch_parse(buf@) == Err::<LaunchView, ErrorView>(e@),
            },
    {
        if buf.len() < 60 {
            return Err(
                ArcaError::InvalidFrame("launch spec: más corta que la cabecera mínima"),
            );
        }
        if !bytes_eq(vstd::slice::slice_subrange(buf, 0, 8), &magic_bytes()) {
            return Err(ArcaError::InvalidFrame("launch spec: magic inválido"));
        }
        if read_le(buf, 8, 2) != VERSION as u64 {
            return Err(ArcaError::InvalidFrame("launch spec: versión no soportada"));
        }
        let end: usize = buf.len() - 4;
        let body: &[u8] = vstd::slice::slice_subrange(buf, 0, end);
        let crc: u64 = read_le(buf, end, 4);
        if crc32_hash(body) as u64 != crc {
            return Err(ArcaError::InvalidFrame("launch spec: crc32 no coincide"));
        }
        proof {
            lemma_pow256_values();
        }
        let caps_bits: u32 = read_le(buf, 12, 4) as u32;
        let instance: u64 = read_le(buf, 16, 8);
        let artifact: [u8; 32] = array_32(buf, 24);
        let (app_path, p1) = read_str(body, 56)?;
        let (app_dir, p2) = read_str(body, p1)?;
        let (vault_dir, p3) = read_str(body, p2)?;
        let (app_id, p4) = read_str(body, p3)?;
        if body.len() - p4 < 2 {
            return Err(ArcaError::InvalidFrame("launch spec: truncada en env_extra"));
        }
        let n_env: usize = read_le(body, p4, 2) as usize;
        if n_env > ENV_EXTRA_MAX {
            return Err(ArcaError::InvalidFrame("launch spec: env_extra desbordado"));
        }
        let (env_extra, p5) = read_pairs(body, p4 + 2, n_env)?;
        if p5 != body.len() {
            return Err(ArcaError::InvalidFrame("launch spec: bytes sobrantes"));
        }
        validar_env_extra(env_extra.as_slice())?;
        Ok(
            LaunchSpec {
                app_path,
                app_dir,
                vault_dir,
                app_id,
                instance,
                caps_bits,
                artifact,
                env_extra,
            },
        )
    }
}

} // verus!
