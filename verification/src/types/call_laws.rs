//! What callers of the shared types can rely on, told by what goes into a call
//! and what comes out of it.
use vstd::prelude::*;
use vstd::utf8::*;

use crate::text::{dec_text, hex_text};
use crate::types::caps::Capability;
use crate::types::digest::{law_hex_round_trip, Digest};
use crate::types::error::ArcaError;
use crate::types::ids::{AppId, InstanceId, SessionId, WinId};
use crate::types::time::mono_ns;
use crate::types::version::ProtoVersion;

verus! {

/// A version that goes over the wire comes back as it was, its larger part in
/// the upper byte.
pub proof fn law_version_crosses_the_wire(v: ProtoVersion, wire: u16, back: ProtoVersion)
    requires
        call_ensures(ProtoVersion::to_wire, (v,), wire),
        call_ensures(ProtoVersion::from_wire, (wire,), back),
    ensures
        back.major == v.major && back.minor == v.minor,
        wire == 256 * v.major + v.minor,
{
}

/// Two sides agree exactly if their major versions do, both on the same version,
/// which each side serves and which is the older of the two.
pub proof fn law_both_sides_agree(
    a: ProtoVersion,
    b: ProtoVersion,
    there: Option<ProtoVersion>,
    back: Option<ProtoVersion>,
)
    requires
        call_ensures(ProtoVersion::negotiate, (a, b), there),
        call_ensures(ProtoVersion::negotiate, (b, a), back),
    ensures
        there == back,
        there is Some <==> a.major == b.major,
        there matches Some(v) ==> v.major == a.major && v.minor <= a.minor && v.minor <= b.minor
            && (v.minor == a.minor || v.minor == b.minor),
{
}

/// A peer serves what asks for its major version and no newer minor version.
pub proof fn law_older_requests_are_served(have: ProtoVersion, want: ProtoVersion, r: bool)
    requires
        call_ensures(ProtoVersion::is_compatible, (have, want), r),
    ensures
        r <==> have.major == want.major && want.minor <= have.minor,
{
}

/// A version is written as its two numbers with a point between them.
pub proof fn law_version_is_written_with_a_point(v: ProtoVersion, text: String)
    requires
        call_ensures(ProtoVersion::to_text, (v,), text),
    ensures
        text@ == dec_text(v.major as nat) + seq!['.'] + dec_text(v.minor as nat),
{
    assert(text@ =~= dec_text(v.major as nat) + seq!['.'] + dec_text(v.minor as nat));
}

/// A digest that is written as text is read back as it was.
pub proof fn law_digest_is_read_back(d: Digest, text: String, s: &str, r: Result<Digest, ArcaError>)
    requires
        call_ensures(Digest::to_hex, (&d,), text),
        s@ == text@,
        call_ensures(Digest::from_hex, (s,), r),
    ensures
        r matches Ok(back) && back@ == d@,
{
    assert(d@.len() == 32);
    law_hex_round_trip(d@);
}

/// The short form of a digest is its first four bytes behind `b3:`.
pub proof fn law_short_digest(d: Digest, text: String)
    requires
        call_ensures(Digest::short_text, (&d,), text),
    ensures
        text@ == "b3:"@ + hex_text(seq![d@[0], d@[1], d@[2], d@[3]]),
{
    assert(d@.take(4) =~= seq![d@[0], d@[1], d@[2], d@[3]]);
}

/// A digest of pieces is the digest of what they make up.
pub proof fn law_pieces_are_digested_as_one(
    chunks: &[Vec<u8>],
    whole: &[u8],
    a: Vec<u8>,
    b: Vec<u8>,
    parts: Digest,
    at_once: Digest,
)
    requires
        chunks@ == seq![a, b],
        whole@ == a@ + b@,
        call_ensures(Digest::of_chunks, (chunks,), parts),
        call_ensures(Digest::of, (whole,), at_once),
    ensures
        parts@ == at_once@,
{
    let list = seq![a, b];
    assert(list.drop_last() =~= seq![a]);
    assert(seq![a].drop_last() =~= Seq::<Vec<u8>>::empty());
    reveal_with_fuel(crate::types::digest::joined, 3);
    assert(crate::types::digest::joined(list) =~= a@ + b@);
}

/// An identity is taken as it is written if it is of 3 to 64 small letters,
/// digits and points, and is refused otherwise.
pub proof fn law_identity_is_taken_as_written(s: &str, r: Result<AppId, ArcaError>)
    requires
        call_ensures(AppId::new, (s,), r),
    ensures
        r is Ok <==> 3 <= encode_utf8(s@).len() <= 64 && forall|i: int|
            0 <= i < encode_utf8(s@).len() ==> {
                let b = #[trigger] encode_utf8(s@)[i];
                97 <= b <= 122 || 48 <= b <= 57 || b == 46
            },
        r matches Ok(id) ==> id@ == s@,
        r matches Err(e) ==> e@ is Internal,
{
}

/// What stands for an instance, a window and a session when it is shown.
pub proof fn law_how_identities_are_shown(
    i: InstanceId,
    w: WinId,
    bytes: [u8; 16],
    s: SessionId,
    shown_i: String,
    shown_w: String,
    shown_s: String,
)
    requires
        call_ensures(InstanceId::to_text, (i,), shown_i),
        call_ensures(WinId::to_text, (w,), shown_w),
        call_ensures(SessionId::from_bytes, (bytes,), s),
        call_ensures(SessionId::to_text, (&s,), shown_s),
    ensures
        shown_i@ == "inst:"@ + dec_text(i.value() as nat),
        shown_w@ == "win:"@ + dec_text(w.value() as nat),
        shown_s@ == hex_text(bytes@),
{
}

/// A number that was made an identity is given back.
pub proof fn law_numbers_come_back(
    n: u64,
    m: u32,
    i: InstanceId,
    w: WinId,
    first: InstanceId,
    none: WinId,
    back_n: u64,
    back_m: u32,
    back_first: u64,
    back_none: u32,
)
    requires
        call_ensures(InstanceId::new, (n,), i),
        call_ensures(WinId::new, (m,), w),
        call_ensures(InstanceId::get, (i,), back_n),
        call_ensures(WinId::get, (w,), back_m),
        call_ensures(InstanceId::first, (), first),
        call_ensures(WinId::none, (), none),
        call_ensures(InstanceId::get, (first,), back_first),
        call_ensures(WinId::get, (none,), back_none),
    ensures
        back_n == n && back_m == m && back_first == 1 && back_none == 0,
{
}

/// The capabilities are counted in the order in which they are listed.
pub proof fn law_index_is_the_place_in_the_list(c: Capability, i: u32, all: [Capability; 11])
    requires
        call_ensures(Capability::index, (c,), i),
        call_ensures(Capability::all, (), all),
    ensures
        0 <= i < 11,
        all@[i as int] == c,
{
    crate::types::caps::law_all_in_order(c);
}

/// The time of a monotonic clock is its seconds and nanoseconds, the negative of
/// which count for nothing.
pub proof fn law_nanoseconds(sec: i64, nsec: i64, r: u64)
    requires
        sec < 0x1_0000_0000,
        nsec < 0x1_0000_0000,
        call_ensures(mono_ns, (sec, nsec), r),
    ensures
        sec >= 0 && nsec >= 0 ==> r == 1_000_000_000 * sec + nsec,
        sec >= 0 && nsec < 0 ==> r == 1_000_000_000 * sec,
        sec < 0 && nsec >= 0 ==> r == nsec,
        sec < 0 && nsec < 0 ==> r == 0,
{
}

} // verus!
