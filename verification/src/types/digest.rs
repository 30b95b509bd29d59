//! The canonical blake3-256 digest and its hexadecimal form.
use vstd::prelude::*;
use vstd::utf8::*;

use crate::text::{hex_char, hex_text};
use crate::types::error::{fails, ArcaError, ErrorView};

verus! {

/// `blake3::Hasher`, of which only its mode and the bytes fed to it are known.
#[verifier::external_type_specification]
#[verifier::external_body]
pub struct ExHasher(blake3::Hasher);

/// The bytes fed to a `blake3::Hasher` since it was made.
pub uninterp spec fn blake3_fed(h: blake3::Hasher) -> Seq<u8>;

/// The hasher computes the regular hash function from the start of its input:
/// it was made neither with a key nor for key derivation, and its input has no
/// offset.
pub uninterp spec fn blake3_plain(h: blake3::Hasher) -> bool;

/// The blake3-256 hash of a byte string.
pub uninterp spec fn blake3_256(data: Seq<u8>) -> Seq<u8>;

/// `blake3::Hasher::new`: a hasher for the regular hash function that has been
/// fed nothing.
pub assume_specification[ blake3::Hasher::new ]() -> (h: blake3::Hasher)
    ensures
        blake3_plain(h),
        blake3_fed(h) == Seq::<u8>::empty(),
;

/// `blake3::Hasher::update` on a plain hasher: the bytes go behind those fed
/// before, and the hasher stays plain. With an input offset the call could
/// panic.
#[verifier::external_body]
fn blake3_update(h: &mut blake3::Hasher, chunk: &[u8])
    requires
        blake3_plain(*old(h)),
    ensures
        blake3_plain(*final(h)),
        blake3_fed(*final(h)) == blake3_fed(*old(h)) + chunk@,
{
    h.update(chunk);
}

/// `blake3::Hasher::finalize` on a plain hasher: the hash of everything that
/// was fed. Another hasher would give another hash, or panic.
#[verifier::external_body]
fn blake3_finalize(h: &blake3::Hasher) -> (r: [u8; 32])
    requires
        blake3_plain(*h),
    ensures
        r@ == blake3_256(blake3_fed(*h)),
{
    *h.finalize().as_bytes()
}

/// `hex::encode`: two lower-case hexadecimal digits per byte.
#[verifier::external_body]
fn hex_encode(data: &[u8]) -> (r: String)
    ensures
        r@ == hex_text(data@),
{
    hex::encode(data)
}

/// A hexadecimal digit, of either case.
pub open spec fn is_hex_digit(c: u8) -> bool {
    (48 <= c && c <= 57) || (97 <= c && c <= 102) || (65 <= c && c <= 70)
}

/// The value of a hexadecimal digit.
pub open spec fn hex_value(c: u8) -> int {
    if c <= 57 {
        c - 48
    } else if c >= 97 {
        c - 87
    } else {
        c - 55
    }
}

/// `s` is two hexadecimal digits for each of `n` bytes.
pub open spec fn is_hex_of_len(s: Seq<u8>, n: nat) -> bool {
    s.len() == 2 * n && forall|i: int| 0 <= i < s.len() ==> is_hex_digit(#[trigger] s[i])
}

/// The bytes written in `s`.
pub open spec fn hex_decoded(s: Seq<u8>, n: nat) -> Seq<u8> {
    Seq::new(n, |i: int| (16 * hex_value(s[2 * i]) + hex_value(s[2 * i + 1])) as u8)
}

/// `hex::decode_to_slice` into 32 bytes: succeeds exactly on 64 hexadecimal
/// digits, of either case, and gives the bytes they write.
#[verifier::external_body]
fn hex_decode_32(s: &[u8]) -> (r: Option<[u8; 32]>)
    ensures
        r is Some <==> is_hex_of_len(s@, 32),
        r matches Some(out) ==> out@ == hex_decoded(s@, 32),
{
    let mut out = [0u8; 32];
    match hex::decode_to_slice(s, &mut out) {
        Ok(()) => Some(out),
        Err(_) => None,
    }
}

/// A blake3 digest of 32 bytes.
#[derive(Debug, Clone, Copy, PartialEq, Eq, Hash)]
pub struct Digest(pub [u8; 32]);

impl View for Digest {
    type V = Seq<u8>;

    open spec fn view(&self) -> Seq<u8> {
        self.0@
    }
}

impl Digest {
    /// The null digest: no digest yet.
    pub fn zero() -> (r: Digest)
        ensures
            r@ == Seq::new(32, |i: int| 0u8),
    {
        let d: Digest = Digest([0u8; 32]);
        assert(d@ =~= Seq::new(32, |i: int| 0u8));
        d
    }

    /// Digest of bytes in memory.
    pub fn of(data: &[u8]) -> (r: Digest)
        ensures
            r@ == blake3_256(data@),
    {
        let mut h: blake3::Hasher = blake3::Hasher::new();
        blake3_update(&mut h, data);
        assert(Seq::<u8>::empty() + data@ =~= data@);
        Digest(blake3_finalize(&h))
    }

    /// Feeds one more chunk to a plain hasher.
    pub fn feed(h: &mut blake3::Hasher, chunk: &[u8])
        requires
            blake3_plain(*old(h)),
        ensures
            blake3_plain(*final(h)),
            blake3_fed(*final(h)) == blake3_fed(*old(h)) + chunk@,
    {
        blake3_update(h, chunk);
    }

    /// Digest of everything a plain hasher was fed.
    pub fn from_hasher(h: &blake3::Hasher) -> (r: Digest)
        requires
            blake3_plain(*h),
        ensures
            r@ == blake3_256(blake3_fed(*h)),
    {
        Digest(blake3_finalize(h))
    }

    /// Digest of a stream that arrives in chunks: where the chunk borders lie
    /// makes no difference.
    pub fn of_chunks(chunks: &[Vec<u8>]) -> (r: Digest)
        ensures
            r@ == blake3_256(joined(chunks@)),
    {
        let mut h: blake3::Hasher = blake3::Hasher::new();
        let mut i: usize = 0;
        assert(chunks@.take(0) =~= Seq::<Vec<u8>>::empty());
        while i < chunks.len()
            invariant
                i <= chunks@.len(),
                blake3_plain(h),
                blake3_fed(h) == joined(chunks@.take(i as int)),
            decreases chunks@.len() - i,
        {
            proof {
                let upto = chunks@.take(i + 1);
                assert(upto.drop_last() =~= chunks@.take(i as int));
                assert(upto.last() == chunks@[i as int]);
            }
            Digest::feed(&mut h, chunks[i].as_slice());
            i += 1;
        }
        assert(chunks@.take(i as int) =~= chunks@);
        Digest::from_hasher(&h)
    }

    /// Reads 64 hexadecimal digits, of either case.
    pub fn from_hex(s: &str) -> (r: Result<Digest, ArcaError>)
        ensures
            r is Ok <==> is_hex_of_len(encode_utf8(s@), 32),
            r matches Ok(d) ==> d@ == hex_decoded(encode_utf8(s@), 32),
            r is Err ==> fails(
                r,
                ErrorView::Internal("Digest.from_hex: 64 hex chars esperadas"@),
            ),
    {
        match hex_decode_32(s.as_bytes()) {
            Some(out) => Ok(Digest(out)),
            None => Err(ArcaError::Internal("Digest.from_hex: 64 hex chars esperadas")),
        }
    }

    /// 64 lower-case hexadecimal digits.
    pub fn to_hex(&self) -> (r: String)
        ensures
            r@ == hex_text(self@),
    {
        hex_encode(&self.0)
    }

    /// `"b3:"` and the first four bytes in hexadecimal, for compact logs.
    pub fn short_text(&self) -> (r: String)
        ensures
            r@ == "b3:"@ + hex_text(self@.take(4)),
    {
        let mut s: String = crate::text::owned("b3:");
        let head: &[u8] = vstd::slice::slice_subrange(&self.0, 0, 4);
        assert(head@ =~= self@.take(4));
        s.append(hex_encode(head).as_str());
        s
    }

    pub fn as_bytes(&self) -> (r: &[u8; 32])
        ensures
            r@ == self@,
    {
        &self.0
    }

    /// Whether every byte is zero.
    pub fn is_zero(&self) -> (r: bool)
        ensures
            r == (forall|i: int| 0 <= i < 32 ==> self@[i] == 0),
    {
        let mut i: usize = 0;
        while i < 32
            invariant
                i <= 32,
                forall|k: int| 0 <= k < i ==> self@[k] == 0,
            decreases 32 - i,
        {
            if self.0[i] != 0 {
                assert(self@[i as int] != 0);
                return false;
            }
            i += 1;
        }
        true
    }
}

/// The chunks of a stream, one behind the other.
pub open spec fn joined(chunks: Seq<Vec<u8>>) -> Seq<u8>
    decreases chunks.len(),
{
    if chunks.len() == 0 {
        Seq::<u8>::empty()
    } else {
        joined(chunks.drop_last()) + chunks.last()@
    }
}

/// Writing 32 bytes in hexadecimal and reading them back gives the same bytes.
pub proof fn law_hex_round_trip(b: Seq<u8>)
    requires
        b.len() == 32,
    ensures
        is_hex_of_len(encode_utf8(hex_text(b)), 32),
        hex_decoded(encode_utf8(hex_text(b)), 32) == b,
{
    let t = hex_text(b);
    assert forall|i: int| 0 <= i < t.len() implies (t[i] as u32) < 128 && is_hex_digit(
        #[trigger] t[i] as u8,
    ) && hex_value(t[i] as u8) == (if i % 2 == 0 {
        b[i / 2] as int / 16
    } else {
        b[i / 2] as int % 16
    }) by {
        let d: nat = if i % 2 == 0 {
            b[i / 2] as nat / 16
        } else {
            b[i / 2] as nat % 16
        };
        assert(d < 16);
        assert(t[i] == hex_char(d));
    }
    assert(is_ascii_chars(t));
    is_ascii_chars_encode_utf8(t);
    let e = encode_utf8(t);
    assert(e =~= Seq::new(t.len(), |i: int| t[i] as u8));
    assert forall|i: int| 0 <= i < 32 implies #[trigger] hex_decoded(e, 32)[i] == b[i] by {
        assert(hex_value(t[2 * i] as u8) == b[i] as int / 16);
        assert(hex_value(t[2 * i + 1] as u8) == b[i] as int % 16);
    }
    assert(hex_decoded(e, 32) =~= b);
}

/// The chunks of a stream are joined in the order in which they come.
pub proof fn law_chunks_are_joined_in_order(chunks: Seq<Vec<u8>>, last: Vec<u8>)
    ensures
        joined(Seq::empty()) == Seq::<u8>::empty(),
        joined(chunks.push(last)) == joined(chunks) + last@,
{
    assert(chunks.push(last).drop_last() =~= chunks);
}

} // verus!
