//! Identities: applications, instances, windows and sessions.
use vstd::prelude::*;
use vstd::utf8::*;

use crate::text::{dec_text, hex_text, owned, push_dec, push_hex};
use crate::types::error::{fails, ArcaError, ErrorView};

verus! {

/// `smol_str::SmolStr`, of which only its text is known.
#[verifier::external_type_specification]
#[verifier::external_body]
pub struct ExSmolStr(smol_str::SmolStr);

/// The characters that a `SmolStr` holds.
pub uninterp spec fn smol_text(s: smol_str::SmolStr) -> Seq<char>;

/// `smol_str::SmolStr::new` on a `&str`: a small string with the same
/// characters.
#[verifier::external_body]
fn smol_new(s: &str) -> (r: smol_str::SmolStr)
    ensures
        smol_text(r) == s@,
{
    smol_str::SmolStr::new(s)
}

/// `smol_str::SmolStr::as_str`: the characters the small string holds.
#[verifier::external_body]
fn smol_as_str(s: &smol_str::SmolStr) -> (r: &str)
    ensures
        r@ == smol_text(*s),
{
    s.as_str()
}

/// Identity of an installed application: 3 to 64 bytes of `[a-z0-9.]`.
#[derive(Debug, PartialEq, Eq, Hash, PartialOrd, Ord)]
pub struct AppId(pub smol_str::SmolStr);

/// A byte that may occur in an application identity.
pub open spec fn app_id_byte(b: u8) -> bool {
    (97 <= b && b <= 122) || (48 <= b && b <= 57) || b == 46
}

/// The length that an application identity may have, in bytes.
pub open spec fn app_id_len_ok(s: Seq<char>) -> bool {
    3 <= encode_utf8(s).len() <= 64
}

/// A well-formed application identity.
pub open spec fn app_id_ok(s: Seq<char>) -> bool {
    &&& app_id_len_ok(s)
    &&& forall|i: int| 0 <= i < encode_utf8(s).len() ==> app_id_byte(#[trigger] encode_utf8(s)[i])
}

impl View for AppId {
    type V = Seq<char>;

    open spec fn view(&self) -> Seq<char> {
        smol_text(self.0)
    }
}

impl AppId {
    /// Validates and builds an identity.
    pub fn new(s: &str) -> (r: Result<AppId, ArcaError>)
        ensures
            r is Ok <==> app_id_ok(s@),
            r matches Ok(id) ==> id@ == s@,
            !app_id_len_ok(s@) ==> fails(
                r,
                ErrorView::Internal("AppId: longitud debe ser 3..=64"@),
            ),
            app_id_len_ok(s@) && !app_id_ok(s@) ==> fails(
                r,
                ErrorView::Internal("AppId: solo [a-z0-9.]"@),
            ),
    {
        let b: &[u8] = s.as_bytes();
        if b.len() < 3 || b.len() > 64 {
            return Err(ArcaError::Internal("AppId: longitud debe ser 3..=64"));
        }
        let mut i: usize = 0;
        while i < b.len()
            invariant
                i <= b@.len(),
                b@ == encode_utf8(s@),
                app_id_len_ok(s@),
                forall|k: int| 0 <= k < i ==> app_id_byte(#[trigger] encode_utf8(s@)[k]),
            decreases b@.len() - i,
        {
            let c: u8 = b[i];
            let ok: bool = (97 <= c && c <= 122) || (48 <= c && c <= 57) || c == 46;
            if !ok {
                assert(!app_id_byte(encode_utf8(s@)[i as int]));
                return Err(ArcaError::Internal("AppId: solo [a-z0-9.]"));
            }
            i += 1;
        }
        Ok(AppId(smol_new(s)))
    }

    /// The identity as text.
    pub fn as_str(&self) -> (r: &str)
        ensures
            r@ == self@,
    {
        smol_as_str(&self.0)
    }

    /// The identity as an owned text.
    pub fn to_text(&self) -> (r: String)
        ensures
            r@ == self@,
    {
        owned(self.as_str())
    }
}

impl Clone for AppId {
    /// A copy with the same text.
    fn clone(&self) -> (r: AppId)
        ensures
            r@ == self@,
    {
        AppId(smol_new(self.as_str()))
    }
}

/// A running instance. The host hands the numbers out in increasing order.
#[derive(Debug, Clone, Copy, PartialEq, Eq, Hash, PartialOrd, Ord, Structural)]
pub struct InstanceId(u64);

impl InstanceId {
    /// First valid value (0 means none).
    pub fn first() -> (r: InstanceId)
        ensures
            r.value() == 1,
    {
        InstanceId(1)
    }

    pub closed spec fn value(self) -> u64 {
        self.0
    }

    pub fn new(v: u64) -> (r: InstanceId)
        ensures
            r.value() == v,
    {
        InstanceId(v)
    }

    pub fn get(self) -> (r: u64)
        ensures
            r == self.value(),
    {
        self.0
    }

    /// `"inst:<n>"`.
    pub fn to_text(self) -> (r: String)
        ensures
            r@ == "inst:"@ + dec_text(self.value() as nat),
    {
        let mut s: String = owned("inst:");
        push_dec(&mut s, self.0);
        s
    }
}

/// A window of the host.
#[derive(Debug, Clone, Copy, PartialEq, Eq, Hash, PartialOrd, Ord, Structural)]
pub struct WinId(u32);

impl WinId {
    /// No window (global input, errors).
    pub fn none() -> (r: WinId)
        ensures
            r.value() == 0,
    {
        WinId(0)
    }

    pub closed spec fn value(self) -> u32 {
        self.0
    }

    pub fn new(v: u32) -> (r: WinId)
        ensures
            r.value() == v,
    {
        WinId(v)
    }

    pub fn get(self) -> (r: u32)
        ensures
            r == self.value(),
    {
        self.0
    }

    /// `"win:<n>"`.
    pub fn to_text(self) -> (r: String)
        ensures
            r@ == "win:"@ + dec_text(self.value() as nat),
    {
        let mut s: String = owned("win:");
        push_dec(&mut s, self.0 as u64);
        s
    }
}

/// One run of an application: 128 random bits.
#[derive(Debug, Clone, Copy, PartialEq, Eq, Hash)]
pub struct SessionId([u8; 16]);

impl View for SessionId {
    type V = Seq<u8>;

    closed spec fn view(&self) -> Seq<u8> {
        self.0@
    }
}

impl SessionId {
    /// The session before any handshake: all zeros.
    pub fn zero() -> (r: SessionId)
        ensures
            r@ == Seq::new(16, |i: int| 0u8),
    {
        let s: SessionId = SessionId([0u8; 16]);
        assert(s@ =~= Seq::new(16, |i: int| 0u8));
        s
    }

    pub fn from_bytes(b: [u8; 16]) -> (r: SessionId)
        ensures
            r@ == b@,
    {
        SessionId(b)
    }

    pub fn as_bytes(&self) -> (r: &[u8; 16])
        ensures
            r@ == self@,
    {
        &self.0
    }

    /// 32 hexadecimal digits.
    pub fn to_text(&self) -> (r: String)
        ensures
            r@ == hex_text(self@),
    {
        let mut s: String = String::new();
        push_hex(&mut s, &self.0);
        assert(s@ =~= hex_text(self@));
        s
    }
}

/// Which texts are application identities: those of 3 to 64 characters, each a
/// lower-case letter, a digit or a dot.
pub proof fn law_identities_are_plain(s: Seq<char>)
    ensures
        app_id_ok(s) <==> 3 <= s.len() <= 64 && forall|i: int|
            0 <= i < s.len() ==> ('a' <= (#[trigger] s[i]) && s[i] <= 'z') || ('0' <= s[i] && s[i]
                <= '9') || s[i] == '.',
{
    let b = encode_utf8(s);
    if app_id_ok(s) {
        let t = Seq::new(b.len(), |i: int| b[i] as char);
        assert forall|i: int| 0 <= i < t.len() implies '\0' <= #[trigger] t[i] && t[i]
            <= '\u{7f}' by {
            assert(app_id_byte(b[i]));
        }
        assert(is_ascii_chars(t));
        is_ascii_chars_encode_utf8(t);
        assert forall|i: int| 0 <= i < b.len() implies encode_utf8(t)[i] == b[i] by {
            assert(app_id_byte(b[i]));
            assert(t[i] as u8 == encode_utf8(t)[i]);
        }
        assert(encode_utf8(t) =~= b);
        crate::text::lemma_utf8_injective(s, t);
        assert forall|i: int| 0 <= i < s.len() implies ('a' <= (#[trigger] s[i]) && s[i] <= 'z')
            || ('0' <= s[i] && s[i] <= '9') || s[i] == '.' by {
            assert(app_id_byte(b[i]));
        }
    }
    if 3 <= s.len() <= 64 && forall|i: int|
        0 <= i < s.len() ==> ('a' <= (#[trigger] s[i]) && s[i] <= 'z') || ('0' <= s[i] && s[i]
            <= '9') || s[i] == '.' {
        assert(is_ascii_chars(s)) by {
            assert forall|i: int| 0 <= i < s.len() implies '\0' <= #[trigger] s[i] && s[i]
                <= '\u{7f}' by {}
        }
        is_ascii_chars_encode_utf8(s);
        assert forall|i: int| 0 <= i < b.len() implies app_id_byte(#[trigger] b[i]) by {
            assert(s[i] as u8 == b[i]);
        }
    }
}

} // verus!
