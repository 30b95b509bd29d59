//! Protocol version numbers.
use std::cmp::Ordering;
use vstd::prelude::*;
use vstd::std_specs::cmp::PartialOrdSpecImpl;

use crate::text::{dec_text, push_dec};

verus! {

/// A protocol version `AIPC-x.y`, as one end of a channel speaks it.
///
/// Two versions are compatible when the major numbers are equal and the local
/// minor number is at least the remote one.
#[derive(Debug, Clone, Copy, PartialEq, Eq, Hash, Ord, Structural)]
pub struct ProtoVersion {
    /// Changes break the wire format.
    pub major: u8,
    /// Changes add to it.
    pub minor: u8,
}

impl ProtoVersion {
    /// `"major.minor"`.
    pub open spec fn text(self) -> Seq<char> {
        dec_text(self.major as nat).push('.') + dec_text(self.minor as nat)
    }

    /// The 16-bit wire form.
    pub open spec fn wire(self) -> int {
        self.major * 256 + self.minor
    }

    /// Numeric order: by major number, then by minor number.
    pub open spec fn precedes(self, other: ProtoVersion) -> bool {
        self.major < other.major || (self.major == other.major && self.minor < other.minor)
    }

    pub fn new(major: u8, minor: u8) -> (r: ProtoVersion)
        ensures
            r == (ProtoVersion { major, minor }),
    {
        ProtoVersion { major, minor }
    }

    /// Whether this end can talk to a peer that asks for `want`.
    pub fn is_compatible(self, want: ProtoVersion) -> (r: bool)
        ensures
            r == self.serves(want),
    {
        self.major == want.major && self.minor >= want.minor
    }

    /// This end can talk to a peer that asks for `want`.
    pub open spec fn serves(self, want: ProtoVersion) -> bool {
        self.major == want.major && self.minor >= want.minor
    }

    /// The version of a connection: the lower of the two, or none when the
    /// major numbers differ.
    pub open spec fn agreed(self, want: ProtoVersion) -> Option<ProtoVersion> {
        if self.major != want.major {
            None
        } else if self.minor < want.minor {
            Some(self)
        } else {
            Some(want)
        }
    }

    /// The version to use on a connection: the lower of the two, or none when
    /// the major numbers differ.
    pub fn negotiate(self, want: ProtoVersion) -> (r: Option<ProtoVersion>)
        ensures
            r == self.agreed(want),
    {
        if self.major == want.major {
            if self.minor < want.minor {
                Some(ProtoVersion { major: self.major, minor: self.minor })
            } else {
                Some(ProtoVersion { major: self.major, minor: want.minor })
            }
        } else {
            None
        }
    }

    /// Packs the version in 16 bits: major in the high byte.
    pub fn to_wire(self) -> (r: u16)
        ensures
            r == self.wire(),
    {
        self.major as u16 * 256 + self.minor as u16
    }

    /// Unpacks 16 bits.
    pub fn from_wire(v: u16) -> (r: ProtoVersion)
        ensures
            r.major == v / 256,
            r.minor == v % 256,
    {
        ProtoVersion { major: (v / 256) as u8, minor: (v % 256) as u8 }
    }

    /// `"major.minor"`.
    pub fn to_text(self) -> (r: String)
        ensures
            r@ == self.text(),
    {
        let mut out: String = String::new();
        push_dec(&mut out, self.major as u64);
        out.push('.');
        push_dec(&mut out, self.minor as u64);
        assert(out@ =~= self.text());
        out
    }
}

impl PartialOrd for ProtoVersion {
    fn partial_cmp(&self, other: &ProtoVersion) -> (r: Option<Ordering>) {
        if self.major < other.major {
            Some(Ordering::Less)
        } else if self.major > other.major {
            Some(Ordering::Greater)
        } else if self.minor < other.minor {
            Some(Ordering::Less)
        } else if self.minor > other.minor {
            Some(Ordering::Greater)
        } else {
            Some(Ordering::Equal)
        }
    }
}

impl PartialOrdSpecImpl for ProtoVersion {
    open spec fn obeys_partial_cmp_spec() -> bool {
        true
    }

    open spec fn partial_cmp_spec(&self, other: &ProtoVersion) -> Option<Ordering> {
        if self.precedes(*other) {
            Some(Ordering::Less)
        } else if other.precedes(*self) {
            Some(Ordering::Greater)
        } else {
            Some(Ordering::Equal)
        }
    }
}

/// The wire form keeps the version: unpacking gives back what was packed, and
/// packing gives back what was unpacked.
pub proof fn law_wire_round_trip(v: ProtoVersion, w: u16)
    ensures
        0 <= v.wire() <= u16::MAX,
        (v.wire() / 256) == v.major,
        (v.wire() % 256) == v.minor,
        (ProtoVersion { major: (w / 256) as u8, minor: (w % 256) as u8 }).wire() == w,
{
}

/// The order of versions is total: of two versions exactly one precedes the
/// other unless they are equal.
pub proof fn law_order_total(a: ProtoVersion, b: ProtoVersion, c: ProtoVersion)
    ensures
        a.precedes(b) || b.precedes(a) || a == b,
        !(a.precedes(b) && b.precedes(a)),
        !a.precedes(a),
        a.precedes(b) && b.precedes(c) ==> a.precedes(c),
{
}

/// Both ends agree on the same version, both can serve it, and it is one of
/// the two. They agree exactly where one of them can serve the other.
pub proof fn law_negotiation_is_mutual(a: ProtoVersion, b: ProtoVersion)
    ensures
        a.agreed(b) == b.agreed(a),
        a.agreed(b) is Some <==> a.serves(b) || b.serves(a),
        a.agreed(b) matches Some(v) ==> a.serves(v) && b.serves(v) && (v == a || v == b),
{
}

/// The order of versions is that of their wire forms, and a connection uses the
/// lower minor number of the two ends.
pub proof fn law_order_is_that_of_the_wire(a: ProtoVersion, b: ProtoVersion)
    ensures
        a.precedes(b) <==> 256 * a.major + a.minor < 256 * b.major + b.minor,
        a.wire() == 256 * a.major + a.minor,
        a.serves(b) <==> a.major == b.major && b.minor <= a.minor,
        a.agreed(b) matches Some(v) ==> v.major == a.major && v.major == b.major && v.minor
            <= a.minor && v.minor <= b.minor && (v.minor == a.minor || v.minor == b.minor),
        a.agreed(b) is None <==> a.major != b.major,
        a.text() == dec_text(a.major as nat) + seq!['.'] + dec_text(a.minor as nat),
{
    assert(dec_text(a.major as nat).push('.') =~= dec_text(a.major as nat) + seq!['.']);
}

} // verus!
