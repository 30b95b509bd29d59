//! The rows of the registry.
use vstd::prelude::*;

use crate::pick::{is_selection, lemma_select_none, lemma_select_step};
use crate::text::{
    from_chars, has_prefix, lemma_signed_dec_text_value, owned, parse_i32, push_signed_dec,
    signed_dec_text, signed_value, str_eq, to_chars,
};
use crate::types::caps::{all_capabilities, law_all_in_order, Capability};
use crate::types::{AppId, InstanceId};

verus! {

/// `std::time::SystemTime`, of which only its distance from the Unix epoch is
/// known.
#[verifier::external_type_specification]
#[verifier::external_body]
pub struct ExSystemTime(std::time::SystemTime);

/// `std::time::SystemTime::now`: the wall clock. Nothing is known of it.
#[verifier::external_body]
fn clock_now() -> (r: std::time::SystemTime) {
    std::time::SystemTime::now()
}

/// The milliseconds from the Unix epoch to a time, if it is not before the
/// epoch.
pub uninterp spec fn millis_since_epoch(t: std::time::SystemTime) -> Option<u128>;

/// `std::time::SystemTime::duration_since` the Unix epoch, in milliseconds;
/// nothing when the time is before the epoch.
#[verifier::external_body]
fn clock_millis(t: &std::time::SystemTime) -> (r: Option<u128>)
    ensures
        r == millis_since_epoch(*t),
{
    t.duration_since(std::time::UNIX_EPOCH).ok().map(|d| d.as_millis())
}

/// Wall-clock time in milliseconds since the Unix epoch.
#[derive(Debug, Clone, Copy, PartialEq, Eq, PartialOrd, Ord, Hash, Structural)]
pub struct UnixMs(i64);

impl UnixMs {
    /// The raw value.
    pub closed spec fn value(self) -> i64 {
        self.0
    }

    /// The value of a clock reading: 0 when the clock stands before the epoch,
    /// and the largest value when the reading does not fit.
    pub open spec fn reading(ms: Option<u128>) -> i64 {
        match ms {
            None => 0i64,
            Some(m) => if m > i64::MAX as u128 {
                i64::MAX
            } else {
                m as i64
            },
        }
    }

    /// The time of a clock reading.
    pub fn from_clock(ms: Option<u128>) -> (r: UnixMs)
        ensures
            r.value() == UnixMs::reading(ms),
    {
        match ms {
            None => UnixMs(0),
            Some(m) => if m > 0x7fff_ffff_ffff_ffff {
                UnixMs(0x7fff_ffff_ffff_ffff)
            } else {
                UnixMs(m as i64)
            },
        }
    }

    /// The current time: what the clock reads, and never negative.
    pub fn now() -> (r: UnixMs)
        ensures
            exists|t: std::time::SystemTime|
                r.value() == UnixMs::reading(#[trigger] millis_since_epoch(t)),
            r.value() >= 0,
    {
        let t: std::time::SystemTime = clock_now();
        UnixMs::from_clock(clock_millis(&t))
    }

    pub fn from_millis(ms: i64) -> (r: UnixMs)
        ensures
            r.value() == ms,
    {
        UnixMs(ms)
    }

    pub fn get(self) -> (r: i64)
        ensures
            r == self.value(),
    {
        self.0
    }

    /// `"<n>ms"`.
    pub fn to_text(self) -> (r: String)
        ensures
            r@ == signed_dec_text(self.value() as int) + "ms"@,
    {
        let mut s: String = String::new();
        push_signed_dec(&mut s, self.0);
        s.append("ms");
        assert(s@ =~= signed_dec_text(self.value() as int) + "ms"@);
        s
    }
}

/// Who brought a package to the device.
#[derive(Debug, Clone, Copy, PartialEq, Eq, Hash, Structural)]
pub enum InstallSource {
    /// The user picked it.
    User,
    /// It came with the host.
    Bundled,
    /// Development sideload.
    Dev,
}

impl InstallSource {
    /// Canonical name.
    pub open spec fn name(self) -> Seq<char> {
        match self {
            InstallSource::User => "user"@,
            InstallSource::Bundled => "bundled"@,
            InstallSource::Dev => "dev"@,
        }
    }

    pub fn as_str(self) -> (r: &'static str)
        ensures
            r@ == self.name(),
    {
        match self {
            InstallSource::User => "user",
            InstallSource::Bundled => "bundled",
            InstallSource::Dev => "dev",
        }
    }

    /// The source with this canonical name, if there is one.
    pub fn from_name(s: &str) -> (r: Option<InstallSource>)
        ensures
            r == source_named(s@),
            r matches Some(x) ==> x.name() == s@,
            r is None ==> forall|x: InstallSource| #[trigger] x.name() != s@,
    {
        if str_eq(s, "user") {
            Some(InstallSource::User)
        } else if str_eq(s, "bundled") {
            Some(InstallSource::Bundled)
        } else if str_eq(s, "dev") {
            Some(InstallSource::Dev)
        } else {
            None
        }
    }
}

/// The source with the name, if there is one.
pub open spec fn source_named(s: Seq<char>) -> Option<InstallSource> {
    if s == "user"@ {
        Some(InstallSource::User)
    } else if s == "bundled"@ {
        Some(InstallSource::Bundled)
    } else if s == "dev"@ {
        Some(InstallSource::Dev)
    } else {
        None
    }
}

/// No two sources share a name, so reading a name back gives the source that
/// was written.
pub proof fn law_source_names_distinct(a: InstallSource, b: InstallSource)
    requires
        a.name() == b.name(),
    ensures
        a == b,
{
    reveal_strlit("user");
    reveal_strlit("bundled");
    reveal_strlit("dev");
    assert("user"@.len() == 4);
    assert("bundled"@.len() == 7);
    assert("dev"@.len() == 3);
}

/// How an instance ended.
#[derive(Debug, Clone, Copy, PartialEq, Eq, Hash, Structural)]
pub enum Outcome {
    /// By itself, with an exit code.
    Exited { code: i32 },
    /// By a signal or a crash.
    Crashed,
    /// The host killed it.
    Killed,
}

impl Outcome {
    /// The form in the registry.
    pub open spec fn text(self) -> Seq<char> {
        match self {
            Outcome::Exited { code } => "exit:"@ + signed_dec_text(code as int),
            Outcome::Crashed => "crash"@,
            Outcome::Killed => "killed"@,
        }
    }

    /// The form in the registry.
    pub fn as_sql(&self) -> (r: String)
        ensures
            r@ == self.text(),
    {
        match *self {
            Outcome::Exited { code } => {
                let mut s: String = owned("exit:");
                push_signed_dec(&mut s, code as i64);
                s
            },
            Outcome::Crashed => owned("crash"),
            Outcome::Killed => owned("killed"),
        }
    }

    /// Reads the form in the registry.
    pub fn from_sql(s: &str) -> (r: Option<Outcome>)
        ensures
            r == outcome_of(s@),
    {
        if str_eq(s, "crash") {
            return Some(Outcome::Crashed);
        }
        if str_eq(s, "killed") {
            return Some(Outcome::Killed);
        }
        if !has_prefix(s, "exit:") {
            return None;
        }
        let c: Vec<char> = to_chars(s);
        proof {
            reveal_strlit("exit:");
        }
        let code: String = from_chars(&c, 5, c.len());
        assert(code@ =~= s@.skip(5));
        match parse_i32(code.as_str()) {
            Some(code) => Some(Outcome::Exited { code }),
            None => None,
        }
    }
}

/// What a text of the registry says about the end of an instance.
pub open spec fn outcome_of(s: Seq<char>) -> Option<Outcome> {
    if s == "crash"@ {
        Some(Outcome::Crashed)
    } else if s == "killed"@ {
        Some(Outcome::Killed)
    } else if "exit:"@.is_prefix_of(s) {
        match signed_value(s.skip(5)) {
            Some(v) => if i32::MIN <= v <= i32::MAX {
                Some(Outcome::Exited { code: v as i32 })
            } else {
                None
            },
            None => None,
        }
    } else {
        None
    }
}

/// Reading an outcome back gives the outcome that was written.
pub proof fn law_outcome_round_trip(o: Outcome)
    ensures
        outcome_of(o.text()) == Some(o),
{
    reveal_strlit("exit:");
    reveal_strlit("crash");
    reveal_strlit("killed");
    match o {
        Outcome::Exited { code } => {
            let t = o.text();
            lemma_signed_dec_text_value(code as int);
            assert(t.skip(5) =~= signed_dec_text(code as int));
            assert("exit:"@.is_prefix_of(t)) by {
                assert(t.subrange(0, 5) =~= "exit:"@);
            }
            assert(t[0] == 'e');
            assert("crash"@[0] == 'c');
            assert("killed"@[0] == 'k');
        },
        Outcome::Crashed => {},
        Outcome::Killed => {
            assert("killed"@.len() == 6);
            assert("crash"@.len() == 5);
        },
    }
}

/// An installed application, as the launcher sees it.
#[derive(Debug, PartialEq, Eq)]
pub struct AppRecord {
    pub id: AppId,
    /// Visible name.
    pub name: String,
    /// Installed version.
    pub version: String,
    /// Least host version it asks for.
    pub min_host: String,
    /// Level of the interface contract.
    pub api_level: u32,
    pub description: String,
    pub tags: Vec<String>,
    pub installed_from: InstallSource,
    /// When it was installed; updates keep it.
    pub installed_at: UnixMs,
    /// When the record was last written.
    pub updated_at: UnixMs,
}

/// The spawn of an instance.
#[derive(Debug, PartialEq, Eq)]
pub struct InstanceRecord {
    pub instance_id: InstanceId,
    pub app_id: AppId,
    /// Version of the package at the time of the spawn.
    pub version: String,
    pub started_at: UnixMs,
}

/// One use of a capability by an application.
#[derive(Debug, PartialEq, Eq)]
pub struct AuditEvent {
    pub app_id: AppId,
    pub cap: Capability,
    pub ts: UnixMs,
    /// Short detail; may be empty.
    pub detail: String,
}

/// Which applications to list.
#[derive(Debug, Clone, Copy, PartialEq, Eq)]
pub struct Filter {
    cap: Option<Capability>,
    source: Option<InstallSource>,
}

impl Filter {
    /// The capability asked for.
    pub closed spec fn wanted_cap(self) -> Option<Capability> {
        self.cap
    }

    /// The source asked for.
    pub closed spec fn wanted_source(self) -> Option<InstallSource> {
        self.source
    }

    /// No condition.
    pub fn all() -> (r: Filter)
        ensures
            r.wanted_cap() is None,
            r.wanted_source() is None,
    {
        Filter { cap: None, source: None }
    }

    /// Only applications with this capability.
    pub fn with_cap(self, cap: Capability) -> (r: Filter)
        ensures
            r.wanted_cap() == Some(cap),
            r.wanted_source() == self.wanted_source(),
    {
        Filter { cap: Some(cap), source: self.source }
    }

    /// Only applications from this source.
    pub fn from(self, source: InstallSource) -> (r: Filter)
        ensures
            r.wanted_cap() == self.wanted_cap(),
            r.wanted_source() == Some(source),
    {
        Filter { cap: self.cap, source: Some(source) }
    }

    pub fn cap(&self) -> (r: Option<Capability>)
        ensures
            r == self.wanted_cap(),
    {
        self.cap
    }

    pub fn source(&self) -> (r: Option<InstallSource>)
        ensures
            r == self.wanted_source(),
    {
        self.source
    }
}

impl Default for Filter {
    fn default() -> (r: Filter)
        ensures
            r.wanted_cap() is None,
            r.wanted_source() is None,
    {
        Filter::all()
    }
}

/// Bit `i` of `bits`.
pub open spec fn bit_16(bits: u16, i: nat) -> bool {
    bits & (1u16 << (i as u16)) != 0
}

proof fn lemma_set_bit_16(bits: u16, i: u16, j: u16)
    requires
        i < 16,
        j < 16,
    ensures
        bit_16(bits | (1u16 << i), j as nat) == (i == j || bit_16(bits, j as nat)),
        i < 11 && bits < 2048 ==> (bits | (1u16 << i)) < 2048,
{
    assert(((bits | (1u16 << i)) & (1u16 << j) != 0) == (i == j || bits & (1u16 << j) != 0))
        by (bit_vector)
        requires
            i < 16,
            j < 16,
    ;
    assert(i < 11 && bits < 2048 ==> (bits | (1u16 << i)) < 2048) by (bit_vector);
}

proof fn lemma_no_bits_16(bits: u16)
    requires
        bits < 2048,
        forall|i: nat| i < 11 ==> !(#[trigger] bit_16(bits, i)),
    ensures
        bits == 0,
{
    assert(!bit_16(bits, 0) && !bit_16(bits, 1) && !bit_16(bits, 2) && !bit_16(bits, 3));
    assert(!bit_16(bits, 4) && !bit_16(bits, 5) && !bit_16(bits, 6) && !bit_16(bits, 7));
    assert(!bit_16(bits, 8) && !bit_16(bits, 9) && !bit_16(bits, 10));
    assert(bits == 0) by (bit_vector)
        requires
            bits < 2048,
            bits & (1u16 << 0u16) == 0,
            bits & (1u16 << 1u16) == 0,
            bits & (1u16 << 2u16) == 0,
            bits & (1u16 << 3u16) == 0,
            bits & (1u16 << 4u16) == 0,
            bits & (1u16 << 5u16) == 0,
            bits & (1u16 << 6u16) == 0,
            bits & (1u16 << 7u16) == 0,
            bits & (1u16 << 8u16) == 0,
            bits & (1u16 << 9u16) == 0,
            bits & (1u16 << 10u16) == 0,
    ;
}

/// The capabilities granted to an application.
#[derive(Debug, Clone, Copy, PartialEq, Eq, Hash)]
pub struct CapabilitySet {
    bits: u16,
}

impl View for CapabilitySet {
    type V = Set<Capability>;

    closed spec fn view(&self) -> Set<Capability> {
        Set::new(|c: Capability| bit_16(self.bits, c.ordinal()))
    }
}

/// The members of a set, in declaration order.
pub open spec fn members(s: Set<Capability>) -> Seq<Capability> {
    all_capabilities().filter(|c: Capability| s.contains(c))
}

/// The first `n` capabilities that are members of a set.
spec fn members_upto(s: Set<Capability>, n: int) -> Seq<Capability> {
    all_capabilities().take(n).filter(|c: Capability| s.contains(c))
}

proof fn lemma_members_step(s: Set<Capability>, n: int)
    requires
        0 <= n < 11,
    ensures
        members_upto(s, n + 1) == (if s.contains(all_capabilities()[n]) {
            members_upto(s, n).push(all_capabilities()[n])
        } else {
            members_upto(s, n)
        }),
{
    let a = all_capabilities();
    assert(a.take(n + 1).drop_last() =~= a.take(n));
    assert(a.take(n + 1).last() == a[n]);
    reveal(Seq::filter);
}

impl CapabilitySet {
    #[verifier::type_invariant]
    spec fn valid(self) -> bool {
        self.bits < 2048
    }

    pub fn empty() -> (r: CapabilitySet)
        ensures
            r@ == Set::<Capability>::empty(),
    {
        let r: CapabilitySet = CapabilitySet { bits: 0 };
        proof {
            assert forall|c: Capability| !(#[trigger] r@.contains(c)) by {
                let i: u16 = c.ordinal() as u16;
                assert(0u16 & (1u16 << i) == 0) by (bit_vector);
            }
            assert(r@ =~= Set::<Capability>::empty());
        }
        r
    }

    /// Adds a capability.
    pub fn insert(&mut self, cap: Capability)
        ensures
            final(self)@ == old(self)@.insert(cap),
    {
        proof {
            use_type_invariant(&*self);
        }
        let ghost before = self@;
        let i: u16 = cap.index() as u16;
        let bits: u16 = self.bits | (1u16 << i);
        proof {
            lemma_set_bit_16(self.bits, i, i);
            assert forall|c: Capability| #[trigger] bit_16(bits, c.ordinal()) == before.insert(
                cap,
            ).contains(c) by {
                lemma_set_bit_16(self.bits, i, c.ordinal() as u16);
                law_all_in_order(c);
                law_all_in_order(cap);
            }
        }
        self.bits = bits;
        assert(self@ =~= before.insert(cap));
    }

    /// Whether the capability is a member.
    pub fn contains(&self, cap: Capability) -> (r: bool)
        ensures
            r == self@.contains(cap),
    {
        let i: u16 = cap.index() as u16;
        self.bits & (1u16 << i) != 0
    }

    /// How many members there are.
    pub fn len(&self) -> (n: usize)
        ensures
            n == members(self@).len(),
    {
        self.iter().len()
    }

    pub fn is_empty(&self) -> (r: bool)
        ensures
            r == (forall|c: Capability| !(#[trigger] self@.contains(c))),
    {
        proof {
            use_type_invariant(&*self);
            if self.bits == 0 {
                assert forall|c: Capability| !(#[trigger] self@.contains(c)) by {
                    let i: u16 = c.ordinal() as u16;
                    assert(0u16 & (1u16 << i) == 0) by (bit_vector);
                }
            }
            if forall|c: Capability| !(#[trigger] self@.contains(c)) {
                assert forall|i: nat| i < 11 implies !(#[trigger] bit_16(self.bits, i)) by {
                    let c = all_capabilities()[i as int];
                    law_all_in_order(c);
                    assert(c.ordinal() == i);
                    assert(!self@.contains(c));
                }
                lemma_no_bits_16(self.bits);
            }
        }
        self.bits == 0
    }

    /// The members, in declaration order.
    pub fn iter(&self) -> (r: Vec<Capability>)
        ensures
            r@ == members(self@),
    {
        let all: [Capability; 11] = Capability::all();
        let mut out: Vec<Capability> = Vec::new();
        let mut i: usize = 0;
        proof {
            assert(all_capabilities().take(0) =~= Seq::<Capability>::empty());
            reveal(Seq::filter);
            assert(members_upto(self@, 0) =~= Seq::<Capability>::empty());
        }
        while i < 11
            invariant
                i <= 11,
                all@ == all_capabilities(),
                out@ == members_upto(self@, i as int),
            decreases 11 - i,
        {
            proof {
                lemma_members_step(self@, i as int);
            }
            let c: Capability = all[i];
            if self.contains(c) {
                out.push(c);
            }
            i += 1;
        }
        assert(all_capabilities().take(11) =~= all_capabilities());
        out
    }

    /// The set of the given capabilities.
    pub fn from_iter(caps: &[Capability]) -> (r: CapabilitySet)
        ensures
            r@ == caps@.to_set(),
    {
        let mut set: CapabilitySet = CapabilitySet::empty();
        let mut i: usize = 0;
        assert(caps@.take(0).to_set() =~= Set::<Capability>::empty());
        while i < caps.len()
            invariant
                i <= caps@.len(),
                set@ == caps@.take(i as int).to_set(),
            decreases caps@.len() - i,
        {
            proof {
                let cur = caps@.take(i as int);
                let upto = caps@.take(i + 1);
                assert(upto =~= cur.push(caps@[i as int]));
                assert forall|c: Capability| #[trigger] upto.contains(c) == (cur.contains(c) || c
                    == caps@[i as int]) by {
                    if cur.contains(c) {
                        let k = choose|k: int| 0 <= k < cur.len() && cur[k] == c;
                        assert(upto[k] == c);
                    }
                    if c == caps@[i as int] {
                        assert(upto[i as int] == c);
                    }
                }
                assert(upto.to_set() =~= cur.to_set().insert(caps@[i as int]));
            }
            set.insert(caps[i]);
            i += 1;
        }
        assert(caps@.take(i as int) =~= caps@);
        set
    }

    /// The names of the members, in declaration order, separated by commas.
    pub fn to_text(&self) -> (r: String)
        ensures
            r@ == joined_names(members(self@)),
    {
        let list: Vec<Capability> = self.iter();
        let mut out: String = String::new();
        let mut i: usize = 0;
        assert(list@.take(0) =~= Seq::<Capability>::empty());
        while i < list.len()
            invariant
                i <= list@.len(),
                out@ == joined_names(list@.take(i as int)),
            decreases list@.len() - i,
        {
            proof {
                let upto = list@.take(i + 1);
                assert(upto.drop_last() =~= list@.take(i as int));
                assert(upto.last() == list@[i as int]);
            }
            if i > 0 {
                out.append(",");
            }
            out.append(list[i].as_str());
            proof {
                reveal_strlit(",");
                assert(out@ =~= joined_names(list@.take(i + 1)));
            }
            i += 1;
        }
        assert(list@.take(i as int) =~= list@);
        out
    }
}

/// Names of capabilities, separated by commas.
pub open spec fn joined_names(caps: Seq<Capability>) -> Seq<char>
    decreases caps.len(),
{
    if caps.len() == 0 {
        Seq::<char>::empty()
    } else if caps.len() == 1 {
        caps[0].name()
    } else {
        joined_names(caps.drop_last()) + ","@ + caps.last().name()
    }
}

impl Default for CapabilitySet {
    fn default() -> (r: CapabilitySet)
        ensures
            r@ == Set::<Capability>::empty(),
    {
        CapabilitySet::empty()
    }
}

/// A clock reading is kept as it is as far as it fits; a clock before the epoch
/// reads 0, and one beyond the range reads its end.
pub proof fn law_clock_readings_are_held_in_range(ms: u128)
    ensures
        UnixMs::reading(None) == 0,
        ms <= 9223372036854775807 ==> UnixMs::reading(Some(ms)) == ms,
        ms > 9223372036854775807 ==> UnixMs::reading(Some(ms)) == 9223372036854775807,
{
}

/// The names of the sources, and the forms of the outcomes in the registry.
pub proof fn law_names_in_the_registry(code: i32)
    ensures
        InstallSource::User.name() == "user"@,
        InstallSource::Bundled.name() == "bundled"@,
        InstallSource::Dev.name() == "dev"@,
        (Outcome::Exited { code }).text() == "exit:"@ + signed_dec_text(code as int),
        Outcome::Crashed.text() == "crash"@,
        Outcome::Killed.text() == "killed"@,
{
}

/// The members of a set are listed once each, in declaration order.
pub proof fn law_members_are_listed_in_order(s: Set<Capability>)
    ensures
        is_selection(
            members(s),
            all_capabilities(),
            |c: Capability| s.contains(c),
            |c: Capability| c,
        ),
{
    lemma_members_upto(s, 11);
    assert(all_capabilities().take(11) =~= all_capabilities());
}

proof fn lemma_members_upto(s: Set<Capability>, n: int)
    requires
        0 <= n <= 11,
    ensures
        is_selection(
            members_upto(s, n),
            all_capabilities().take(n),
            |c: Capability| s.contains(c),
            |c: Capability| c,
        ),
    decreases n,
{
    let good = |c: Capability| s.contains(c);
    let make = |c: Capability| c;
    let all = all_capabilities();
    if n == 0 {
        reveal(Seq::filter);
        lemma_select_none(members_upto(s, 0), all.take(0), good, make);
    } else {
        lemma_members_upto(s, n - 1);
        lemma_members_step(s, n - 1);
        assert(all.take(n).drop_last() =~= all.take(n - 1));
        assert(all.take(n).last() == all[n - 1]);
        lemma_select_step(members_upto(s, n - 1), all.take(n), good, make);
    }
}

/// Names are joined by commas in their order.
pub proof fn law_names_are_joined_by_commas(caps: Seq<Capability>, last: Capability)
    ensures
        joined_names(Seq::empty()) == Seq::<char>::empty(),
        joined_names(seq![last]) == last.name(),
        caps.len() > 0 ==> joined_names(caps.push(last)) == joined_names(caps) + ","@ + last.name(),
{
    assert(caps.push(last).drop_last() =~= caps);
}

} // verus!
