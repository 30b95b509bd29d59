//! Packages: versions, manifests and archive listings, as far as installing
//! and bookkeeping read them.
use vstd::prelude::*;

use crate::text::{is_digit, owned, str_eq};
use crate::types::{AppId, Capability};

verus! {

/// The text is a version that `semver` reads.
pub uninterp spec fn semver_ok(text: Seq<char>) -> bool;

/// The first version comes before the second in the order of `semver`.
pub uninterp spec fn semver_less(a: Seq<char>, b: Seq<char>) -> bool;

/// The text begins with a digit.
pub open spec fn begins_with_digit(text: Seq<char>) -> bool {
    text.len() > 0 && is_digit(text[0])
}

/// `semver::Version::parse`: whether it reads the text. What it reads, it also
/// prints in the same way, and it begins with a digit, that of the major number.
#[verifier::external_body]
fn semver_parses(s: &str) -> (r: bool)
    ensures
        r == semver_ok(s@),
        r ==> begins_with_digit(s@),
{
    semver::Version::parse(s).is_ok()
}

/// `<` of `semver::Version` on two texts that it reads: the version order,
/// which is strict. Versions that differ in their text differ.
#[verifier::external_body]
fn semver_before(a: &str, b: &str) -> (r: bool)
    requires
        semver_ok(a@),
        semver_ok(b@),
    ensures
        r == semver_less(a@, b@),
        a@ == b@ ==> !r,
        r ==> !semver_less(b@, a@),
        !r && a@ != b@ ==> semver_less(b@, a@),
{
    match (semver::Version::parse(a), semver::Version::parse(b)) {
        (Ok(x), Ok(y)) => x < y,
        _ => false,
    }
}

/// A version. Its text is the only way to write it.
#[derive(Debug, PartialEq, Eq)]
pub struct Version {
    text: String,
}

impl View for Version {
    type V = Seq<char>;

    closed spec fn view(&self) -> Seq<char> {
        self.text@
    }
}

impl Version {
    #[verifier::type_invariant]
    spec fn readable(self) -> bool {
        semver_ok(self.text@) && begins_with_digit(self.text@)
    }

    /// Reads a version.
    pub fn parse(s: &str) -> (r: Option<Version>)
        ensures
            r is Some <==> semver_ok(s@),
            r matches Some(v) ==> v@ == s@ && begins_with_digit(s@),
    {
        if semver_parses(s) {
            Some(Version { text: owned(s) })
        } else {
            None
        }
    }

    pub fn as_str(&self) -> (r: &str)
        ensures
            r@ == self@,
            semver_ok(self@),
            begins_with_digit(self@),
    {
        proof {
            use_type_invariant(&*self);
        }
        self.text.as_str()
    }

    /// Whether this version comes before the other.
    pub fn is_before(&self, other: &Version) -> (r: bool)
        ensures
            r == semver_less(self@, other@),
            r ==> self@ != other@,
            r ==> !semver_less(other@, self@),
            !r && self@ != other@ ==> semver_less(other@, self@),
    {
        proof {
            use_type_invariant(&*self);
            use_type_invariant(&*other);
        }
        semver_before(self.text.as_str(), other.text.as_str())
    }

    /// Whether this is the same version.
    pub fn is_same(&self, other: &Version) -> (r: bool)
        ensures
            r == (self@ == other@),
    {
        str_eq(self.text.as_str(), other.text.as_str())
    }

    /// The same version again.
    pub fn duplicate(&self) -> (r: Version)
        ensures
            r@ == self@,
    {
        proof {
            use_type_invariant(&*self);
        }
        Version { text: owned(self.text.as_str()) }
    }
}

/// A file that the manifest declares with its hash.
#[derive(Debug, PartialEq, Eq)]
pub struct Artifact {
    /// Path inside the package.
    pub path: String,
    pub sha256: [u8; 32],
    /// Path of its precompiled form, if it declares one.
    pub aot_path: Option<String>,
}

/// What a manifest says.
#[derive(Debug, PartialEq, Eq)]
pub struct Manifest {
    pub id: AppId,
    /// Visible name.
    pub name: String,
    pub version: Version,
    /// Least host version.
    pub min_host: Version,
    pub api_level: u32,
    pub description: String,
    pub tags: Vec<String>,
    /// Capabilities that the application asks for.
    pub caps: Vec<Capability>,
    pub artifacts: Vec<Artifact>,
}

/// What an archive holds under a path.
#[derive(Debug, Clone, Copy, PartialEq, Eq, Structural)]
pub enum EntryKind {
    File,
    Dir,
    Symlink,
}

/// An entry of an archive, as its directory lists it.
#[derive(Debug, PartialEq, Eq)]
pub struct EntryInfo {
    /// The path as the archive writes it.
    pub path: String,
    pub is_dir: bool,
    /// The path to extract to, if the entry leads nowhere outside the target
    /// directory.
    pub safe_path: Option<String>,
}

/// A listed entry: its path and what it is.
#[derive(Debug, PartialEq, Eq)]
pub struct ArchiveEntry {
    pub path: String,
    pub kind: EntryKind,
}

} // verus!
