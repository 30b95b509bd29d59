//! Checking what is installed: the files on disk against the manifest.
use vstd::prelude::*;

use crate::assoc::{as_map, has_key, lemma_at};
use crate::bytes::bytes_eq;
use crate::installer::package::declared;
use crate::installer::staged::{opt_text, parse_version};
use crate::installer::tree::{version_dir, version_dir_name};
use crate::pkg::{semver_ok, ArchiveEntry, Artifact, EntryKind, Version};
use crate::sign::sha256::sha256;
use crate::sign::stream::{law_accepted_package_is_genuine, received, verdict, VerifierView};
use crate::text::{owned, str_eq};
use crate::types::error::{fails, ArcaError, ErrorView, Res};
use crate::types::AppId;

verus! {

/// What was found of a declared file.
#[derive(Debug, Clone, Copy, PartialEq, Eq)]
pub struct Found {
    /// It is there, and a file.
    pub there: bool,
    /// Hash of its contents.
    pub sha256: [u8; 32],
    /// Its precompiled form is there.
    pub aot_there: bool,
}

/// What is wrong with a declared file, if anything is.
pub open spec fn file_problem(a: Artifact, f: Found) -> Option<Seq<char>> {
    if !f.there {
        Some("verify_installed: artefacto ausente"@)
    } else if f.sha256@ != a.sha256@ {
        Some("verify_installed: sha no coincide"@)
    } else if a.aot_path is Some && !f.aot_there {
        Some("verify_installed: aot ausente"@)
    } else {
        None
    }
}

/// The first thing that is wrong with the declared files from `i` on.
pub open spec fn first_problem(artifacts: Seq<Artifact>, found: Seq<Found>, i: int) -> Option<
    Seq<char>,
>
    decreases artifacts.len() - i,
{
    if i < 0 || i >= artifacts.len() {
        None
    } else {
        match file_problem(artifacts[i], found[i]) {
            Some(m) => Some(m),
            None => first_problem(artifacts, found, i + 1),
        }
    }
}

fn problem(a: &Artifact, f: &Found) -> (r: Option<&'static str>)
    ensures
        match r {
            Some(m) => file_problem(*a, *f) == Some(m@),
            None => file_problem(*a, *f) is None,
        },
{
    if !f.there {
        Some("verify_installed: artefacto ausente")
    } else if !bytes_eq(&f.sha256, &a.sha256) {
        Some("verify_installed: sha no coincide")
    } else if a.aot_path.is_some() && !f.aot_there {
        Some("verify_installed: aot ausente")
    } else {
        None
    }
}

/// Checks the declared files of the active version: each is there, has its
/// hash, and has its precompiled form if it declares one.
pub fn verify_installed(artifacts: &Vec<Artifact>, found: &Vec<Found>) -> (r: Res<()>)
    requires
        artifacts@.len() == found@.len(),
    ensures
        r is Ok <==> first_problem(artifacts@, found@, 0) is None,
        r matches Err(e) ==> e@ == ErrorView::InvalidPackage(
            first_problem(artifacts@, found@, 0)->0,
        ),
{
    let mut i: usize = 0;
    while i < artifacts.len()
        invariant
            artifacts@.len() == found@.len(),
            i <= artifacts@.len(),
            first_problem(artifacts@, found@, 0) == first_problem(artifacts@, found@, i as int),
        decreases artifacts@.len() - i,
    {
        match problem(&artifacts[i], &found[i]) {
            Some(m) => {
                return Err(ArcaError::InvalidPackage(m));
            },
            None => {},
        }
        i += 1;
    }
    Ok(())
}

/// Every altered file is found: an installation is accepted only if every
/// declared file is there with the declared hash.
pub proof fn law_tampering_is_found(artifacts: Seq<Artifact>, found: Seq<Found>, from: int, i: int)
    requires
        0 <= from <= i < artifacts.len(),
        first_problem(artifacts, found, from) is None,
    ensures
        found[i].there,
        found[i].sha256@ == artifacts[i].sha256@,
    decreases i - from,
{
    if from < i {
        law_tampering_is_found(artifacts, found, from + 1, i);
    }
}

proof fn lemma_declared_at(artifacts: Seq<Artifact>, i: int)
    requires
        0 <= i < artifacts.len(),
        forall|j: int, k: int|
            0 <= j < k < artifacts.len() ==> (#[trigger] artifacts[j]).path@ != (
            #[trigger] artifacts[k]).path@,
    ensures
        declared(artifacts).dom().contains(artifacts[i].path@),
        declared(artifacts)[artifacts[i].path@] == artifacts[i].sha256@,
    decreases artifacts.len(),
{
    if i < artifacts.len() - 1 {
        lemma_declared_at(artifacts.drop_last(), i);
        assert(artifacts.drop_last()[i] == artifacts[i]);
        assert(artifacts[i].path@ != artifacts[artifacts.len() - 1].path@);
    }
}

proof fn lemma_no_problem(artifacts: Seq<Artifact>, found: Seq<Found>, from: int)
    requires
        0 <= from <= artifacts.len(),
        forall|i: int|
            0 <= i < artifacts.len() ==> file_problem(#[trigger] artifacts[i], found[i]) is None,
    ensures
        first_problem(artifacts, found, from) is None,
    decreases artifacts.len() - from,
{
    if from < artifacts.len() {
        assert(file_problem(artifacts[from], found[from]) is None);
        lemma_no_problem(artifacts, found, from + 1);
    }
}

/// What was accepted when it was installed, and has not been touched since, is
/// still accepted. The paths of the declared files are distinct.
pub proof fn law_untouched_installation_is_accepted(
    v: VerifierView,
    artifacts: Seq<Artifact>,
    found: Seq<Found>,
)
    requires
        v.consistent(),
        verdict(v) is Ok,
        as_map(v.expected) == declared(artifacts),
        forall|j: int, k: int|
            0 <= j < k < artifacts.len() ==> (#[trigger] artifacts[j]).path@ != (
            #[trigger] artifacts[k]).path@,
        forall|i: int|
            0 <= i < artifacts.len() ==> found[i].there && found[i].sha256@ == sha256(
                received(v, (#[trigger] artifacts[i]).path@),
            ) && (artifacts[i].aot_path is Some ==> found[i].aot_there),
    ensures
        first_problem(artifacts, found, 0) is None,
{
    law_accepted_package_is_genuine(v);
    assert forall|i: int| 0 <= i < artifacts.len() implies file_problem(
        #[trigger] artifacts[i],
        found[i],
    ) is None by {
        lemma_declared_at(artifacts, i);
        let path = artifacts[i].path@;
        assert(has_key(v.expected, path));
        let k = choose|k: int| 0 <= k < v.expected.len() && (#[trigger] v.expected[k]).0 == path;
        lemma_at(v.expected, k);
        assert(sha256(received(v, v.expected[k].0)) == v.expected[k].1);
    }
    lemma_no_problem(artifacts, found, 0);
}

/// The directory of the registered version of an application.
pub fn registered_dir(id: &AppId, registered: &Option<String>) -> (r: Res<String>)
    ensures
        match opt_text(*registered) {
            None => fails(r, ErrorView::NotFound(id@)),
            Some(v) => if semver_ok(v) {
                r matches Ok(d) && d@ == version_dir(v)
            } else {
                fails(r, ErrorView::Internal("installer: versión ilegible"@))
            },
        },
{
    match registered {
        None => Err(ArcaError::NotFound(id.clone())),
        Some(text) => match parse_version(text.as_str()) {
            Ok(v) => Ok(version_dir_name(v.as_str())),
            Err(e) => Err(e),
        },
    }
}

/// Refuses an installation whose directory is not there.
pub fn check_tree(there: bool) -> (r: Res<()>)
    ensures
        r is Ok <==> there,
        r is Err ==> fails(r, ErrorView::InvalidPackage("installer: árbol de la app ausente"@)),
{
    if there {
        Ok(())
    } else {
        Err(ArcaError::InvalidPackage("installer: árbol de la app ausente"))
    }
}

/// Refuses an installation whose manifest is of another version than the
/// registered one.
pub fn check_version(manifest: &Version, registered: &str) -> (r: Res<()>)
    ensures
        r is Ok <==> manifest@ == registered@,
        r is Err ==> fails(
            r,
            ErrorView::InvalidPackage("installer: manifest del árbol ≠ versión registrada"@),
        ),
{
    if str_eq(manifest.as_str(), registered) {
        Ok(())
    } else {
        Err(ArcaError::InvalidPackage("installer: manifest del árbol ≠ versión registrada"))
    }
}

/// Checks the hash of an installed file.
pub fn check_hash(artifact: &Artifact, got: &[u8; 32]) -> (r: Res<()>)
    ensures
        r is Ok <==> got@ == artifact.sha256@,
        r is Err ==> fails(
            r,
            ErrorView::InvalidPackage("installer: sha256 del artefacto instalado no coincide"@),
        ),
{
    if bytes_eq(got, &artifact.sha256) {
        Ok(())
    } else {
        Err(ArcaError::InvalidPackage("installer: sha256 del artefacto instalado no coincide"))
    }
}

/// The path of an entry below the directory `prefix`.
pub open spec fn relative(prefix: Seq<char>, name: Seq<char>) -> Seq<char> {
    if prefix.len() == 0 {
        name
    } else {
        prefix.push('/') + name
    }
}

/// An entry of the installed tree, for the listing. A symbolic link has no
/// place there.
pub fn walk_entry(prefix: &str, name: &str, kind: EntryKind) -> (r: Res<ArchiveEntry>)
    ensures
        r is Ok <==> kind != EntryKind::Symlink,
        r matches Ok(e) ==> e.path@ == relative(prefix@, name@) && e.kind == kind,
        r is Err ==> fails(
            r,
            ErrorView::InvalidPackage("installer: symlink en el árbol instalado"@),
        ),
{
    if kind == EntryKind::Symlink {
        return Err(ArcaError::InvalidPackage("installer: symlink en el árbol instalado"));
    }
    let path: String = if prefix.unicode_len() == 0 {
        owned(name)
    } else {
        let mut s: String = owned(prefix);
        s.push('/');
        s.append(name);
        s
    };
    Ok(ArchiveEntry { path, kind })
}

} // verus!
