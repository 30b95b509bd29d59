//! Reading a package: the files that are read first, what they have to say,
//! and the verification that runs while the rest is extracted.
use vstd::prelude::*;
use vstd::utf8::*;

use crate::assoc::{as_map, has_key, lemma_at, lemma_empty, lemma_push, lemma_update, unique_keys};
use crate::pick::{
    is_selection, lemma_select_none, lemma_select_step, lemma_selection_members,
};
use crate::pkg::{ArchiveEntry, Artifact, EntryInfo, EntryKind};
use crate::sign::ring::RingOfTrust;
use crate::sign::sig::{envelope_parse, PackageSignature};
use crate::sign::stream::{
    end_file_step, feed_step, outcome, verdict, ExpectedFiles, StreamingVerifier, VerifierView,
};
use crate::sign::{MANIFEST_DIGEST_PATH, MANIFEST_PATH, SIGNATURE_PATH};
use crate::text::{lossy_text, owned, str_eq, utf8_lossy, utf8_to_string};
use crate::trim::{trim, trimmed};
use crate::types::digest::{blake3_256, hex_decoded, is_hex_of_len};
use crate::types::error::{fails, ArcaError, ErrorView, Res};
use crate::types::Digest;

verus! {

/// Most bytes that are read into memory before anything is verified.
pub const MEMORY_SINK_CAP: usize = 2097152;

spec fn files_view(files: Seq<(String, Vec<u8>)>) -> Seq<(Seq<char>, Seq<u8>)> {
    files.map_values(|f: (String, Vec<u8>)| (f.0@, f.1@))
}

/// Holds the few files of a package that are read first.
pub struct MemorySink {
    files: Vec<(String, Vec<u8>)>,
    total: usize,
}

impl View for MemorySink {
    type V = Map<Seq<char>, Seq<u8>>;

    closed spec fn view(&self) -> Map<Seq<char>, Seq<u8>> {
        as_map(files_view(self.files@))
    }
}

impl MemorySink {
    #[verifier::type_invariant]
    spec fn bounded(self) -> bool {
        unique_keys(files_view(self.files@)) && self.total <= MEMORY_SINK_CAP
    }

    /// Bytes that were written so far.
    pub closed spec fn total(&self) -> nat {
        self.total as nat
    }

    pub fn new() -> (r: MemorySink)
        ensures
            r@ == Map::<Seq<char>, Seq<u8>>::empty(),
            r.total() == 0,
    {
        let files: Vec<(String, Vec<u8>)> = Vec::new();
        proof {
            lemma_empty::<Seq<u8>>();
            assert(files_view(files@) =~= Seq::empty());
        }
        MemorySink { files, total: 0 }
    }

    fn position(&self, path: &str) -> (r: Option<usize>)
        ensures
            r matches Some(i) ==> i < self.files@.len() && files_view(self.files@)[i as int].0
                == path@,
            r is Some <==> has_key(files_view(self.files@), path@),
    {
        let mut i: usize = 0;
        while i < self.files.len()
            invariant
                i <= self.files@.len(),
                forall|k: int|
                    0 <= k < i ==> (#[trigger] files_view(self.files@)[k]).0 != path@,
            decreases self.files@.len() - i,
        {
            if str_eq(self.files[i].0.as_str(), path) {
                assert(files_view(self.files@)[i as int].0 == path@);
                return Some(i);
            }
            i += 1;
        }
        None
    }

    /// Takes in a file, unless that would be too much altogether.
    pub fn write_entry(&mut self, path: &str, data: Vec<u8>) -> (r: Res<u64>)
        ensures
            r is Ok <==> old(self).total() + data@.len() <= MEMORY_SINK_CAP,
            r matches Ok(n) ==> n == data@.len() && final(self)@ == old(self)@.insert(path@, data@)
                && final(self).total() == old(self).total() + data@.len(),
            r is Err ==> final(self)@ == old(self)@ && final(self).total() == old(self).total()
                && fails(r, ErrorView::InvalidPackage("pass1: archivos meta exceden 2 MiB"@)),
    {
        proof {
            use_type_invariant(&*self);
        }
        let n: usize = data.len();
        if n > MEMORY_SINK_CAP - self.total {
            return Err(ArcaError::InvalidPackage("pass1: archivos meta exceden 2 MiB"));
        }
        let at: Option<usize> = self.position(path);
        let total: usize = self.total + n;
        let ghost before = files_view(self.files@);
        let mut files: Vec<(String, Vec<u8>)> = Vec::new();
        assert(files_view(files@) =~= Seq::empty());
        proof {
            lemma_empty::<Seq<u8>>();
        }
        std::mem::swap(&mut files, &mut self.files);
        let ghost bytes = data@;
        match at {
            Some(i) => {
                proof {
                    lemma_update(before, i as int, bytes);
                }
                files[i] = (owned(path), data);
                assert(files_view(files@) =~= before.update(i as int, (path@, bytes)));
            },
            None => {
                proof {
                    lemma_push(before, path@, bytes);
                }
                files.push((owned(path), data));
                assert(files_view(files@) =~= before.push((path@, bytes)));
            },
        }
        self.files = files;
        self.total = total;
        Ok(n as u64)
    }

    /// The contents of a file, if it was taken in.
    pub fn get(&self, path: &str) -> (r: Option<&[u8]>)
        ensures
            r is Some <==> self@.dom().contains(path@),
            r matches Some(b) ==> b@ == self@[path@],
    {
        proof {
            use_type_invariant(&*self);
        }
        match self.position(path) {
            Some(i) => {
                proof {
                    lemma_at(files_view(self.files@), i as int);
                }
                Some(self.files[i].1.as_slice())
            },
            None => None,
        }
    }
}

/// What the files that are read first say.
pub struct Meta {
    pub manifest: Vec<u8>,
    pub sig: [u8; 64],
    /// blake3 of the manifest.
    pub manifest_sha: Digest,
}

/// What the files that are read first say, as bytes.
pub struct MetaView {
    pub manifest: Seq<u8>,
    pub sig: Seq<u8>,
    pub manifest_sha: Seq<u8>,
}

impl View for Meta {
    type V = MetaView;

    open spec fn view(&self) -> MetaView {
        MetaView {
            manifest: self.manifest@,
            sig: self.sig@,
            manifest_sha: self.manifest_sha@,
        }
    }
}

/// The control file of the manifest holds the manifest's digest, apart from
/// white space around it.
pub open spec fn control_matches(control: Seq<u8>, manifest: Seq<u8>) -> bool {
    let text = encode_utf8(trimmed(lossy_text(control)));
    is_hex_of_len(text, 32) && hex_decoded(text, 32) == blake3_256(manifest)
}

/// What the files that are read first say, or why the package is refused.
pub open spec fn meta_of(files: Map<Seq<char>, Seq<u8>>) -> Result<MetaView, ErrorView> {
    if !files.dom().contains(MANIFEST_PATH@) {
        Err(ErrorView::InvalidPackage("manifest.toml ausente"@))
    } else if !files.dom().contains(SIGNATURE_PATH@) {
        Err(ErrorView::InvalidPackage("meta/signature.bin ausente"@))
    } else {
        match envelope_parse(files[SIGNATURE_PATH@]) {
            Err(e) => Err(e),
            Ok(s) => if !files.dom().contains(MANIFEST_DIGEST_PATH@) {
                Err(ErrorView::InvalidPackage("meta/manifest.digest ausente"@))
            } else if !control_matches(files[MANIFEST_DIGEST_PATH@], files[MANIFEST_PATH@]) {
                Err(
                    ErrorView::InvalidPackage(
                        "meta/manifest.digest no coincide con el manifest"@,
                    ),
                )
            } else {
                Ok(
                    MetaView {
                        manifest: files[MANIFEST_PATH@],
                        sig: s.sig,
                        manifest_sha: blake3_256(files[MANIFEST_PATH@]),
                    },
                )
            },
        }
    }
}

fn to_vec(b: &[u8]) -> (r: Vec<u8>)
    ensures
        r@ == b@,
{
    let n: usize = b.len();
    let r: Vec<u8> = crate::bytes::copy_range(b, 0, n);
    assert(r@ =~= b@);
    r
}

/// Reads and checks the files that are read first.
pub fn read_meta(files: &MemorySink) -> (r: Res<Meta>)
    ensures
        match r {
            Ok(m) => meta_of(files@) == Ok::<MetaView, ErrorView>(m@),
            Err(e) => meta_of(files@) == Err::<MetaView, ErrorView>(e@),
        },
{
    let manifest: Vec<u8> = match files.get(MANIFEST_PATH) {
        Some(b) => to_vec(b),
        None => {
            return Err(ArcaError::InvalidPackage("manifest.toml ausente"));
        },
    };
    let sig: PackageSignature = match files.get(SIGNATURE_PATH) {
        Some(b) => match PackageSignature::parse(b) {
            Ok(s) => s,
            Err(e) => {
                return Err(e);
            },
        },
        None => {
            return Err(ArcaError::InvalidPackage("meta/signature.bin ausente"));
        },
    };
    let control: &[u8] = match files.get(MANIFEST_DIGEST_PATH) {
        Some(b) => b,
        None => {
            return Err(ArcaError::InvalidPackage("meta/manifest.digest ausente"));
        },
    };
    let text: String = trim(utf8_lossy(control).as_str());
    let manifest_sha: Digest = Digest::of(manifest.as_slice());
    let same: bool = match Digest::from_hex(text.as_str()) {
        Ok(d) => crate::bytes::bytes_eq(d.as_bytes(), manifest_sha.as_bytes()),
        Err(_) => false,
    };
    if !same {
        return Err(ArcaError::InvalidPackage("meta/manifest.digest no coincide con el manifest"));
    }
    Ok(Meta { manifest, sig: sig.sig, manifest_sha })
}

/// Why the control file of the manifest is refused, if it is.
pub open spec fn control_error(control: Seq<u8>, manifest_sha: Seq<u8>) -> Option<ErrorView> {
    let text = encode_utf8(trimmed(decode_utf8(control)));
    if !valid_utf8(control) {
        Some(ErrorView::InvalidPackage("installer: meta/manifest.digest no es UTF-8"@))
    } else if !is_hex_of_len(text, 32) {
        Some(ErrorView::Internal("Digest.from_hex: 64 hex chars esperadas"@))
    } else if hex_decoded(text, 32) != manifest_sha {
        Some(
            ErrorView::InvalidPackage(
                "installer: manifest.digest no coincide con el manifest"@,
            ),
        )
    } else {
        None
    }
}

/// Checks the control file of the manifest, and tells in which way it fails.
pub fn check_control(control: &[u8], manifest_sha: &Digest) -> (r: Res<()>)
    ensures
        r is Ok <==> control_error(control@, manifest_sha@) is None,
        r matches Err(e) ==> control_error(control@, manifest_sha@) == Some(e@),
{
    let text: String = match utf8_to_string(control) {
        Some(s) => trim(s.as_str()),
        None => {
            return Err(ArcaError::InvalidPackage("installer: meta/manifest.digest no es UTF-8"));
        },
    };
    match Digest::from_hex(text.as_str()) {
        Ok(d) => {
            if crate::bytes::bytes_eq(d.as_bytes(), manifest_sha.as_bytes()) {
                Ok(())
            } else {
                Err(
                    ArcaError::InvalidPackage(
                        "installer: manifest.digest no coincide con el manifest",
                    ),
                )
            }
        },
        Err(e) => Err(e),
    }
}

/// Refuses a package with an entry whose path leads outside.
pub fn precheck_paths(entries: &[EntryInfo]) -> (r: Res<()>)
    ensures
        r is Ok <==> forall|i: int|
            0 <= i < entries@.len() ==> (#[trigger] entries@[i]).safe_path is Some,
        r is Err ==> fails(
            r,
            ErrorView::InvalidPackage("installer: path de entrada rechazado por el sandbox"@),
        ),
{
    let mut i: usize = 0;
    while i < entries.len()
        invariant
            i <= entries@.len(),
            forall|k: int| 0 <= k < i ==> (#[trigger] entries@[k]).safe_path is Some,
        decreases entries@.len() - i,
    {
        if entries[i].safe_path.is_none() {
            return Err(
                ArcaError::InvalidPackage("installer: path de entrada rechazado por el sandbox"),
            );
        }
        i += 1;
    }
    Ok(())
}

/// An entry of a listing, with its path as a character sequence.
pub open spec fn listing_view(list: Seq<ArchiveEntry>) -> Seq<(Seq<char>, EntryKind)> {
    list.map_values(|e: ArchiveEntry| (e.path@, e.kind))
}

/// What an entry of an archive is: what is no directory is a file.
pub open spec fn kind_of(e: EntryInfo) -> EntryKind {
    if e.is_dir {
        EntryKind::Dir
    } else {
        EntryKind::File
    }
}

/// The listing of an archive.
pub open spec fn listing_of(entries: Seq<EntryInfo>) -> Seq<(Seq<char>, EntryKind)> {
    Seq::new(entries.len(), |i: int| (entries[i].path@, kind_of(entries[i])))
}

/// The listing of an archive.
pub fn to_listing(entries: &[EntryInfo]) -> (r: Vec<ArchiveEntry>)
    ensures
        listing_view(r@) == listing_of(entries@),
{
    let mut out: Vec<ArchiveEntry> = Vec::new();
    let mut i: usize = 0;
    assert(listing_view(out@) =~= listing_of(entries@.take(0)));
    while i < entries.len()
        invariant
            i <= entries@.len(),
            listing_view(out@) == listing_of(entries@.take(i as int)),
        decreases entries@.len() - i,
    {
        let ghost before = out@;
        let kind: EntryKind = if entries[i].is_dir {
            EntryKind::Dir
        } else {
            EntryKind::File
        };
        let e: ArchiveEntry = ArchiveEntry { path: owned(entries[i].path.as_str()), kind };
        let ghost x = (e.path@, e.kind);
        out.push(e);
        assert(listing_view(out@) =~= listing_view(before).push(x));
        assert(listing_of(entries@.take(i + 1)) =~= listing_of(entries@.take(i as int)).push(x));
        i += 1;
    }
    assert(entries@.take(i as int) =~= entries@);
    out
}

/// Whether a listing has a file with the path.
pub fn has_file(list: &Vec<ArchiveEntry>, path: &str) -> (r: bool)
    ensures
        r == listing_view(list@).contains((path@, EntryKind::File)),
{
    let mut i: usize = 0;
    while i < list.len()
        invariant
            i <= list@.len(),
            forall|k: int|
                0 <= k < i ==> listing_view(list@)[k] != (path@, EntryKind::File),
        decreases list@.len() - i,
    {
        if list[i].kind == EntryKind::File && str_eq(list[i].path.as_str(), path) {
            assert(listing_view(list@)[i as int] == (path@, EntryKind::File));
            return true;
        }
        i += 1;
    }
    false
}

/// The path is one of the three that are read first.
pub open spec fn read_first(path: Seq<char>) -> bool {
    path == MANIFEST_PATH@ || path == SIGNATURE_PATH@ || path == MANIFEST_DIGEST_PATH@
}

/// The paths that are extracted after the first ones: the files with safe
/// paths.
pub open spec fn wanted_paths(entries: Seq<EntryInfo>) -> Seq<Seq<char>>
    decreases entries.len(),
{
    if entries.len() == 0 {
        Seq::empty()
    } else {
        let rest = wanted_paths(entries.drop_last());
        let e = entries.last();
        match e.safe_path {
            Some(p) => if !e.is_dir && !read_first(p@) {
                rest.push(p@)
            } else {
                rest
            },
            None => rest,
        }
    }
}

/// The paths that are extracted after the first ones.
pub fn paths_to_extract(entries: &[EntryInfo]) -> (r: Vec<String>)
    ensures
        r@.map_values(|s: String| s@) == wanted_paths(entries@),
{
    let mut out: Vec<String> = Vec::new();
    let mut i: usize = 0;
    assert(out@.map_values(|s: String| s@) =~= wanted_paths(entries@.take(0)));
    while i < entries.len()
        invariant
            i <= entries@.len(),
            out@.map_values(|s: String| s@) == wanted_paths(entries@.take(i as int)),
        decreases entries@.len() - i,
    {
        let ghost before = out@;
        assert(entries@.take(i + 1).drop_last() =~= entries@.take(i as int));
        match &entries[i].safe_path {
            Some(p) => {
                let path: &str = p.as_str();
                if !entries[i].is_dir && !(str_eq(path, MANIFEST_PATH) || str_eq(
                    path,
                    SIGNATURE_PATH,
                ) || str_eq(path, MANIFEST_DIGEST_PATH)) {
                    out.push(owned(path));
                    assert(out@.map_values(|s: String| s@) =~= before.map_values(
                        |s: String| s@,
                    ).push(path@));
                }
            },
            None => {},
        }
        i += 1;
    }
    assert(entries@.take(i as int) =~= entries@);
    out
}

/// The paths of a complete extraction: every entry with a safe path, be it a
/// file or a directory.
pub open spec fn every_path(entries: Seq<EntryInfo>) -> Seq<Seq<char>>
    decreases entries.len(),
{
    if entries.len() == 0 {
        Seq::empty()
    } else {
        let rest = every_path(entries.drop_last());
        match entries.last().safe_path {
            Some(p) => rest.push(p@),
            None => rest,
        }
    }
}

/// The paths of a complete extraction.
pub fn all_paths(entries: &[EntryInfo]) -> (r: Vec<String>)
    ensures
        r@.map_values(|s: String| s@) == every_path(entries@),
{
    let mut out: Vec<String> = Vec::new();
    let mut i: usize = 0;
    assert(out@.map_values(|s: String| s@) =~= every_path(entries@.take(0)));
    while i < entries.len()
        invariant
            i <= entries@.len(),
            out@.map_values(|s: String| s@) == every_path(entries@.take(i as int)),
        decreases entries@.len() - i,
    {
        let ghost before = out@;
        assert(entries@.take(i + 1).drop_last() =~= entries@.take(i as int));
        match &entries[i].safe_path {
            Some(p) => {
                out.push(owned(p.as_str()));
                assert(out@.map_values(|s: String| s@) =~= before.map_values(|s: String| s@).push(
                    p@,
                ));
            },
            None => {},
        }
        i += 1;
    }
    assert(entries@.take(i as int) =~= entries@);
    out
}

/// An archive none of whose entries leads outside is extracted whole: each
/// entry, in order.
pub proof fn law_safe_archive_is_extracted_whole(entries: Seq<EntryInfo>)
    requires
        forall|i: int| 0 <= i < entries.len() ==> (#[trigger] entries[i]).safe_path is Some,
    ensures
        every_path(entries) == Seq::new(entries.len(), |i: int| entries[i].safe_path->0@),
    decreases entries.len(),
{
    let all = Seq::new(entries.len(), |i: int| entries[i].safe_path->0@);
    if entries.len() == 0 {
        assert(every_path(entries) =~= all);
    } else {
        let rest = entries.drop_last();
        assert forall|i: int| 0 <= i < rest.len() implies (#[trigger] rest[i]).safe_path is Some by {
            assert(rest[i] == entries[i]);
        }
        law_safe_archive_is_extracted_whole(rest);
        assert(entries[entries.len() - 1].safe_path is Some);
        assert(every_path(entries) =~= all);
    }
}

/// Which files an extraction wants: every file of the archive that has a safe
/// path and is none of the three that are read first, and nothing else. Their
/// paths stand in the order of the archive.
pub proof fn law_the_rest_is_wanted_whole(entries: Seq<EntryInfo>)
    ensures
        is_selection(
            wanted_paths(entries),
            entries,
            |e: EntryInfo|
                !e.is_dir && e.safe_path is Some && e.safe_path->0@ != "manifest.toml"@
                    && e.safe_path->0@ != "meta/signature.bin"@ && e.safe_path->0@
                    != "meta/manifest.digest"@,
            |e: EntryInfo| e.safe_path->0@,
        ),
    decreases entries.len(),
{
    let good = |e: EntryInfo|
        !e.is_dir && e.safe_path is Some && e.safe_path->0@ != "manifest.toml"@
            && e.safe_path->0@ != "meta/signature.bin"@ && e.safe_path->0@
            != "meta/manifest.digest"@;
    let make = |e: EntryInfo| e.safe_path->0@;
    if entries.len() == 0 {
        lemma_select_none(wanted_paths(entries), entries, good, make);
    } else {
        law_the_rest_is_wanted_whole(entries.drop_last());
        lemma_select_step(wanted_paths(entries.drop_last()), entries, good, make);
    }
}

/// A path is wanted exactly if some file of the archive has it as its safe
/// path, unless it is one of the three that are read first.
pub proof fn law_wanted_by_membership(entries: Seq<EntryInfo>, path: Seq<char>)
    ensures
        wanted_paths(entries).contains(path) <==> (path != "manifest.toml"@ && path
            != "meta/signature.bin"@ && path != "meta/manifest.digest"@ && exists|i: int|
            0 <= i < entries.len() && !(#[trigger] entries[i]).is_dir
                && entries[i].safe_path is Some && entries[i].safe_path->0@ == path),
{
    law_the_rest_is_wanted_whole(entries);
    let good = |e: EntryInfo|
        !e.is_dir && e.safe_path is Some && e.safe_path->0@ != "manifest.toml"@
            && e.safe_path->0@ != "meta/signature.bin"@ && e.safe_path->0@
            != "meta/manifest.digest"@;
    lemma_selection_members(wanted_paths(entries), entries, good, |e: EntryInfo| e.safe_path->0@);
    if exists|i: int|
        0 <= i < entries.len() && !(#[trigger] entries[i]).is_dir && entries[i].safe_path is Some
            && entries[i].safe_path->0@ == path {
        let i = choose|i: int|
            0 <= i < entries.len() && !(#[trigger] entries[i]).is_dir
                && entries[i].safe_path is Some && entries[i].safe_path->0@ == path;
        if path != "manifest.toml"@ && path != "meta/signature.bin"@ && path
            != "meta/manifest.digest"@ {
            assert(good(entries[i]));
        }
    }
}

/// A complete extraction takes every entry that has a safe path, and nothing
/// else, in the order of the archive.
pub proof fn law_every_safe_entry_is_extracted(entries: Seq<EntryInfo>)
    ensures
        is_selection(
            every_path(entries),
            entries,
            |e: EntryInfo| e.safe_path is Some,
            |e: EntryInfo| e.safe_path->0@,
        ),
    decreases entries.len(),
{
    let good = |e: EntryInfo| e.safe_path is Some;
    let make = |e: EntryInfo| e.safe_path->0@;
    if entries.len() == 0 {
        lemma_select_none(every_path(entries), entries, good, make);
    } else {
        law_every_safe_entry_is_extracted(entries.drop_last());
        lemma_select_step(every_path(entries.drop_last()), entries, good, make);
    }
}

/// The declared files and their hashes. A path that is declared twice has the
/// hash that was declared last.
pub open spec fn declared(artifacts: Seq<Artifact>) -> Map<Seq<char>, Seq<u8>>
    decreases artifacts.len(),
{
    if artifacts.len() == 0 {
        Map::empty()
    } else {
        declared(artifacts.drop_last()).insert(artifacts.last().path@, artifacts.last().sha256@)
    }
}

fn expected_files(artifacts: &Vec<Artifact>) -> (r: ExpectedFiles)
    ensures
        as_map(r@) == declared(artifacts@),
{
    let mut out: ExpectedFiles = ExpectedFiles::new();
    let mut i: usize = 0;
    proof {
        lemma_empty::<Seq<u8>>();
    }
    assert(as_map(out@) == declared(artifacts@.take(0)));
    while i < artifacts.len()
        invariant
            i <= artifacts@.len(),
            as_map(out@) == declared(artifacts@.take(i as int)),
        decreases artifacts@.len() - i,
    {
        assert(artifacts@.take(i + 1).drop_last() =~= artifacts@.take(i as int));
        out.insert(artifacts[i].path.as_str(), artifacts[i].sha256);
        i += 1;
    }
    assert(artifacts@.take(i as int) =~= artifacts@);
    out
}

proof fn lemma_declared_paths(artifacts: Seq<Artifact>, path: Seq<char>)
    ensures
        declared(artifacts).dom().contains(path) <==> exists|i: int|
            0 <= i < artifacts.len() && (#[trigger] artifacts[i]).path@ == path,
    decreases artifacts.len(),
{
    if artifacts.len() > 0 {
        let rest = artifacts.drop_last();
        lemma_declared_paths(rest, path);
        if exists|i: int| 0 <= i < rest.len() && (#[trigger] rest[i]).path@ == path {
            let i = choose|i: int| 0 <= i < rest.len() && (#[trigger] rest[i]).path@ == path;
            assert(artifacts[i].path@ == path);
        }
        if artifacts.last().path@ == path {
            assert(artifacts[artifacts.len() - 1].path@ == path);
        }
        if exists|i: int| 0 <= i < artifacts.len() && (#[trigger] artifacts[i]).path@ == path {
            let i = choose|i: int|
                0 <= i < artifacts.len() && (#[trigger] artifacts[i]).path@ == path;
            if i < rest.len() {
                assert(rest[i].path@ == path);
            }
        }
    }
}

/// The verification that runs while a package is extracted.
pub struct Preparation {
    verifier: StreamingVerifier,
    manifest: Vec<u8>,
    artifacts: Vec<Artifact>,
}

/// A package that was verified whole. There is no other way to get one.
pub struct Verified {
    seen: Ghost<VerifierView>,
}

impl Verified {
    /// What the verification saw.
    pub closed spec fn seen(&self) -> VerifierView {
        self.seen@
    }

    #[verifier::type_invariant]
    spec fn genuine(self) -> bool {
        self.seen@.consistent() && verdict(self.seen@) is Ok
    }

    /// What every verified package is.
    pub(crate) fn rely(&self)
        ensures
            self.seen().consistent(),
            verdict(self.seen()) is Ok,
    {
        proof {
            use_type_invariant(&*self);
        }
    }
}

impl Preparation {
    /// What the verification has seen so far.
    pub closed spec fn seen(&self) -> VerifierView {
        self.verifier@
    }

    /// The manifest of the package.
    pub closed spec fn manifest(&self) -> Seq<u8> {
        self.manifest@
    }

    /// The files that the manifest declares.
    pub closed spec fn artifacts(&self) -> Seq<Artifact> {
        self.artifacts@
    }

    /// The verification is in a state that it can reach.
    pub closed spec fn wf(&self) -> bool {
        self.verifier.wf() && as_map(self.verifier@.expected) == declared(self.artifacts@)
    }

    /// Starts the verification of a package.
    pub fn new(artifacts: Vec<Artifact>, meta: Meta, ring: &RingOfTrust) -> (r: Preparation)
        ensures
            r.wf(),
            as_map(r.seen().expected) == declared(artifacts@),
            r.seen() == (VerifierView {
                expected: r.seen().expected,
                open: Map::empty(),
                done: Map::empty(),
                manifest: Seq::empty(),
                manifest_fed: false,
                manifest_closed: false,
                manifest_sha: meta@.manifest_sha,
                keys: ring@,
                sig: meta@.sig,
            }),
            r.manifest() == meta@.manifest,
            r.artifacts() == artifacts@,
    {
        let expected: ExpectedFiles = expected_files(&artifacts);
        let verifier: StreamingVerifier = StreamingVerifier::new(
            &expected,
            meta.manifest_sha.0,
            ring,
            meta.sig,
        );
        Preparation { verifier, manifest: meta.manifest, artifacts }
    }

    /// Whether the manifest declares the file.
    pub fn declares(&self, path: &str) -> (r: bool)
        ensures
            r == declared(self.artifacts()).dom().contains(path@),
    {
        proof {
            lemma_declared_paths(self.artifacts@, path@);
        }
        let mut i: usize = 0;
        while i < self.artifacts.len()
            invariant
                i <= self.artifacts@.len(),
                forall|k: int| 0 <= k < i ==> (#[trigger] self.artifacts@[k]).path@ != path@,
            decreases self.artifacts@.len() - i,
        {
            if str_eq(self.artifacts[i].path.as_str(), path) {
                proof {
                    lemma_declared_paths(self.artifacts@, path@);
                }
                return true;
            }
            i += 1;
        }
        false
    }

    /// A piece of a file was extracted. Files that the manifest does not
    /// declare are not verified.
    pub fn write(&mut self, path: &str, chunk: &[u8]) -> (r: Res<()>)
        requires
            old(self).wf(),
        ensures
            final(self).wf(),
            final(self).manifest() == old(self).manifest(),
            final(self).artifacts() == old(self).artifacts(),
            (final(self).seen(), outcome(r)) == (if declared(
                old(self).artifacts(),
            ).dom().contains(path@) {
                feed_step(old(self).seen(), path@, chunk@)
            } else {
                (old(self).seen(), Ok(()))
            }),
    {
        if self.declares(path) {
            self.verifier.feed(path, chunk)
        } else {
            Ok(())
        }
    }

    /// A file was extracted to its end.
    pub fn end_file(&mut self, path: &str) -> (r: Res<()>)
        requires
            old(self).wf(),
        ensures
            final(self).wf(),
            final(self).manifest() == old(self).manifest(),
            final(self).artifacts() == old(self).artifacts(),
            (final(self).seen(), outcome(r)) == (if declared(
                old(self).artifacts(),
            ).dom().contains(path@) {
                end_file_step(old(self).seen(), path@)
            } else {
                (old(self).seen(), Ok(()))
            }),
    {
        if self.declares(path) {
            self.verifier.end_file(path)
        } else {
            Ok(())
        }
    }

    /// Everything was extracted: takes in the manifest and decides.
    pub fn finish(self) -> (r: Res<Verified>)
        requires
            self.wf(),
        ensures
            ({
                let (last, fed) = feed_step(self.seen(), MANIFEST_PATH@, self.manifest());
                match fed {
                    Err(e) => fails(r, e),
                    Ok(_) => match verdict(last) {
                        Err(e) => fails(r, e),
                        Ok(_) => r matches Ok(v) && v.seen() == last,
                    },
                }
            }),
    {
        let mut verifier: StreamingVerifier = self.verifier;
        match verifier.feed(MANIFEST_PATH, self.manifest.as_slice()) {
            Ok(()) => {},
            Err(e) => {
                return Err(e);
            },
        }
        let ghost last = verifier@;
        proof {
            verifier.lemma_wf();
        }
        match verifier.finish() {
            Ok(()) => Ok(Verified { seen: Ghost(last) }),
            Err(e) => Err(e),
        }
    }
}

/// Each declared file was looked for, and is there.
pub open spec fn all_there(artifacts: Seq<Artifact>, present: Seq<bool>) -> bool {
    present.len() == artifacts.len() && forall|i: int| 0 <= i < present.len() ==> present[i]
}

/// After the verification: every declared file has to be there. `present` tells
/// it of each.
pub fn check_present(artifacts: &Vec<Artifact>, present: &Vec<bool>) -> (r: Res<()>)
    ensures
        r is Ok <==> all_there(artifacts@, present@),
        r is Err ==> fails(
            r,
            ErrorView::InvalidPackage("post-verify: artefacto declarado ausente"@),
        ),
{
    if present.len() != artifacts.len() {
        return Err(ArcaError::InvalidPackage("post-verify: artefacto declarado ausente"));
    }
    let mut i: usize = 0;
    while i < present.len()
        invariant
            i <= present@.len(),
            present@.len() == artifacts@.len(),
            forall|k: int| 0 <= k < i ==> present@[k],
        decreases present@.len() - i,
    {
        if !present[i] {
            return Err(ArcaError::InvalidPackage("post-verify: artefacto declarado ausente"));
        }
        i += 1;
    }
    Ok(())
}

} // verus!
