//! An installation, stage by stage.
//!
//! Each stage is a value of its own type, and only the stage before gives it:
//! an archive is listed, its metadata is read and checked, its files are
//! extracted and verified, and only a verified package can be made active: a
//! [`Prepared`] one by a link, a [`Checked`] one by renaming. What the outside
//! world has to do in between is told by the results; what it found out comes
//! in as arguments.
use vstd::prelude::*;

use crate::assoc::as_map;
use crate::installer::linked;
use crate::installer::opts::{InstallOutcome, OutcomeView};
use crate::installer::package::{
    all_paths, all_there, check_control, check_present, control_error, declared, every_path,
    listing_of, listing_view, meta_of, paths_to_extract, precheck_paths, read_meta, to_listing, wanted_paths, MemorySink,
    Meta, MetaView, Preparation, Verified,
};
use crate::installer::staged::{self, check_policy, commit_steps, opt_text, policy_error};
use crate::installer::tree::{steps_view, version_dir, version_dir_name, FsStep};
use crate::pkg::{semver_ok, ArchiveEntry, Artifact, EntryInfo, Manifest, Version};
use crate::sign::ring::RingOfTrust;
use crate::sign::sig::{envelope_parse, PackageSignature};
use crate::sign::stream::{end_file_step, feed_step, outcome, verdict, VerifierView};
use crate::sign::{MANIFEST_DIGEST_PATH, MANIFEST_PATH, SIGNATURE_PATH};
use crate::text::owned;
use crate::types::digest::blake3_256;
use crate::types::error::{fails, ArcaError, ErrorView, Res};
use crate::types::{AppId, Digest};

verus! {

/// The archive was opened and listed.
pub struct Listing {
    entries: Vec<EntryInfo>,
}

/// The manifest was read; the signature was not looked at yet.
pub struct Proposed {
    entries: Vec<EntryInfo>,
    manifest: Vec<u8>,
}

/// The metadata was read, and agrees with itself.
pub struct Announced {
    entries: Vec<EntryInfo>,
    meta: Meta,
}

/// The files are being extracted.
pub struct Extraction {
    prep: Preparation,
    manifest: Manifest,
    paths: Vec<String>,
}

/// Everything was extracted and verified: a package that can be made active
/// by renaming.
pub struct Checked {
    verified: Verified,
    manifest: Manifest,
}

/// A verified package whose declared files are all there: it can be made active
/// by a link.
pub struct Prepared {
    verified: Verified,
    manifest: Manifest,
}

/// The files of a version are in their place; the registry does not know yet.
pub struct Moved {
    manifest: Manifest,
    old: Option<Version>,
    staging: String,
}

/// What the metadata says of a manifest that was read, or why the package is
/// refused, where each way in which the control file fails has its own error.
pub open spec fn strict_meta(manifest: Seq<u8>, files: Map<Seq<char>, Seq<u8>>) -> Result<
    MetaView,
    ErrorView,
> {
    if !files.dom().contains(SIGNATURE_PATH@) {
        Err(ErrorView::InvalidPackage("meta/signature.bin ausente"@))
    } else {
        match envelope_parse(files[SIGNATURE_PATH@]) {
            Err(e) => Err(e),
            Ok(s) => if !files.dom().contains(MANIFEST_DIGEST_PATH@) {
                Err(ErrorView::InvalidPackage("meta/manifest.digest ausente"@))
            } else {
                match control_error(files[MANIFEST_DIGEST_PATH@], blake3_256(manifest)) {
                    Some(e) => Err(e),
                    None => Ok(
                        MetaView { manifest, sig: s.sig, manifest_sha: blake3_256(manifest) },
                    ),
                }
            },
        }
    }
}

impl Listing {
    pub closed spec fn entries(&self) -> Seq<EntryInfo> {
        self.entries@
    }

    pub fn new(entries: Vec<EntryInfo>) -> (r: Listing)
        ensures
            r.entries() == entries@,
    {
        Listing { entries }
    }

    /// Refuses an archive with an entry whose path leads outside.
    pub fn precheck(&self) -> (r: Res<()>)
        ensures
            r is Ok <==> forall|i: int|
                0 <= i < self.entries().len() ==> (#[trigger] self.entries()[i]).safe_path is Some,
            r is Err ==> fails(
                r,
                ErrorView::InvalidPackage("installer: path de entrada rechazado por el sandbox"@),
            ),
    {
        let entries: &[EntryInfo] = self.entries.as_slice();
        assert(entries@ == self.entries());
        precheck_paths(entries)
    }

    /// The listing that the layout is checked against.
    pub fn layout(&self) -> (r: Vec<ArchiveEntry>)
        ensures
            listing_view(r@) == listing_of(self.entries()),
    {
        to_listing(self.entries.as_slice())
    }

    /// The metadata was read.
    pub fn announce(self, files: &MemorySink) -> (r: Res<Announced>)
        ensures
            match r {
                Ok(a) => meta_of(files@) == Ok::<MetaView, ErrorView>(a.meta()) && a.entries()
                    == self.entries(),
                Err(e) => meta_of(files@) == Err::<MetaView, ErrorView>(e@),
            },
    {
        match read_meta(files) {
            Ok(meta) => Ok(Announced { entries: self.entries, meta }),
            Err(e) => Err(e),
        }
    }

    /// The manifest was read: it is parsed, and the layout is held against it,
    /// before anything else of the metadata is looked at.
    pub fn propose(self, files: &MemorySink) -> (r: Res<Proposed>)
        ensures
            r is Ok <==> files@.dom().contains(MANIFEST_PATH@),
            r matches Ok(p) ==> p.manifest() == files@[MANIFEST_PATH@] && p.entries()
                == self.entries(),
            r is Err ==> fails(r, ErrorView::InvalidPackage("manifest.toml ausente"@)),
    {
        match files.get(MANIFEST_PATH) {
            Some(b) => {
                let n: usize = b.len();
                let manifest: Vec<u8> = crate::bytes::copy_range(b, 0, n);
                assert(manifest@ =~= b@);
                Ok(Proposed { entries: self.entries, manifest })
            },
            None => Err(ArcaError::InvalidPackage("manifest.toml ausente")),
        }
    }
}

impl Proposed {
    pub closed spec fn entries(&self) -> Seq<EntryInfo> {
        self.entries@
    }

    pub closed spec fn manifest(&self) -> Seq<u8> {
        self.manifest@
    }

    /// The manifest, to be parsed.
    pub fn manifest_bytes(&self) -> (r: &[u8])
        ensures
            r@ == self.manifest(),
    {
        self.manifest.as_slice()
    }

    /// The manifest was parsed, and the layout agrees with it: looks at the
    /// rest of the metadata. Each way in which it fails has its own error.
    pub fn announce_strict(self, files: &MemorySink) -> (r: Res<Announced>)
        ensures
            match r {
                Ok(a) => strict_meta(self.manifest(), files@) == Ok::<MetaView, ErrorView>(a.meta())
                    && a.entries() == self.entries(),
                Err(e) => strict_meta(self.manifest(), files@) == Err::<MetaView, ErrorView>(e@),
            },
    {
        let sig: PackageSignature = match files.get(SIGNATURE_PATH) {
            Some(b) => match PackageSignature::parse(b) {
                Ok(s) => s,
                Err(e) => {
                    return Err(e);
                },
            },
            None => {
                return Err(ArcaError::InvalidPackage("meta/signature.bin ausente"));
            },
        };
        let manifest_sha: Digest = Digest::of(self.manifest.as_slice());
        match files.get(MANIFEST_DIGEST_PATH) {
            Some(control) => match check_control(control, &manifest_sha) {
                Ok(()) => Ok(
                    Announced {
                        entries: self.entries,
                        meta: Meta { manifest: self.manifest, sig: sig.sig, manifest_sha },
                    },
                ),
                Err(e) => Err(e),
            },
            None => Err(ArcaError::InvalidPackage("meta/manifest.digest ausente")),
        }
    }
}

/// What a verification starts from.
pub open spec fn fresh(v: VerifierView, artifacts: Seq<Artifact>, meta: MetaView, keys: Seq<Seq<u8>>) -> bool {
    &&& as_map(v.expected) == declared(artifacts)
    &&& v == (VerifierView {
        expected: v.expected,
        open: Map::empty(),
        done: Map::empty(),
        manifest: Seq::empty(),
        manifest_fed: false,
        manifest_closed: false,
        manifest_sha: meta.manifest_sha,
        keys,
        sig: meta.sig,
    })
}

fn copy_artifacts(list: &Vec<Artifact>) -> (r: Vec<Artifact>)
    ensures
        declared(r@) == declared(list@),
{
    let mut out: Vec<Artifact> = Vec::new();
    let mut i: usize = 0;
    assert(declared(out@) == declared(list@.take(0)));
    while i < list.len()
        invariant
            i <= list@.len(),
            declared(out@) == declared(list@.take(i as int)),
        decreases list@.len() - i,
    {
        let ghost before = out@;
        let a: &Artifact = &list[i];
        let aot_path: Option<String> = match &a.aot_path {
            Some(p) => Some(owned(p.as_str())),
            None => None,
        };
        let copy: Artifact = Artifact { path: owned(a.path.as_str()), sha256: a.sha256, aot_path };
        out.push(copy);
        assert(out@.drop_last() =~= before);
        assert(list@.take(i + 1).drop_last() =~= list@.take(i as int));
        i += 1;
    }
    assert(list@.take(i as int) =~= list@);
    out
}

impl Announced {
    pub closed spec fn entries(&self) -> Seq<EntryInfo> {
        self.entries@
    }

    pub closed spec fn meta(&self) -> MetaView {
        self.meta@
    }

    /// The manifest, to be parsed.
    pub fn manifest_bytes(&self) -> (r: &[u8])
        ensures
            r@ == self.meta().manifest,
    {
        self.meta.manifest.as_slice()
    }

    /// The manifest was parsed, and the layout agrees with it: the extraction
    /// of what was not read yet can begin.
    pub fn begin(self, manifest: Manifest, ring: &RingOfTrust) -> (r: Extraction)
        ensures
            r.wf(),
            fresh(r.seen(), manifest.artifacts@, self.meta(), ring@),
            r.manifest_bytes() == self.meta().manifest,
            r.declared_files() == declared(manifest.artifacts@),
            r.manifest() == manifest,
            r.paths() == wanted_paths(self.entries()),
    {
        let paths: Vec<String> = paths_to_extract(self.entries.as_slice());
        self.start(manifest, ring, paths)
    }

    fn start(self, manifest: Manifest, ring: &RingOfTrust, paths: Vec<String>) -> (r: Extraction)
        ensures
            r.wf(),
            fresh(r.seen(), manifest.artifacts@, self.meta(), ring@),
            r.manifest_bytes() == self.meta().manifest,
            r.declared_files() == declared(manifest.artifacts@),
            r.manifest() == manifest,
            r.paths() == paths@.map_values(|s: String| s@),
    {
        let prep: Preparation = Preparation::new(copy_artifacts(&manifest.artifacts), self.meta, ring);
        Extraction { prep, manifest, paths }
    }

    /// The manifest was parsed, and the layout agrees with it: the complete
    /// extraction can begin, unless the version may not be installed over the
    /// registered one.
    pub fn begin_allowed(
        self,
        manifest: Manifest,
        ring: &RingOfTrust,
        registered: &Option<String>,
        allow_downgrade: bool,
    ) -> (r: Res<Extraction>)
        ensures
            ({
                let e = policy_error(opt_text(*registered), manifest.version@, allow_downgrade);
                &&& r is Ok <==> e is None
                &&& r matches Err(x) ==> e == Some(x@)
            }),
            r matches Ok(x) ==> x.wf() && fresh(
                x.seen(),
                manifest.artifacts@,
                self.meta(),
                ring@,
            ) && x.manifest_bytes() == self.meta().manifest && x.declared_files() == declared(
                manifest.artifacts@,
            ) && x.manifest() == manifest && x.paths() == every_path(self.entries()),
    {
        match check_policy(registered, &manifest.version, allow_downgrade) {
            Ok(()) => {
                let paths: Vec<String> = all_paths(self.entries.as_slice());
                Ok(self.start(manifest, ring, paths))
            },
            Err(e) => Err(e),
        }
    }
}

impl Extraction {
    pub closed spec fn wf(&self) -> bool {
        self.prep.wf()
    }

    /// What the verification has seen so far.
    pub closed spec fn seen(&self) -> VerifierView {
        self.prep.seen()
    }

    pub closed spec fn manifest_bytes(&self) -> Seq<u8> {
        self.prep.manifest()
    }

    pub closed spec fn declared_files(&self) -> Map<Seq<char>, Seq<u8>> {
        declared(self.prep.artifacts())
    }

    pub closed spec fn manifest(&self) -> Manifest {
        self.manifest
    }

    pub closed spec fn paths(&self) -> Seq<Seq<char>> {
        self.paths@.map_values(|s: String| s@)
    }

    /// What is to be extracted.
    pub fn wanted(&self) -> (r: &Vec<String>)
        ensures
            r@.map_values(|s: String| s@) == self.paths(),
    {
        &self.paths
    }

    /// A piece of a file was extracted.
    pub fn write(&mut self, path: &str, chunk: &[u8]) -> (r: Res<()>)
        requires
            old(self).wf(),
        ensures
            final(self).wf(),
            final(self).manifest() == old(self).manifest(),
            final(self).manifest_bytes() == old(self).manifest_bytes(),
            final(self).declared_files() == old(self).declared_files(),
            final(self).paths() == old(self).paths(),
            (final(self).seen(), outcome(r)) == (if old(self).declared_files().dom().contains(
                path@,
            ) {
                feed_step(old(self).seen(), path@, chunk@)
            } else {
                (old(self).seen(), Ok(()))
            }),
    {
        self.prep.write(path, chunk)
    }

    /// A file was extracted to its end.
    pub fn end_file(&mut self, path: &str) -> (r: Res<()>)
        requires
            old(self).wf(),
        ensures
            final(self).wf(),
            final(self).manifest() == old(self).manifest(),
            final(self).manifest_bytes() == old(self).manifest_bytes(),
            final(self).declared_files() == old(self).declared_files(),
            final(self).paths() == old(self).paths(),
            (final(self).seen(), outcome(r)) == (if old(self).declared_files().dom().contains(
                path@,
            ) {
                end_file_step(old(self).seen(), path@)
            } else {
                (old(self).seen(), Ok(()))
            }),
    {
        self.prep.end_file(path)
    }

    /// Everything was extracted: decides on the package.
    pub fn finish(self) -> (r: Res<Checked>)
        requires
            self.wf(),
        ensures
            ({
                let (last, fed) = feed_step(self.seen(), MANIFEST_PATH@, self.manifest_bytes());
                match fed {
                    Err(e) => fails(r, e),
                    Ok(_) => match verdict(last) {
                        Err(e) => fails(r, e),
                        Ok(_) => r matches Ok(c) && c.seen() == last && last.consistent()
                            && c.manifest() == self.manifest(),
                    },
                }
            }),
    {
        match self.prep.finish() {
            Ok(verified) => {
                verified.rely();
                Ok(Checked { verified, manifest: self.manifest })
            },
            Err(e) => Err(e),
        }
    }
}

impl Checked {
    /// What the verification saw.
    pub closed spec fn seen(&self) -> VerifierView {
        self.verified.seen()
    }

    pub closed spec fn manifest(&self) -> Manifest {
        self.manifest
    }

    /// The files that have to be there.
    pub fn artifacts(&self) -> (r: &Vec<Artifact>)
        ensures
            r@ == self.manifest().artifacts@,
    {
        &self.manifest.artifacts
    }

    /// It was looked, for each declared file, whether it is there.
    pub fn present(self, there: &Vec<bool>) -> (r: Res<Prepared>)
        ensures
            r is Ok <==> all_there(self.manifest().artifacts@, there@),
            r matches Ok(p) ==> p.seen() == self.seen() && p.seen().consistent() && verdict(
                p.seen(),
            ) is Ok && p.manifest() == self.manifest(),
            r is Err ==> fails(
                r,
                ErrorView::InvalidPackage("post-verify: artefacto declarado ausente"@),
            ),
    {
        self.verified.rely();
        match check_present(&self.manifest.artifacts, there) {
            Ok(()) => Ok(Prepared { verified: self.verified, manifest: self.manifest }),
            Err(e) => Err(e),
        }
    }

    /// The changes that make the version active by renaming. `active_there`
    /// tells whether the directory of the registered version is there.
    pub fn rename(self, staging: &str, registered: &Option<Version>, active_there: bool) -> (r: (
        Moved,
        Vec<FsStep>,
    ))
        ensures
            self.seen().consistent(),
            verdict(self.seen()) is Ok,
            ({
                let old = linked::opt_version(*registered);
                &&& r.0.before() == old
                &&& r.0.manifest() == self.manifest()
                &&& r.0.staging() == staging@
                &&& steps_view(r.1@) == commit_steps(
                    staging@,
                    version_dir(self.manifest().version@),
                    match old {
                        Some(o) => if active_there {
                            Some(version_dir(o))
                        } else {
                            None
                        },
                        None => None,
                    },
                )
            }),
    {
        self.verified.rely();
        let old: Option<Version> = match registered {
            Some(v) => Some(v.duplicate()),
            None => None,
        };
        let active: Option<String> = match registered {
            Some(v) => if active_there {
                Some(version_dir_name(v.as_str()))
            } else {
                None
            },
            None => None,
        };
        let new: String = version_dir_name(self.manifest.version.as_str());
        let steps: Vec<FsStep> = staged::commit_plan(
            &self.verified,
            staging,
            new.as_str(),
            &active,
        );
        (Moved { manifest: self.manifest, old, staging: owned(staging) }, steps)
    }
}

impl Prepared {
    /// What the verification saw.
    pub closed spec fn seen(&self) -> VerifierView {
        self.verified.seen()
    }

    pub closed spec fn manifest(&self) -> Manifest {
        self.manifest
    }

    pub fn app(&self) -> (r: &AppId)
        ensures
            r@ == self.manifest().id@,
    {
        &self.manifest.id
    }

    pub fn version(&self) -> (r: &Version)
        ensures
            r@ == self.manifest().version@,
    {
        &self.manifest.version
    }

    /// The changes that make the version active by a link, unless that would
    /// be a downgrade that is not allowed.
    pub fn link(
        self,
        staging: &str,
        registered: &Option<String>,
        allow_downgrade: bool,
        new_there: bool,
        old_there: bool,
    ) -> (r: Res<(Moved, Vec<FsStep>)>)
        ensures
            self.seen().consistent(),
            verdict(self.seen()) is Ok,
            ({
                let old = match opt_text(*registered) {
                    Some(t) => if semver_ok(t) {
                        Some(t)
                    } else {
                        None
                    },
                    None => None,
                };
                let new = self.manifest().version@;
                &&& r is Ok <==> allow_downgrade || !linked::is_downgrade(new, old)
                &&& r is Err ==> fails(
                    r,
                    ErrorView::InvalidPackage(
                        "downgrade no permitido (InstallOpts::allow_downgrade)"@,
                    ),
                )
                &&& r matches Ok((m, steps)) ==> m.before() == old && m.manifest() == self.manifest()
                    && m.staging() == staging@ && steps_view(steps@) == linked::link_steps(
                    staging@,
                    version_dir(new),
                    new_there,
                    match old {
                        Some(o) => if o != new && old_there {
                            Some(version_dir(o))
                        } else {
                            None
                        },
                        None => None,
                    },
                )
            }),
    {
        self.verified.rely();
        let old: Option<Version> = linked::registered_version(registered);
        match linked::commit_plan(
            &self.verified,
            staging,
            &self.manifest.version,
            &old,
            allow_downgrade,
            new_there,
            old_there,
        ) {
            Ok(steps) => Ok(
                (Moved { manifest: self.manifest, old, staging: owned(staging) }, steps),
            ),
            Err(e) => Err(e),
        }
    }
}

impl Moved {
    pub closed spec fn manifest(&self) -> Manifest {
        self.manifest
    }

    /// The version that was registered before.
    pub closed spec fn before(&self) -> Option<Seq<char>> {
        linked::opt_version(self.old)
    }

    pub closed spec fn staging(&self) -> Seq<char> {
        self.staging@
    }

    /// What the registry is told.
    pub fn to_register(&self) -> (r: &Manifest)
        ensures
            *r == self.manifest(),
    {
        &self.manifest
    }

    /// The registry was told, where versions are switched by a link.
    pub fn linked(self) -> (r: InstallOutcome)
        ensures
            r@ == (match self.before() {
                Some(o) => if o != self.manifest().version@ {
                    OutcomeView::Updated(self.manifest().id@, o, self.manifest().version@)
                } else {
                    OutcomeView::Installed(self.manifest().id@, self.manifest().version@)
                },
                None => OutcomeView::Installed(self.manifest().id@, self.manifest().version@),
            }),
    {
        linked::outcome(&self.manifest.id, &self.old, &self.manifest.version)
    }

    /// The registry was told, where versions are switched by renaming.
    pub fn renamed(self) -> (r: InstallOutcome)
        ensures
            r@ == (match self.before() {
                Some(o) => OutcomeView::Updated(
                    self.manifest().id@,
                    o,
                    self.manifest().version@,
                ),
                None => OutcomeView::Installed(self.manifest().id@, self.manifest().version@),
            }),
    {
        match self.old {
            Some(from) => InstallOutcome::Updated {
                app: self.manifest.id,
                from,
                to: self.manifest.version,
            },
            None => InstallOutcome::Installed {
                app: self.manifest.id,
                version: self.manifest.version,
            },
        }
    }

    fn trashed_dir(&self, old_trashed: bool) -> (r: Option<String>)
        ensures
            opt_text(r) == (match self.before() {
                Some(o) => if old_trashed {
                    Some(version_dir(o))
                } else {
                    None
                },
                None => None,
            }),
    {
        match &self.old {
            Some(o) => if old_trashed {
                Some(version_dir_name(o.as_str()))
            } else {
                None
            },
            None => None,
        }
    }

    /// The registry refused, where versions are switched by a link: the
    /// changes that undo the installation. `old_trashed` tells whether the
    /// version before is in the trash.
    pub fn unlink(&self, old_trashed: bool) -> (r: Vec<FsStep>)
        ensures
            steps_view(r@) == linked::unlink_steps(
                self.staging(),
                version_dir(self.manifest().version@),
                match self.before() {
                    Some(o) => if old_trashed {
                        Some(version_dir(o))
                    } else {
                        None
                    },
                    None => None,
                },
            ),
    {
        let trashed: Option<String> = self.trashed_dir(old_trashed);
        linked::revert_plan(self.staging.as_str(), &self.manifest.version, &trashed)
    }

    /// The registry refused, where versions are switched by renaming.
    pub fn undo_rename(&self, old_trashed: bool) -> (r: Vec<FsStep>)
        ensures
            steps_view(r@) == staged::revert_steps(
                version_dir(self.manifest().version@),
                match self.before() {
                    Some(o) => if old_trashed {
                        Some(version_dir(o))
                    } else {
                        None
                    },
                    None => None,
                },
            ),
    {
        let trashed: Option<String> = self.trashed_dir(old_trashed);
        let new: String = version_dir_name(self.manifest.version.as_str());
        staged::revert_plan(new.as_str(), &trashed)
    }
}

} // verus!
