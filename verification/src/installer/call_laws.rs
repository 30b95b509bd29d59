//! What callers of the installer can rely on, told by what goes into a call and
//! what comes out of it.
use vstd::prelude::*;

use crate::assoc::as_map;
use crate::installer::install_laws::{
    law_accepted_iff_every_file_is_right, law_commit_by_link, law_commit_by_renaming,
};
use crate::installer::linked;
use crate::installer::opts::{InstallOpts, InstallOutcome, OutcomeView};
use crate::installer::package::{
    all_paths, check_present, declared, law_every_safe_entry_is_extracted, law_wanted_by_membership,
    paths_to_extract, MemorySink, Verified,
};
use crate::installer::report::{
    change_detail, install_detail, rollback_detail, uninstall_detail, uninstall_linked,
    uninstall_staged, Installer, UninstallStep,
};
use crate::installer::staged::{self, SweepEntry};
use crate::installer::stages::{Announced, Checked, Extraction, Moved};
use crate::installer::tree::{apply, lemma_run_few, run, steps_view, FsStep, Step, Tree};
use crate::installer::verify::{
    check_hash, check_tree, check_version, registered_dir, verify_installed, walk_entry, Found,
};
use crate::pick::lemma_selection_members;
use crate::pkg::{
    semver_less, semver_ok, ArchiveEntry, Artifact, EntryInfo, EntryKind, Manifest, Version,
};
use crate::sign::RingOfTrust;
use crate::store::model::InstallSource;
use crate::types::error::{fails, ArcaError, ErrorView, Res};
use crate::types::ids::app_id_ok;
use crate::types::AppId;

verus! {

/// What an extraction is to bring out: the safe path of every file of the
/// archive but the three that are read first, and nothing else.
pub proof fn law_extraction_brings_out_the_rest(
    entries: &[EntryInfo],
    paths: Vec<String>,
    path: Seq<char>,
)
    requires
        call_ensures(paths_to_extract, (entries,), paths),
    ensures
        (exists|k: int| 0 <= k < paths@.len() && (#[trigger] paths@[k])@ == path) <==> (path
            != "manifest.toml"@ && path != "meta/signature.bin"@ && path
            != "meta/manifest.digest"@ && exists|i: int|
            0 <= i < entries@.len() && !(#[trigger] entries@[i]).is_dir
                && entries@[i].safe_path is Some && entries@[i].safe_path->0@ == path),
{
    law_wanted_by_membership(entries@, path);
    let list = paths@.map_values(|s: String| s@);
    if exists|k: int| 0 <= k < paths@.len() && (#[trigger] paths@[k])@ == path {
        let k = choose|k: int| 0 <= k < paths@.len() && (#[trigger] paths@[k])@ == path;
        assert(list[k] == path);
        assert(list.contains(path));
    }
    if list.contains(path) {
        let k = choose|k: int| 0 <= k < list.len() && list[k] == path;
        assert(paths@[k]@ == path);
    }
}

/// A complete extraction brings out the safe path of every entry.
pub proof fn law_complete_extraction_brings_out_all(
    entries: &[EntryInfo],
    paths: Vec<String>,
    i: int,
)
    requires
        call_ensures(all_paths, (entries,), paths),
        0 <= i < entries@.len(),
        entries@[i].safe_path is Some,
    ensures
        exists|k: int| 0 <= k < paths@.len() && (#[trigger] paths@[k])@ == entries@[i].safe_path->0@,
{
    law_every_safe_entry_is_extracted(entries@);
    let list = paths@.map_values(|s: String| s@);
    let good = |e: EntryInfo| e.safe_path is Some;
    lemma_selection_members(list, entries@, good, |e: EntryInfo| e.safe_path->0@);
    assert(good(entries@[i]));
    assert(list.contains(entries@[i].safe_path->0@));
    let k = choose|k: int| 0 <= k < list.len() && list[k] == entries@[i].safe_path->0@;
    assert(paths@[k]@ == list[k]);
}

/// A file that was taken in is there with its contents, the others are as they
/// were.
pub proof fn law_taken_in_file_is_there(
    sink: &mut MemorySink,
    path: &str,
    data: Vec<u8>,
    n: u64,
    other: Seq<char>,
)
    requires
        call_ensures(MemorySink::write_entry, (sink, path, data), Ok::<u64, _>(n)),
    ensures
        final(sink)@.dom().contains(path@),
        final(sink)@[path@] == data@,
        n == data@.len(),
        other != path@ ==> (final(sink)@.dom().contains(other) <==> old(sink)@.dom().contains(
            other,
        )),
        other != path@ && old(sink)@.dom().contains(other) ==> final(sink)@[other] == old(
            sink,
        )@[other],
        final(sink).total() <= 2097152,
{
}

/// An installation is accepted exactly if each declared file is there, has its
/// hash, and has its precompiled form where it declares one.
pub proof fn law_installation_is_checked_file_by_file(
    artifacts: &Vec<Artifact>,
    found: &Vec<Found>,
    r: Res<()>,
)
    requires
        artifacts@.len() == found@.len(),
        call_ensures(verify_installed, (artifacts, found), r),
    ensures
        r is Ok <==> forall|i: int|
            0 <= i < artifacts@.len() ==> found@[i].there && found@[i].sha256@ == (
            #[trigger] artifacts@[i]).sha256@ && (artifacts@[i].aot_path is Some
                ==> found@[i].aot_there),
{
    law_accepted_iff_every_file_is_right(artifacts@, found@);
}

/// After an installation by renaming the version before stays in the trash if it
/// is to be kept, and is removed from it otherwise.
pub proof fn law_old_version_is_kept_if_wanted(keep_old: bool, steps: Vec<FsStep>, t: Tree)
    requires
        call_ensures(staged::after_commit, (keep_old,), steps),
    ensures
        keep_old ==> run(t, steps_view(steps@)) == t,
        !keep_old ==> run(t, steps_view(steps@)) == (Tree { trash: Set::empty(), ..t }),
{
    lemma_run_few(t, Step::ClearTrash, Step::ClearTrash, Step::ClearTrash);
}

/// Where versions are switched by a link, a version may not replace a later one
/// without leave. If it may, its directory is the extraction, the link points to
/// it, and the version before, if it is another one and there, is in the trash.
pub proof fn law_link_replaces_the_version(
    verified: &Verified,
    staging: &str,
    version: &Version,
    old: Version,
    allow: bool,
    t: Tree,
    r: Res<Vec<FsStep>>,
)
    requires
        call_ensures(
            linked::commit_plan,
            (
                verified,
                staging,
                version,
                &Some(old),
                allow,
                t.dirs.contains("v"@ + version@),
                t.dirs.contains("v"@ + old@),
            ),
            r,
        ),
        staging@ != "v"@ + version@,
    ensures
        r is Ok <==> allow || !semver_less(version@, old@),
        r matches Ok(steps) ==> {
            let after = run(t, steps_view(steps@));
            let (new, prev) = ("v"@ + version@, "v"@ + old@);
            &&& after.current == Some(new)
            &&& old@ != version@ && t.dirs.contains(prev) ==> after == (Tree {
                dirs: t.dirs.remove(staging@).insert(new).remove(prev),
                trash: Set::empty().insert(prev),
                current: Some(new),
            })
            &&& old@ == version@ || !t.dirs.contains(prev) ==> after == (Tree {
                dirs: t.dirs.remove(staging@).insert(new),
                trash: t.trash,
                current: Some(new),
            })
        },
{
    law_commit_by_link(t, staging@, "v"@ + version@, "v"@ + old@);
}

/// Where versions are switched by renaming, the extraction becomes the directory
/// of the version, and the one that was active, if its directory is there, is
/// the only one in the trash. The link is not touched.
pub proof fn law_renaming_replaces_the_version(
    checked: Checked,
    staging: &str,
    registered: Version,
    t: Tree,
    r: (Moved, Vec<FsStep>),
)
    requires
        call_ensures(
            Checked::rename,
            (checked, staging, &Some(registered), t.dirs.contains("v"@ + registered@)),
            r,
        ),
    ensures
        ({
            let after = run(t, steps_view(r.1@));
            let (new, prev) = ("v"@ + checked.manifest().version@, "v"@ + registered@);
            &&& after.current == t.current
            &&& t.dirs.contains(prev) ==> after.trash == Set::empty().insert(prev) && after.dirs
                == t.dirs.remove(prev).remove(staging@).insert(new)
            &&& !t.dirs.contains(prev) ==> after.trash == t.trash && after.dirs == t.dirs.remove(
                staging@,
            ).insert(new)
        }),
        r.0.before() == Some(registered@),
        r.0.manifest() == checked.manifest(),
{
    law_commit_by_renaming(
        t,
        staging@,
        "v"@ + checked.manifest().version@,
        "v"@ + registered@,
    );
}

/// What an installation is called: an update from the registered version, if
/// there was one. By a link, installing the same version again is no update.
pub proof fn law_what_an_installation_is_called(
    app: &AppId,
    old: Version,
    version: &Version,
    first: InstallOutcome,
    again: InstallOutcome,
)
    requires
        call_ensures(linked::outcome, (app, &None::<Version>, version), first),
        call_ensures(linked::outcome, (app, &Some(old), version), again),
    ensures
        first@ == OutcomeView::Installed(app@, version@),
        old@ != version@ ==> again@ == OutcomeView::Updated(app@, old@, version@),
        old@ == version@ ==> again@ == OutcomeView::Installed(app@, version@),
{
}

/// What an installation by renaming is called: an update over any registered
/// version.
pub proof fn law_what_a_renaming_is_called(
    app: &AppId,
    registered: String,
    version: &Version,
    r: Res<InstallOutcome>,
)
    requires
        call_ensures(staged::outcome, (app, &Some(registered), version), r),
    ensures
        r is Ok <==> semver_ok(registered@),
        r matches Ok(o) ==> o@ == OutcomeView::Updated(app@, registered@, version@),
{
}

/// A sweep over all applications leaves files alone, removes the directories of
/// what is not registered, and looks into those that are.
pub proof fn law_sweep_removes_strangers(
    name: &str,
    is_dir: bool,
    version: Option<String>,
    r: Res<SweepEntry>,
)
    requires
        call_ensures(staged::sweep_entry, (name, is_dir, &version), r),
    ensures
        r == Ok::<SweepEntry, ArcaError>(SweepEntry::RemoveTree) <==> is_dir && (!app_id_ok(name@)
            || version is None),
        r == Ok::<SweepEntry, ArcaError>(SweepEntry::Ignore) <==> !is_dir,
        r matches Ok(SweepEntry::Sweep(active)) ==> is_dir && app_id_ok(name@) && version is Some
            && active@ == "v"@ + version->0@,
        r is Err <==> is_dir && app_id_ok(name@) && version is Some && !semver_ok(version->0@),
{
}

/// The directory that is checked is that of the registered version; without one
/// the application is not found.
pub proof fn law_registered_version_is_checked(
    id: &AppId,
    version: String,
    some: Res<String>,
    none: Res<String>,
)
    requires
        call_ensures(registered_dir, (id, &Some(version)), some),
        call_ensures(registered_dir, (id, &None::<String>), none),
    ensures
        some is Ok <==> semver_ok(version@),
        some matches Ok(d) ==> d@ == "v"@ + version@,
        fails(none, ErrorView::NotFound(id@)),
{
}

/// A symbolic link has no place in an installed tree; anything else is listed
/// under its directory with its own kind.
pub proof fn law_links_have_no_place(
    prefix: &str,
    name: &str,
    kind: EntryKind,
    r: Res<ArchiveEntry>,
)
    requires
        call_ensures(walk_entry, (prefix, name, kind), r),
    ensures
        r is Err <==> kind == EntryKind::Symlink,
        r matches Ok(e) ==> e.kind == kind && (prefix@.len() == 0 ==> e.path@ == name@) && (
        prefix@.len() > 0 ==> e.path@ == prefix@ + seq!['/'] + name@),
{
    assert(prefix@.push('/') =~= prefix@ + seq!['/']);
}

/// Where the active version is: an absolute link is followed as it is, any other
/// starts at the directory of the application. Without a link the application is
/// not found.
pub proof fn law_link_is_followed(
    installer: &Installer,
    id: &AppId,
    link: String,
    some: Res<String>,
    none: Res<String>,
    dir: String,
)
    requires
        call_ensures(Installer::current_dir, (installer, id, &Some(link)), some),
        call_ensures(Installer::current_dir, (installer, id, &None::<String>), none),
        call_ensures(Installer::app_dir, (installer, id), dir),
        installer.root_path().len() > 0,
        installer.root_path().last() != '/',
        id@.len() > 0,
        id@.last() != '/',
    ensures
        dir@ == installer.root_path() + seq!['/'] + id@,
        link@.len() > 0 && link@[0] == '/' ==> (some matches Ok(d) && d@ == link@),
        link@.len() > 0 && link@[0] != '/' ==> (some matches Ok(d) && d@ == dir@ + seq!['/'] + link@),
        fails(none, ErrorView::NotFound(id@)),
{
    reveal_strlit("/");
    let root = installer.root_path();
    assert(root.push('/') =~= root + seq!['/']);
    assert(dir@.push('/') =~= dir@ + seq!['/']);
    assert(dir@.last() == id@.last());
    if link@.len() > 0 && link@[0] == '/' {
        assert("/"@ =~= link@.subrange(0, 1));
    }
    if "/"@.is_prefix_of(link@) {
        assert(link@.subrange(0, 1)[0] == '/');
    }
}

/// Only what is registered is removed. The files go if they are there, and the
/// registry forgets the application.
pub proof fn law_only_the_registered_is_removed(
    id: &AppId,
    registered: bool,
    there: bool,
    by_link: Res<Vec<UninstallStep>>,
    by_name: Res<Vec<UninstallStep>>,
)
    requires
        call_ensures(uninstall_linked, (id, registered), by_link),
        call_ensures(uninstall_staged, (id, registered, there), by_name),
    ensures
        by_link is Ok <==> registered,
        by_name is Ok <==> registered,
        !registered ==> fails(by_link, ErrorView::NotFound(id@)) && fails(
            by_name,
            ErrorView::NotFound(id@),
        ),
        by_link matches Ok(s) ==> s@.contains(UninstallStep::RemoveTree) && s@.contains(
            UninstallStep::DeleteRow,
        ) && s@.last() == UninstallStep::Audit,
        by_name matches Ok(s) ==> (s@.contains(UninstallStep::RemoveTree) <==> there)
            && s@.contains(UninstallStep::DeleteRow) && s@.last() == UninstallStep::Audit,
{
    if registered {
        let (a, b) = (by_link->Ok_0@, by_name->Ok_0@);
        assert(a[2] == UninstallStep::RemoveTree && a[1] == UninstallStep::DeleteRow);
        assert(b[1] == UninstallStep::DeleteRow);
        if there {
            assert(b[3] == UninstallStep::RemoveTree);
        }
    }
}

/// What the audit trail says of changes: from which version to which.
pub proof fn law_audit_names_both_versions(
    from: String,
    to: &str,
    source: InstallSource,
    installed: String,
    first: String,
    update: String,
    back: String,
    gone: String,
)
    requires
        call_ensures(install_detail, (to, source), installed),
        call_ensures(change_detail, (&None::<String>, to), first),
        call_ensures(change_detail, (&Some(from), to), update),
        call_ensures(rollback_detail, (&Some(from), to), back),
        call_ensures(uninstall_detail, (&Some(from),), gone),
    ensures
        installed@ == "install v"@ + to@ + " from "@ + source.name(),
        first@ == "install v"@ + to@,
        update@ == "update v"@ + from@ + " → v"@ + to@,
        back@ == "rollback v"@ + from@ + " → v"@ + to@,
        gone@ == "uninstall v"@ + from@,
{
}

/// A package whose declared files were not all found is refused.
pub proof fn law_missing_file_is_refused(artifacts: &Vec<Artifact>, present: &Vec<bool>, r: Res<()>)
    requires
        call_ensures(check_present, (artifacts, present), r),
    ensures
        r is Ok <==> present@.len() == artifacts@.len() && forall|i: int|
            0 <= i < present@.len() ==> present@[i],
{
}

/// What the steps do to the directories of an application: one that is removed
/// is gone, one that is renamed is there under the new name alone, one that goes
/// to the trash comes back from it, and the link points where it was told to.
pub proof fn law_steps_do_what_they_say(t: Tree, a: String, b: String)
    requires
        a@ != b@,
    ensures
        ({
            let gone = run(t, steps_view(seq![FsStep::Remove(a)]));
            !gone.dirs.contains(a@) && gone.trash == t.trash && gone.current == t.current
        }),
        ({
            let moved = run(t, steps_view(seq![FsStep::Rename(a, b)]));
            !moved.dirs.contains(a@) && moved.dirs.contains(b@) && moved.trash == t.trash
        }),
        ({
            let aside = run(t, steps_view(seq![FsStep::Trash(a)]));
            !aside.dirs.contains(a@) && aside.trash.contains(a@)
        }),
        ({
            let back = run(t, steps_view(seq![FsStep::Untrash(a)]));
            back.dirs.contains(a@) && !back.trash.contains(a@)
        }),
        ({
            let back = run(t, steps_view(seq![FsStep::UntrashAs(a, b)]));
            back.dirs.contains(b@) && !back.trash.contains(a@)
        }),
        run(t, steps_view(seq![FsStep::DropTrashed(a)])) == (Tree {
            trash: t.trash.remove(a@),
            ..t
        }),
        run(t, steps_view(seq![FsStep::ClearTrash])) == (Tree { trash: Set::empty(), ..t }),
        run(t, steps_view(seq![FsStep::Point(a)])) == (Tree { current: Some(a@), ..t }),
{
    assert forall|s: FsStep| run(t, steps_view(seq![s])) == apply(t, #[trigger] s@) by {
        let one = steps_view(seq![s]);
        assert(one =~= seq![s@]);
        assert(one.drop_last() =~= Seq::<Step>::empty());
        assert(run(t, one.drop_last()) == t);
    }
    assert(FsStep::Remove(a)@ is Remove && FsStep::Rename(a, b)@ is Rename);
    assert(FsStep::Trash(a)@ is Trash && FsStep::Untrash(a)@ is Untrash);
    assert(FsStep::UntrashAs(a, b)@ is UntrashAs && FsStep::DropTrashed(a)@ is DropTrashed);
    assert(FsStep::ClearTrash@ is ClearTrash && FsStep::Point(a)@ is Point);
}

/// An installation that nothing is said of is the user's, goes to no version
/// before and keeps a way back; a developer's may go to a version before.
pub proof fn law_options_of_an_installation(usual: InstallOpts, dev: InstallOpts)
    requires
        call_ensures(InstallOpts::new, (), usual),
        call_ensures(InstallOpts::dev, (), dev),
    ensures
        !usual.allow_downgrade && dev.allow_downgrade,
        usual.keep_old && dev.keep_old,
        usual.auto_grant_caps is None && dev.auto_grant_caps is None,
        usual.source is User && dev.source is Dev,
{
}

/// An outcome tells the application and the version that is active now.
pub proof fn law_outcome_tells_the_active_version(
    o: InstallOutcome,
    app: &AppId,
    version: &Version,
)
    requires
        call_ensures(InstallOutcome::app, (&o,), app),
        call_ensures(InstallOutcome::version, (&o,), version),
    ensures
        match o {
            InstallOutcome::Installed { app: a, version: v } => app@ == a@ && version@ == v@,
            InstallOutcome::Updated { app: a, from: _, to: v } => app@ == a@ && version@ == v@,
            InstallOutcome::RolledBack { app: a, version: v } => app@ == a@ && version@ == v@,
        },
{
}

/// An installed tree is what was registered only if it is there, its manifest is
/// of the registered version, and its files have the declared digests.
pub proof fn law_installed_tree_is_checked(
    there: bool,
    manifest: Version,
    registered: &str,
    artifact: Artifact,
    got: &[u8; 32],
    tree: Res<()>,
    version: Res<()>,
    hash: Res<()>,
)
    requires
        call_ensures(check_tree, (there,), tree),
        call_ensures(check_version, (&manifest, registered), version),
        call_ensures(check_hash, (&artifact, got), hash),
    ensures
        tree is Err <==> !there,
        version is Err <==> manifest@ != registered@,
        hash is Err <==> got@ != artifact.sha256@,
{
}

/// An extraction that begins has seen nothing yet. It holds what comes against
/// the files of the manifest, the signature and the digest that were announced,
/// and the keys of the ring; with a check of the version or without.
pub proof fn law_extraction_starts_afresh(
    announced: Announced,
    manifest: Manifest,
    ring: &RingOfTrust,
    registered: Option<String>,
    allow_downgrade: bool,
    x: Extraction,
    y: Extraction,
)
    requires
        call_ensures(Announced::begin, (announced, manifest, ring), x),
        call_ensures(
            Announced::begin_allowed,
            (announced, manifest, ring, &registered, allow_downgrade),
            Ok::<Extraction, _>(y),
        ),
    ensures
        x.seen().keys == ring@ && y.seen().keys == ring@,
        x.seen().sig == announced.meta().sig && y.seen().sig == announced.meta().sig,
        x.seen().manifest_sha == announced.meta().manifest_sha,
        y.seen().manifest_sha == announced.meta().manifest_sha,
        x.seen().open.dom() == Set::<Seq<char>>::empty(),
        y.seen().open.dom() == Set::<Seq<char>>::empty(),
        x.seen().done.dom() == Set::<Seq<char>>::empty(),
        y.seen().done.dom() == Set::<Seq<char>>::empty(),
        !x.seen().manifest_fed && !y.seen().manifest_fed,
        as_map(x.seen().expected) == declared(manifest.artifacts@),
        as_map(y.seen().expected) == declared(manifest.artifacts@),
        x.manifest() == manifest && y.manifest() == manifest,
{
}

/// A version before the registered one is extracted only with leave.
pub proof fn law_going_back_is_not_begun(
    announced: Announced,
    manifest: Manifest,
    ring: &RingOfTrust,
    registered: String,
    allow_downgrade: bool,
    r: Res<Extraction>,
)
    requires
        semver_ok(registered@),
        call_ensures(
            Announced::begin_allowed,
            (announced, manifest, ring, &Some(registered), allow_downgrade),
            r,
        ),
    ensures
        r is Err <==> semver_less(manifest.version@, registered@) && !allow_downgrade,
{
}

} // verus!
