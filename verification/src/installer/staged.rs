//! Versions that are switched by renaming: the version before goes to the
//! trash, the extraction takes its final name, the registry is told last. What
//! a crash leaves behind is brought back to what the registry says.
use vstd::prelude::*;

use crate::installer::opts::{InstallOutcome, OutcomeView};
use crate::installer::package::Verified;
use crate::installer::tree::{
    apply, has_name, lemma_removals, lemma_run_few, lemma_run_push, names_view, push_step,
    removals, run, steps_view, version_dir, version_dir_name, FsStep, Step, Tree, VERSION_PREFIX,
};
use crate::pkg::{semver_less, semver_ok, Version};
use crate::sign::stream::verdict;
use crate::text::{from_chars, has_prefix, owned, str_eq, to_chars};
use crate::types::error::{fails, ArcaError, ErrorView, Res};
use crate::types::ids::app_id_ok;
use crate::types::AppId;

verus! {

/// What the name of an extraction starts with.
pub const STAGING_PREFIX: &'static str = ".staging-";

/// The entry is an extraction.
pub open spec fn is_staging(name: Seq<char>) -> bool {
    STAGING_PREFIX@.is_prefix_of(name)
}

/// The entry has the name of a version directory.
pub open spec fn is_version(name: Seq<char>) -> bool {
    VERSION_PREFIX@.is_prefix_of(name)
}

/// Reads the version of a record.
pub fn parse_version(text: &str) -> (r: Res<Version>)
    ensures
        r is Ok <==> semver_ok(text@),
        r matches Ok(v) ==> v@ == text@,
        r is Err ==> fails(r, ErrorView::Internal("installer: versión ilegible"@)),
{
    match Version::parse(text) {
        Some(v) => Ok(v),
        None => Err(ArcaError::Internal("installer: versión ilegible")),
    }
}

/// Why a version may not be installed over a registered one, if it may not.
pub open spec fn policy_error(
    registered: Option<Seq<char>>,
    new: Seq<char>,
    allow_downgrade: bool,
) -> Option<ErrorView> {
    match registered {
        None => None,
        Some(cur) => if !semver_ok(cur) {
            Some(ErrorView::Internal("installer: versión ilegible"@))
        } else if semver_less(new, cur) && !allow_downgrade {
            Some(
                ErrorView::InvalidPackage(
                    "installer: downgrade prohibido sin allow_downgrade"@,
                ),
            )
        } else {
            None
        },
    }
}

/// The text, if there is one.
pub open spec fn opt_text(s: Option<String>) -> Option<Seq<char>> {
    match s {
        Some(s) => Some(s@),
        None => None,
    }
}

/// Decides whether a version may be installed over the registered one.
pub fn check_policy(registered: &Option<String>, new: &Version, allow_downgrade: bool) -> (r: Res<
    (),
>)
    ensures
        r is Ok <==> policy_error(opt_text(*registered), new@, allow_downgrade) is None,
        r matches Err(e) ==> policy_error(opt_text(*registered), new@, allow_downgrade) == Some(e@),
{
    match registered {
        None => Ok(()),
        Some(text) => match parse_version(text.as_str()) {
            Ok(cur) => {
                if new.is_before(&cur) && !allow_downgrade {
                    Err(
                        ArcaError::InvalidPackage(
                            "installer: downgrade prohibido sin allow_downgrade",
                        ),
                    )
                } else {
                    Ok(())
                }
            },
            Err(e) => Err(e),
        },
    }
}

/// The changes before the registry is told: the version before, if its
/// directory is there, goes to the trash, and the extraction takes its name.
pub open spec fn commit_steps(
    staging: Seq<char>,
    new: Seq<char>,
    active: Option<Seq<char>>,
) -> Seq<Step> {
    match active {
        Some(a) => seq![Step::ClearTrash, Step::Trash(a), Step::Rename(staging, new)],
        None => seq![Step::Rename(staging, new)],
    }
}

/// The changes that install a verified extraction. `active` is the directory of
/// the registered version, if it is there.
pub fn commit_plan(verified: &Verified, staging: &str, new: &str, active: &Option<String>) -> (r:
    Vec<FsStep>)
    ensures
        verdict(verified.seen()) is Ok,
        steps_view(r@) == commit_steps(staging@, new@, opt_text(*active)),
{
    verified.rely();
    let mut out: Vec<FsStep> = Vec::new();
    assert(steps_view(out@) =~= Seq::empty());
    match active {
        Some(a) => {
            push_step(&mut out, FsStep::ClearTrash);
            push_step(&mut out, FsStep::Trash(owned(a.as_str())));
        },
        None => {},
    }
    push_step(&mut out, FsStep::Rename(owned(staging), owned(new)));
    assert(steps_view(out@) =~= commit_steps(staging@, new@, opt_text(*active)));
    out
}

/// The changes after the registry was told.
pub fn after_commit(keep_old: bool) -> (r: Vec<FsStep>)
    ensures
        steps_view(r@) == (if keep_old {
            Seq::<Step>::empty()
        } else {
            seq![Step::ClearTrash]
        }),
{
    let mut out: Vec<FsStep> = Vec::new();
    assert(steps_view(out@) =~= Seq::empty());
    if !keep_old {
        push_step(&mut out, FsStep::ClearTrash);
    }
    assert(steps_view(out@) =~= (if keep_old {
        Seq::<Step>::empty()
    } else {
        seq![Step::ClearTrash]
    }));
    out
}

/// The changes that undo an installation when the registry refuses it.
pub open spec fn revert_steps(new: Seq<char>, trashed: Option<Seq<char>>) -> Seq<Step> {
    match trashed {
        Some(a) => seq![Step::Remove(new), Step::Untrash(a)],
        None => seq![Step::Remove(new)],
    }
}

/// The changes that undo an installation. `trashed` is the directory of the
/// registered version, if it is in the trash.
pub fn revert_plan(new: &str, trashed: &Option<String>) -> (r: Vec<FsStep>)
    ensures
        steps_view(r@) == revert_steps(new@, opt_text(*trashed)),
{
    let mut out: Vec<FsStep> = Vec::new();
    assert(steps_view(out@) =~= Seq::empty());
    push_step(&mut out, FsStep::Remove(owned(new)));
    match trashed {
        Some(a) => {
            push_step(&mut out, FsStep::Untrash(owned(a.as_str())));
        },
        None => {},
    }
    assert(steps_view(out@) =~= revert_steps(new@, opt_text(*trashed)));
    out
}

/// What came of an installation: one over a registered version is an update.
pub fn outcome(app: &AppId, registered: &Option<String>, version: &Version) -> (r: Res<
    InstallOutcome,
>)
    ensures
        match opt_text(*registered) {
            None => r matches Ok(o) && o@ == OutcomeView::Installed(app@, version@),
            Some(from) => if semver_ok(from) {
                r matches Ok(o) && o@ == OutcomeView::Updated(app@, from, version@)
            } else {
                fails(r, ErrorView::Internal("installer: versión ilegible"@))
            },
        },
{
    match registered {
        None => Ok(InstallOutcome::Installed { app: app.clone(), version: version.duplicate() }),
        Some(text) => match parse_version(text.as_str()) {
            Ok(from) => Ok(
                InstallOutcome::Updated { app: app.clone(), from, to: version.duplicate() },
            ),
            Err(e) => Err(e),
        },
    }
}

/// The entry is left over from an installation that did not finish.
pub open spec fn left_over(name: Seq<char>, active: Seq<char>) -> bool {
    is_staging(name) || (is_version(name) && name != active)
}

/// The entries that are left over.
pub open spec fn leftovers(names: Seq<Seq<char>>, active: Seq<char>) -> Seq<Seq<char>>
    decreases names.len(),
{
    if names.len() == 0 {
        Seq::empty()
    } else {
        let rest = leftovers(names.drop_last(), active);
        if left_over(names.last(), active) {
            rest.push(names.last())
        } else {
            rest
        }
    }
}

/// The changes that bring the directory of a registered application in order:
/// what is left over goes, and the active version comes back from the trash if
/// it is missing.
pub open spec fn sweep_steps(names: Seq<Seq<char>>, active: Seq<char>, trashed: bool) -> Seq<Step> {
    let cleared = removals(leftovers(names, active));
    if !names.contains(active) && trashed {
        cleared.push(Step::Untrash(active))
    } else {
        cleared
    }
}

/// Brings the directory of a registered application in order. `names` are its
/// entries, and `trashed` tells whether the trash holds the active version.
/// Every change counts as a repair.
pub fn sweep_app(names: &Vec<String>, active: &str, trashed: bool) -> (r: Vec<FsStep>)
    ensures
        steps_view(r@) == sweep_steps(names_view(names@), active@, trashed),
{
    let mut out: Vec<FsStep> = Vec::new();
    let ghost view = names_view(names@);
    let mut i: usize = 0;
    assert(steps_view(out@) =~= removals(leftovers(view.take(0), active@)));
    while i < names.len()
        invariant
            i <= names@.len(),
            view == names_view(names@),
            steps_view(out@) == removals(leftovers(view.take(i as int), active@)),
        decreases names@.len() - i,
    {
        assert(view.take(i + 1).drop_last() =~= view.take(i as int));
        assert(view.take(i + 1).last() == names@[i as int]@);
        let name: &str = names[i].as_str();
        if has_prefix(name, STAGING_PREFIX) || (has_prefix(name, VERSION_PREFIX) && !str_eq(
            name,
            active,
        )) {
            push_step(&mut out, FsStep::Remove(owned(name)));
            assert(steps_view(out@) =~= removals(
                leftovers(view.take(i as int), active@).push(name@),
            ));
        }
        i += 1;
    }
    assert(view.take(i as int) =~= view);
    if !has_name(names, active) && trashed {
        push_step(&mut out, FsStep::Untrash(owned(active)));
    }
    out
}

/// What a sweep does with an entry of the directory of all applications.
#[derive(Debug, PartialEq, Eq)]
pub enum SweepEntry {
    /// A stray file is left alone.
    Ignore,
    /// A directory that belongs to no registered application is removed.
    RemoveTree,
    /// The directory of a registered application, with the name of its active
    /// version.
    Sweep(String),
}

/// Decides what a sweep does with an entry; `version` is the registered
/// version of the application with its name, if there is one.
pub fn sweep_entry(name: &str, is_dir: bool, version: &Option<String>) -> (r: Res<SweepEntry>)
    ensures
        !is_dir ==> r == Ok::<SweepEntry, ArcaError>(SweepEntry::Ignore),
        is_dir && (!app_id_ok(name@) || version is None) ==> r == Ok::<SweepEntry, ArcaError>(
            SweepEntry::RemoveTree,
        ),
        is_dir && app_id_ok(name@) && (version matches Some(v) && semver_ok(v@)) ==> (r matches Ok(
            SweepEntry::Sweep(active),
        ) && active@ == version_dir((version->0)@)),
        is_dir && app_id_ok(name@) && (version matches Some(v) && !semver_ok(v@)) ==> fails(
            r,
            ErrorView::Internal("installer: versión ilegible"@),
        ),
{
    if !is_dir {
        return Ok(SweepEntry::Ignore);
    }
    match AppId::new(name) {
        Ok(_) => {},
        Err(_) => {
            return Ok(SweepEntry::RemoveTree);
        },
    }
    match version {
        None => Ok(SweepEntry::RemoveTree),
        Some(text) => match parse_version(text.as_str()) {
            Ok(v) => Ok(SweepEntry::Sweep(version_dir_name(v.as_str()))),
            Err(e) => Err(e),
        },
    }
}

pub proof fn lemma_prefixes_apart(name: Seq<char>)
    ensures
        !(is_staging(name) && is_version(name)),
{
    reveal_strlit(".staging-");
    reveal_strlit("v");
    if is_staging(name) && is_version(name) {
        assert(STAGING_PREFIX@[0] == name[0]);
        assert(VERSION_PREFIX@[0] == name[0]);
    }
}

proof fn lemma_leftovers(names: Seq<Seq<char>>, active: Seq<char>, n: Seq<char>)
    ensures
        leftovers(names, active).contains(n) <==> names.contains(n) && left_over(n, active),
    decreases names.len(),
{
    if names.len() > 0 {
        let rest = names.drop_last();
        let sub = leftovers(rest, active);
        let out = leftovers(names, active);
        lemma_leftovers(rest, active, n);
        if names.contains(n) && n != names.last() {
            let i = choose|i: int| 0 <= i < names.len() && names[i] == n;
            assert(rest[i] == n);
        }
        if rest.contains(n) {
            let i = choose|i: int| 0 <= i < rest.len() && rest[i] == n;
            assert(names[i] == n);
        }
        assert(names[names.len() - 1] == names.last());
        if sub.contains(n) {
            let i = choose|i: int| 0 <= i < sub.len() && sub[i] == n;
            assert(out[i] == n);
        }
        if out.contains(n) {
            let i = choose|i: int| 0 <= i < out.len() && out[i] == n;
            if i < sub.len() {
                assert(sub[i] == n);
            }
        }
        if n == names.last() && left_over(n, active) {
            assert(out[out.len() - 1] == n);
        }
    }
}

/// `names` lists the entries of the directory.
pub open spec fn lists(names: Seq<Seq<char>>, t: Tree) -> bool {
    forall|n: Seq<char>| #[trigger] names.contains(n) <==> t.dirs.contains(n)
}

/// The directory is in order for an active version: the version is there, no
/// other is, and no extraction.
pub open spec fn in_order(t: Tree, active: Seq<char>) -> bool {
    &&& t.dirs.contains(active)
    &&& forall|n: Seq<char>| #[trigger] t.dirs.contains(n) ==> !left_over(n, active)
}

/// What a sweep makes of a directory.
pub proof fn lemma_swept(t: Tree, names: Seq<Seq<char>>, active: Seq<char>)
    requires
        lists(names, t),
        is_version(active),
    ensures
        ({
            let after = run(t, sweep_steps(names, active, t.trash.contains(active)));
            &&& forall|n: Seq<char>| #[trigger]
                after.dirs.contains(n) <==> (t.dirs.contains(n) && !left_over(n, active)) || (n
                    == active && t.trash.contains(active))
            &&& after.current == t.current
            &&& after.trash == (if !t.dirs.contains(active) {
                t.trash.remove(active)
            } else {
                t.trash
            })
        }),
{
    let gone = leftovers(names, active);
    let cleared = run(t, removals(gone));
    lemma_removals(t, gone);
    lemma_prefixes_apart(active);
    assert(names.contains(active) == t.dirs.contains(active));
    let trashed = t.trash.contains(active);
    let after = run(t, sweep_steps(names, active, trashed));
    if !names.contains(active) && trashed {
        lemma_run_push(t, removals(gone), Step::Untrash(active));
    } else if !t.dirs.contains(active) {
        assert(t.trash.remove(active) =~= t.trash);
    }
    assert forall|n: Seq<char>| #[trigger]
        after.dirs.contains(n) <==> (t.dirs.contains(n) && !left_over(n, active)) || (n == active
            && trashed) by {
        lemma_leftovers(names, active, n);
        assert(names.contains(n) == t.dirs.contains(n));
    }
}

/// Whatever moment a crash hits an update, the next sweep brings the directory
/// back to what the registry still says: the registered version is there, and
/// nothing of the update is left.
pub proof fn law_crash_during_update_is_repaired(
    t: Tree,
    staging: Seq<char>,
    new: Seq<char>,
    active: Seq<char>,
    done: int,
    names: Seq<Seq<char>>,
)
    requires
        t.dirs.contains(active),
        t.dirs.contains(staging),
        is_staging(staging),
        is_version(active),
        is_version(new),
        0 <= done <= commit_steps(staging, new, Some(active)).len(),
        lists(names, run(t, commit_steps(staging, new, Some(active)).take(done))),
    ensures
        ({
            let crashed = run(t, commit_steps(staging, new, Some(active)).take(done));
            in_order(
                run(crashed, sweep_steps(names, active, crashed.trash.contains(active))),
                active,
            )
        }),
{
    let steps = commit_steps(staging, new, Some(active));
    let s0 = steps.take(0);
    let s1 = steps.take(1);
    let s2 = steps.take(2);
    let s3 = steps.take(3);
    assert(s1.drop_last() =~= s0);
    assert(s2.drop_last() =~= s1);
    assert(s3.drop_last() =~= s2);
    assert(run(t, s0) == t);
    assert(run(t, s1) == apply(t, Step::ClearTrash));
    assert(run(t, s2) == apply(run(t, s1), Step::Trash(active)));
    assert(run(t, s3) == apply(run(t, s2), Step::Rename(staging, new)));
    let crashed = run(t, steps.take(done));
    lemma_prefixes_apart(active);
    lemma_prefixes_apart(staging);
    lemma_swept(crashed, names, active);
    assert(crashed.dirs.contains(active) || crashed.trash.contains(active));
}

/// A sweep that follows a sweep finds nothing to do.
pub proof fn law_second_sweep_is_idle(
    t: Tree,
    names: Seq<Seq<char>>,
    active: Seq<char>,
    again: Seq<Seq<char>>,
)
    requires
        is_version(active),
        lists(names, t),
        lists(again, run(t, sweep_steps(names, active, t.trash.contains(active)))),
    ensures
        ({
            let after = run(t, sweep_steps(names, active, t.trash.contains(active)));
            sweep_steps(again, active, after.trash.contains(active)).len() == 0
        }),
{
    let after = run(t, sweep_steps(names, active, t.trash.contains(active)));
    lemma_swept(t, names, active);
    lemma_prefixes_apart(active);
    let gone = leftovers(again, active);
    if gone.len() > 0 {
        let n = gone[0];
        assert(gone.contains(n));
        lemma_leftovers(again, active, n);
        assert(again.contains(n));
        assert(after.dirs.contains(n));
    }
    assert(removals(gone).len() == 0);
    assert(again.contains(active) == after.dirs.contains(active));
}

/// An installation that the registry refuses leaves the versions as they were:
/// only the extraction is gone.
pub proof fn law_revert_restores_the_versions(
    t: Tree,
    staging: Seq<char>,
    new: Seq<char>,
    active: Option<Seq<char>>,
)
    requires
        active matches Some(a) ==> t.dirs.contains(a) && a != staging,
        t.dirs.contains(staging),
        new != staging,
        t.dirs.contains(new) ==> active == Some(new),
    ensures
        run(run(t, commit_steps(staging, new, active)), revert_steps(new, active)).dirs
            == t.dirs.remove(staging),
{
    let steps = commit_steps(staging, new, active);
    let back = revert_steps(new, active);
    let mid = run(t, steps);
    match active {
        Some(a) => {
            lemma_run_few(t, Step::ClearTrash, Step::Trash(a), Step::Rename(staging, new));
            lemma_run_few(mid, Step::Remove(new), Step::Untrash(a), Step::ClearTrash);
        },
        None => {
            lemma_run_few(t, Step::Rename(staging, new), Step::ClearTrash, Step::ClearTrash);
            lemma_run_few(mid, Step::Remove(new), Step::ClearTrash, Step::ClearTrash);
        },
    }
    assert(run(run(t, steps), back).dirs =~= t.dirs.remove(staging));
}

/// The names in the trash that are not that of the active version.
pub open spec fn candidates(names: Seq<Seq<char>>, active: Seq<char>) -> Seq<Seq<char>>
    decreases names.len(),
{
    if names.len() == 0 {
        Seq::empty()
    } else {
        let rest = candidates(names.drop_last(), active);
        if names.last() != active {
            rest.push(names.last())
        } else {
            rest
        }
    }
}

/// A version directory's name without its prefix.
pub open spec fn version_text(name: Seq<char>) -> Seq<char> {
    if is_version(name) {
        name.skip(1)
    } else {
        name
    }
}

/// The version to go back to: the directory in the trash, and its version.
/// There has to be exactly one that is not the active version.
pub fn rollback_target(trash: &Vec<String>, active: &str) -> (r: Res<(String, Version)>)
    ensures
        ({
            let c = candidates(names_view(trash@), active@);
            &&& r is Ok <==> c.len() == 1 && semver_ok(version_text(c[0]))
            &&& r matches Ok((name, v)) ==> name@ == c[0] && v@ == version_text(c[0])
            &&& c.len() != 1 ==> fails(
                r,
                ErrorView::Internal("installer: no hay versión anterior en .trash"@),
            )
            &&& c.len() == 1 && !semver_ok(version_text(c[0])) ==> fails(
                r,
                ErrorView::Internal("installer: versión ilegible"@),
            )
        }),
{
    let ghost view = names_view(trash@);
    let mut found: Vec<String> = Vec::new();
    let mut i: usize = 0;
    assert(names_view(found@) =~= candidates(view.take(0), active@));
    while i < trash.len()
        invariant
            i <= trash@.len(),
            view == names_view(trash@),
            names_view(found@) == candidates(view.take(i as int), active@),
        decreases trash@.len() - i,
    {
        assert(view.take(i + 1).drop_last() =~= view.take(i as int));
        assert(view.take(i + 1).last() == trash@[i as int]@);
        if !str_eq(trash[i].as_str(), active) {
            let ghost before = found@;
            found.push(owned(trash[i].as_str()));
            assert(names_view(found@) =~= names_view(before).push(trash@[i as int]@));
        }
        i += 1;
    }
    assert(view.take(i as int) =~= view);
    if found.len() != 1 {
        return Err(ArcaError::Internal("installer: no hay versión anterior en .trash"));
    }
    let name: String = owned(found[0].as_str());
    assert(name@ == candidates(view, active@)[0]);
    let text: String = if has_prefix(name.as_str(), VERSION_PREFIX) {
        let c: Vec<char> = to_chars(name.as_str());
        proof {
            reveal_strlit("v");
        }
        let n: usize = c.len();
        assert(c@.subrange(1, n as int) =~= name@.skip(1));
        from_chars(&c, 1, n)
    } else {
        owned(name.as_str())
    };
    match parse_version(text.as_str()) {
        Ok(v) => Ok((name, v)),
        Err(e) => Err(e),
    }
}

/// The changes of a rollback: the active version, if it is there, goes to the
/// trash, and the one before comes back.
pub open spec fn rollback_steps(
    active: Seq<char>,
    prev: Seq<char>,
    active_there: bool,
    active_trashed: bool,
) -> Seq<Step> {
    if active_there && active_trashed {
        seq![Step::DropTrashed(active), Step::Trash(active), Step::Untrash(prev)]
    } else if active_there {
        seq![Step::Trash(active), Step::Untrash(prev)]
    } else {
        seq![Step::Untrash(prev)]
    }
}

/// The changes of a rollback.
pub fn rollback_plan(active: &str, prev: &str, active_there: bool, active_trashed: bool) -> (r: Vec<
    FsStep,
>)
    ensures
        steps_view(r@) == rollback_steps(active@, prev@, active_there, active_trashed),
{
    let mut out: Vec<FsStep> = Vec::new();
    assert(steps_view(out@) =~= Seq::empty());
    if active_there {
        if active_trashed {
            push_step(&mut out, FsStep::DropTrashed(owned(active)));
        }
        push_step(&mut out, FsStep::Trash(owned(active)));
    }
    push_step(&mut out, FsStep::Untrash(owned(prev)));
    assert(steps_view(out@) =~= rollback_steps(active@, prev@, active_there, active_trashed));
    out
}

proof fn lemma_rolled_back(t: Tree, active: Seq<char>, prev: Seq<char>)
    requires
        t.dirs.contains(active),
        !t.trash.contains(active),
        active != prev,
    ensures
        run(t, rollback_steps(active, prev, true, false)) == (Tree {
            dirs: t.dirs.remove(active).insert(prev),
            trash: t.trash.insert(active).remove(prev),
            current: t.current,
        }),
{
    lemma_run_few(t, Step::Trash(active), Step::Untrash(prev), Step::ClearTrash);
}

/// A rollback swaps the two versions: going back twice is where one started.
pub proof fn law_rollback_twice_is_where_one_started(t: Tree, active: Seq<char>, prev: Seq<char>)
    requires
        t.dirs.contains(active),
        !t.dirs.contains(prev),
        t.trash.contains(prev),
        !t.trash.contains(active),
    ensures
        run(
            run(t, rollback_steps(active, prev, true, false)),
            rollback_steps(prev, active, true, false),
        ) == t,
{
    lemma_rolled_back(t, active, prev);
    let mid = run(t, rollback_steps(active, prev, true, false));
    lemma_rolled_back(mid, prev, active);
    assert(run(mid, rollback_steps(prev, active, true, false)) =~= t);
}

} // verus!
