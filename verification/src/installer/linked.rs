//! Versions that are switched by a link: the extraction takes its final name,
//! the version before goes to the trash, the link `current` is pointed to the
//! new version, the registry is told last.
use vstd::prelude::*;

use crate::bytes::le_bytes;
use crate::installer::opts::{InstallOutcome, OutcomeView};
use crate::installer::package::Verified;
use crate::installer::staged::opt_text;
use crate::installer::tree::{
    law_versions_have_their_own_directories, lemma_removals, lemma_run_concat, lemma_run_few,
    lemma_run_push, push_step, removals, run, steps_view, version_dir, version_dir_name, FsStep,
    Step, Tree,
};
use crate::pkg::{begins_with_digit, semver_less, semver_ok, Version};
use crate::sign::stream::verdict;
use crate::text::{from_chars, has_prefix, hex_text, owned, push_hex, str_eq, to_chars};
use crate::types::error::{fails, ArcaError, ErrorView, Res};
use crate::types::AppId;

verus! {

/// What the name of an extraction starts with.
pub const TMP_PREFIX: &'static str = ".tmp-";

/// A 64-bit number as 16 hexadecimal digits.
pub open spec fn hex16(n: u64) -> Seq<char> {
    hex_text(le_bytes(n as nat, 8).reverse())
}

fn push_hex16(s: &mut String, n: u64)
    ensures
        final(s)@ == old(s)@ + hex16(n),
{
    let mut le: Vec<u8> = Vec::new();
    crate::bytes::push_le(&mut le, n, 8);
    proof {
        crate::bytes::lemma_le_bytes_len(n as nat, 8);
    }
    assert(le@ =~= le_bytes(n as nat, 8));
    let mut be: [u8; 8] = [0u8; 8];
    let mut i: usize = 0;
    while i < 8
        invariant
            i <= 8,
            le@.len() == 8,
            forall|k: int| 0 <= k < i ==> be@[k] == le@[7 - k],
        decreases 8 - i,
    {
        be[i] = le[7 - i];
        i += 1;
    }
    assert(be@ =~= le@.reverse());
    push_hex(s, &be);
}

/// The name of an extraction, from a clock reading.
pub fn staging_name(clock: u64) -> (r: String)
    ensures
        r@ == TMP_PREFIX@ + hex16(clock),
{
    let mut s: String = owned(TMP_PREFIX);
    push_hex16(&mut s, clock);
    s
}

/// The name under which a rollback sets a version aside, from a clock reading.
pub fn aside_name(clock: u64) -> (r: String)
    ensures
        r@ == TMP_PREFIX@ + "rb-"@ + hex16(clock),
{
    let mut s: String = owned(TMP_PREFIX);
    s.append("rb-");
    push_hex16(&mut s, clock);
    s
}

/// The registered version, if the registry has one that can be read.
pub fn registered_version(text: &Option<String>) -> (r: Option<Version>)
    ensures
        match r {
            Some(v) => opt_text(*text) == Some(v@) && semver_ok(v@),
            None => opt_text(*text) matches Some(t) ==> !semver_ok(t),
        },
{
    match text {
        Some(t) => Version::parse(t.as_str()),
        None => None,
    }
}

/// The version, if there is one.
pub open spec fn opt_version(v: Option<Version>) -> Option<Seq<char>> {
    match v {
        Some(v) => Some(v@),
        None => None,
    }
}

/// The installation goes back to a version before the registered one.
pub open spec fn is_downgrade(new: Seq<char>, old: Option<Seq<char>>) -> bool {
    old matches Some(o) && semver_less(new, o)
}

/// The changes before the registry is told. `new_there` tells whether the
/// directory of the new version is there already; `old` is the directory of
/// another registered version, if it is there.
pub open spec fn link_steps(
    staging: Seq<char>,
    new: Seq<char>,
    new_there: bool,
    old: Option<Seq<char>>,
) -> Seq<Step> {
    let clear = if new_there {
        seq![Step::Remove(new)]
    } else {
        seq![]
    };
    let aside = match old {
        Some(o) => seq![Step::ClearTrash, Step::Trash(o)],
        None => seq![],
    };
    clear.push(Step::Rename(staging, new)) + aside.push(Step::Point(new))
}

/// The changes that install a verified extraction, unless that would be a
/// downgrade that is not allowed. `new_there` and `old_there` tell whether the
/// directories of the new and of the registered version are there.
pub fn commit_plan(
    verified: &Verified,
    staging: &str,
    version: &Version,
    old: &Option<Version>,
    allow_downgrade: bool,
    new_there: bool,
    old_there: bool,
) -> (r: Res<Vec<FsStep>>)
    ensures
        verdict(verified.seen()) is Ok,
        r is Ok <==> allow_downgrade || !is_downgrade(version@, opt_version(*old)),
        r is Err ==> fails(
            r,
            ErrorView::InvalidPackage("downgrade no permitido (InstallOpts::allow_downgrade)"@),
        ),
        r matches Ok(steps) ==> steps_view(steps@) == link_steps(
            staging@,
            version_dir(version@),
            new_there,
            match opt_version(*old) {
                Some(o) => if o != version@ && old_there {
                    Some(version_dir(o))
                } else {
                    None
                },
                None => None,
            },
        ),
{
    verified.rely();
    match old {
        Some(o) => {
            if version.is_before(o) && !allow_downgrade {
                return Err(
                    ArcaError::InvalidPackage(
                        "downgrade no permitido (InstallOpts::allow_downgrade)",
                    ),
                );
            }
        },
        None => {},
    }
    let new: String = version_dir_name(version.as_str());
    let mut out: Vec<FsStep> = Vec::new();
    assert(steps_view(out@) =~= Seq::empty());
    if new_there {
        push_step(&mut out, FsStep::Remove(owned(new.as_str())));
    }
    push_step(&mut out, FsStep::Rename(owned(staging), owned(new.as_str())));
    match old {
        Some(o) => {
            if !o.is_same(version) && old_there {
                push_step(&mut out, FsStep::ClearTrash);
                push_step(&mut out, FsStep::Trash(version_dir_name(o.as_str())));
            }
        },
        None => {},
    }
    push_step(&mut out, FsStep::Point(new));
    assert(steps_view(out@) =~= link_steps(
        staging@,
        version_dir(version@),
        new_there,
        match opt_version(*old) {
            Some(o) => if o != version@ && old_there {
                Some(version_dir(o))
            } else {
                None
            },
            None => None,
        },
    ));
    Ok(out)
}

/// The changes that undo an installation when the registry refuses it.
pub open spec fn unlink_steps(staging: Seq<char>, new: Seq<char>, trashed: Option<Seq<char>>) -> Seq<
    Step,
> {
    match trashed {
        Some(o) => seq![
            Step::Rename(new, staging),
            Step::Untrash(o),
            Step::Point(o),
            Step::Remove(staging),
        ],
        None => seq![Step::Rename(new, staging), Step::Remove(staging)],
    }
}

/// The changes that undo an installation. `trashed` is the directory of the
/// registered version, if it is in the trash.
pub fn revert_plan(staging: &str, version: &Version, trashed: &Option<String>) -> (r: Vec<FsStep>)
    ensures
        steps_view(r@) == unlink_steps(staging@, version_dir(version@), opt_text(*trashed)),
{
    let mut out: Vec<FsStep> = Vec::new();
    assert(steps_view(out@) =~= Seq::empty());
    push_step(&mut out, FsStep::Rename(version_dir_name(version.as_str()), owned(staging)));
    match trashed {
        Some(o) => {
            push_step(&mut out, FsStep::Untrash(owned(o.as_str())));
            push_step(&mut out, FsStep::Point(owned(o.as_str())));
        },
        None => {},
    }
    push_step(&mut out, FsStep::Remove(owned(staging)));
    assert(steps_view(out@) =~= unlink_steps(
        staging@,
        version_dir(version@),
        opt_text(*trashed),
    ));
    out
}

/// What came of an installation: installing the registered version again is no
/// update.
pub fn outcome(app: &AppId, old: &Option<Version>, version: &Version) -> (r: InstallOutcome)
    ensures
        r@ == (match opt_version(*old) {
            Some(o) => if o != version@ {
                OutcomeView::Updated(app@, o, version@)
            } else {
                OutcomeView::Installed(app@, version@)
            },
            None => OutcomeView::Installed(app@, version@),
        }),
{
    match old {
        Some(o) => {
            if !o.is_same(version) {
                return InstallOutcome::Updated {
                    app: app.clone(),
                    from: o.duplicate(),
                    to: version.duplicate(),
                };
            }
        },
        None => {},
    }
    InstallOutcome::Installed { app: app.clone(), version: version.duplicate() }
}

/// The entry is an extraction.
pub open spec fn is_tmp(name: Seq<char>) -> bool {
    TMP_PREFIX@.is_prefix_of(name)
}

/// The entry has the name of a version directory.
pub open spec fn names_version(name: Seq<char>) -> bool {
    name.len() > 1 && name[0] == 'v' && semver_ok(name.skip(1))
}

/// What a sweep knows of the directory of an application.
pub struct SweepFacts {
    /// Where the link points, if it is a link.
    pub current: Option<String>,
    /// The link points to a directory that is there.
    pub healthy: bool,
    /// The version in the trash, if there is one.
    pub trashed: Option<String>,
    /// The registered version, if the application is registered.
    pub registered: Option<String>,
}

/// The facts, with texts as character sequences.
pub struct FactsView {
    pub current: Option<Seq<char>>,
    pub healthy: bool,
    pub trashed: Option<Seq<char>>,
    pub registered: Option<Seq<char>>,
}

impl View for SweepFacts {
    type V = FactsView;

    open spec fn view(&self) -> FactsView {
        FactsView {
            current: opt_text(self.current),
            healthy: self.healthy,
            trashed: opt_text(self.trashed),
            registered: opt_text(self.registered),
        }
    }
}

/// The directory that a broken link is to point to: that of the registered
/// version.
pub open spec fn wanted_dir(f: FactsView) -> Option<Seq<char>> {
    if f.healthy {
        None
    } else {
        match f.registered {
            Some(v) => if semver_ok(v) {
                Some(version_dir(v))
            } else {
                None
            },
            None => None,
        }
    }
}

/// A version directory that nothing refers to.
pub open spec fn dangling(name: Seq<char>, is_dir: bool, f: FactsView) -> bool {
    names_version(name) && f.current != Some(name) && f.trashed != Some(name) && wanted_dir(f)
        != Some(name) && is_dir
}

/// The entries of a directory, and whether each is a directory.
pub open spec fn entries_view(entries: Seq<(String, bool)>) -> Seq<(Seq<char>, bool)> {
    entries.map_values(|e: (String, bool)| (e.0@, e.1))
}

/// The extractions among the entries.
pub open spec fn tmp_names(entries: Seq<(Seq<char>, bool)>) -> Seq<Seq<char>>
    decreases entries.len(),
{
    if entries.len() == 0 {
        Seq::empty()
    } else {
        let rest = tmp_names(entries.drop_last());
        if is_tmp(entries.last().0) {
            rest.push(entries.last().0)
        } else {
            rest
        }
    }
}

/// The versions among the entries that nothing refers to.
pub open spec fn dangling_names(entries: Seq<(Seq<char>, bool)>, f: FactsView) -> Seq<Seq<char>>
    decreases entries.len(),
{
    if entries.len() == 0 {
        Seq::empty()
    } else {
        let rest = dangling_names(entries.drop_last(), f);
        if dangling(entries.last().0, entries.last().1, f) {
            rest.push(entries.last().0)
        } else {
            rest
        }
    }
}

/// The changes of a sweep: extractions go, versions that nothing refers to go,
/// and a broken link is pointed to the registered version if that is there.
pub open spec fn sweep_steps(entries: Seq<(Seq<char>, bool)>, f: FactsView) -> Seq<Step> {
    let cleared = removals(tmp_names(entries)) + removals(dangling_names(entries, f));
    match wanted_dir(f) {
        Some(d) => if entries.contains((d, true)) {
            cleared.push(Step::Point(d))
        } else {
            cleared
        },
        None => cleared,
    }
}

fn text_is(a: &Option<String>, b: &str) -> (r: bool)
    ensures
        r == (opt_text(*a) == Some(b@)),
{
    match a {
        Some(s) => str_eq(s.as_str(), b),
        None => false,
    }
}

fn is_version_name(name: &str) -> (r: bool)
    ensures
        r == names_version(name@),
{
    let c: Vec<char> = to_chars(name);
    let n: usize = c.len();
    if n <= 1 || c[0] != 'v' {
        return false;
    }
    assert(c@.subrange(1, n as int) =~= name@.skip(1));
    let rest: String = from_chars(&c, 1, n);
    Version::parse(rest.as_str()).is_some()
}

fn wanted(f: &SweepFacts) -> (r: Option<String>)
    ensures
        opt_text(r) == wanted_dir(f@),
{
    if f.healthy {
        return None;
    }
    match &f.registered {
        Some(text) => match Version::parse(text.as_str()) {
            Some(v) => Some(version_dir_name(v.as_str())),
            None => None,
        },
        None => None,
    }
}

/// Brings the directory of an application in order. Every change counts as a
/// repair.
pub fn sweep_plan(entries: &Vec<(String, bool)>, f: &SweepFacts) -> (r: Vec<FsStep>)
    ensures
        steps_view(r@) == sweep_steps(entries_view(entries@), f@),
{
    let ghost view = entries_view(entries@);
    let want: Option<String> = wanted(f);
    let mut out: Vec<FsStep> = Vec::new();
    let mut i: usize = 0;
    assert(steps_view(out@) =~= removals(tmp_names(view.take(0))));
    while i < entries.len()
        invariant
            i <= entries@.len(),
            view == entries_view(entries@),
            steps_view(out@) == removals(tmp_names(view.take(i as int))),
        decreases entries@.len() - i,
    {
        assert(view.take(i + 1).drop_last() =~= view.take(i as int));
        assert(view.take(i + 1).last() == (entries@[i as int].0@, entries@[i as int].1));
        let name: &str = entries[i].0.as_str();
        if has_prefix(name, TMP_PREFIX) {
            push_step(&mut out, FsStep::Remove(owned(name)));
            assert(steps_view(out@) =~= removals(tmp_names(view.take(i as int)).push(name@)));
        }
        i += 1;
    }
    assert(view.take(i as int) =~= view);
    let ghost first = removals(tmp_names(view));
    let mut target_there: bool = false;
    let mut j: usize = 0;
    assert(steps_view(out@) =~= first + removals(dangling_names(view.take(0), f@)));
    while j < entries.len()
        invariant
            j <= entries@.len(),
            view == entries_view(entries@),
            opt_text(want) == wanted_dir(f@),
            steps_view(out@) == first + removals(dangling_names(view.take(j as int), f@)),
            target_there == (wanted_dir(f@) matches Some(d) && view.take(j as int).contains(
                (d, true),
            )),
        decreases entries@.len() - j,
    {
        let ghost before = view.take(j as int);
        let ghost after = view.take(j + 1);
        assert(after.drop_last() =~= before);
        assert(after.last() == (entries@[j as int].0@, entries@[j as int].1));
        let name: &str = entries[j].0.as_str();
        let is_dir: bool = entries[j].1;
        let is_target: bool = text_is(&want, name);
        if is_version_name(name) && !text_is(&f.current, name) && !text_is(&f.trashed, name)
            && !is_target && is_dir {
            push_step(&mut out, FsStep::Remove(owned(name)));
            assert(steps_view(out@) =~= first + removals(dangling_names(before, f@).push(name@)));
        }
        proof {
            if wanted_dir(f@) is Some {
                let x = (wanted_dir(f@)->0, true);
                if before.contains(x) {
                    let k = choose|k: int| 0 <= k < before.len() && before[k] == x;
                    assert(after[k] == x);
                }
                if after.contains(x) {
                    let k = choose|k: int| 0 <= k < after.len() && after[k] == x;
                    if k < j {
                        assert(before[k] == x);
                    }
                }
                if name@ == x.0 && is_dir {
                    assert(after[j as int] == x);
                }
            }
        }
        if is_target && is_dir {
            target_there = true;
        }
        j += 1;
    }
    assert(view.take(j as int) =~= view);
    match want {
        Some(d) => {
            if target_there {
                push_step(&mut out, FsStep::Point(d));
            }
        },
        None => {},
    }
    out
}

/// The name without the letters `v` that it starts with.
pub open spec fn without_v(name: Seq<char>) -> Seq<char>
    decreases name.len(),
{
    if name.len() > 0 && name[0] == 'v' {
        without_v(name.skip(1))
    } else {
        name
    }
}

fn strip_v(name: &str) -> (r: String)
    ensures
        r@ == without_v(name@),
{
    let c: Vec<char> = to_chars(name);
    let n: usize = c.len();
    let mut i: usize = 0;
    assert(name@.skip(0) =~= name@);
    while i < n && c[i] == 'v'
        invariant
            i <= n,
            n == c@.len(),
            c@ == name@,
            without_v(name@.skip(i as int)) == without_v(name@),
        decreases n - i,
    {
        assert(name@.skip(i as int).skip(1) =~= name@.skip(i + 1));
        i += 1;
    }
    assert(c@.subrange(i as int, n as int) =~= name@.skip(i as int));
    from_chars(&c, i, n)
}

/// The version to go back to, from what the trash holds: nothing, a directory
/// whose name cannot be read, or a directory.
pub fn rollback_version(found: &Option<Option<String>>) -> (r: Res<Version>)
    ensures
        match *found {
            None => fails(
                r,
                ErrorView::InvalidPackage("rollback: sin versión previa en .trash"@),
            ),
            Some(None) => fails(
                r,
                ErrorView::Internal("rollback: nombre de versión ilegible"@),
            ),
            Some(Some(name)) => if semver_ok(without_v(name@)) {
                r matches Ok(v) && v@ == without_v(name@) && begins_with_digit(v@)
            } else {
                fails(r, ErrorView::Internal("rollback: versión previa no parsea"@))
            },
        },
{
    match found {
        None => Err(ArcaError::InvalidPackage("rollback: sin versión previa en .trash")),
        Some(None) => Err(ArcaError::Internal("rollback: nombre de versión ilegible")),
        Some(Some(name)) => match Version::parse(strip_v(name.as_str()).as_str()) {
            Some(v) => Ok(v),
            None => Err(ArcaError::Internal("rollback: versión previa no parsea")),
        },
    }
}

/// The changes of a rollback: the version before is set aside, the active one
/// goes to the trash, and the one before takes its place.
pub open spec fn rollback_steps(
    prev: Seq<char>,
    aside: Seq<char>,
    active: Option<Seq<char>>,
    target: Seq<char>,
) -> Seq<Step> {
    let swap = match active {
        Some(a) => seq![Step::UntrashAs(prev, aside), Step::ClearTrash, Step::Trash(a)],
        None => seq![Step::UntrashAs(prev, aside)],
    };
    swap.push(Step::Rename(aside, target)).push(Step::Point(target))
}

/// The changes of a rollback. `prev` is the directory in the trash, `active`
/// the target of the link, if it can be read.
pub fn rollback_plan(prev: &str, aside: &str, active: &Option<String>, version: &Version) -> (r: Vec<
    FsStep,
>)
    ensures
        steps_view(r@) == rollback_steps(
            prev@,
            aside@,
            opt_text(*active),
            version_dir(version@),
        ),
{
    let mut out: Vec<FsStep> = Vec::new();
    assert(steps_view(out@) =~= Seq::empty());
    push_step(&mut out, FsStep::UntrashAs(owned(prev), owned(aside)));
    match active {
        Some(a) => {
            push_step(&mut out, FsStep::ClearTrash);
            push_step(&mut out, FsStep::Trash(owned(a.as_str())));
        },
        None => {},
    }
    push_step(&mut out, FsStep::Rename(owned(aside), version_dir_name(version.as_str())));
    push_step(&mut out, FsStep::Point(version_dir_name(version.as_str())));
    assert(steps_view(out@) =~= rollback_steps(
        prev@,
        aside@,
        opt_text(*active),
        version_dir(version@),
    ));
    out
}

proof fn lemma_tmp_names(entries: Seq<(Seq<char>, bool)>, n: Seq<char>)
    ensures
        tmp_names(entries).contains(n) <==> is_tmp(n) && (entries.contains((n, true))
            || entries.contains((n, false))),
    decreases entries.len(),
{
    if entries.len() > 0 {
        let rest = entries.drop_last();
        let sub = tmp_names(rest);
        let out = tmp_names(entries);
        lemma_tmp_names(rest, n);
        lemma_contains_last(entries, (n, true));
        lemma_contains_last(entries, (n, false));
        if out != sub {
            lemma_contains_push(sub, entries.last().0, n);
        }
        assert(entries.last() == (entries.last().0, entries.last().1));
    }
}

proof fn lemma_dangling_names(entries: Seq<(Seq<char>, bool)>, f: FactsView, n: Seq<char>)
    ensures
        dangling_names(entries, f).contains(n) <==> entries.contains((n, true)) && dangling(
            n,
            true,
            f,
        ),
    decreases entries.len(),
{
    if entries.len() > 0 {
        let rest = entries.drop_last();
        let sub = dangling_names(rest, f);
        let out = dangling_names(entries, f);
        lemma_dangling_names(rest, f, n);
        lemma_contains_last(entries, (n, true));
        if out != sub {
            lemma_contains_push(sub, entries.last().0, n);
        }
        assert(entries.last() == (entries.last().0, entries.last().1));
    }
}

proof fn lemma_contains_last<A>(s: Seq<A>, x: A)
    requires
        s.len() > 0,
    ensures
        s.contains(x) <==> s.drop_last().contains(x) || s.last() == x,
{
    let rest = s.drop_last();
    if s.contains(x) && s.last() != x {
        let i = choose|i: int| 0 <= i < s.len() && s[i] == x;
        assert(rest[i] == x);
    }
    if rest.contains(x) {
        let i = choose|i: int| 0 <= i < rest.len() && rest[i] == x;
        assert(s[i] == x);
    }
    assert(s[s.len() - 1] == s.last());
}

proof fn lemma_contains_push<A>(s: Seq<A>, y: A, x: A)
    ensures
        s.push(y).contains(x) <==> s.contains(x) || y == x,
{
    lemma_contains_last(s.push(y), x);
    assert(s.push(y).drop_last() =~= s);
}

/// `entries` lists a directory all of whose entries are directories.
pub open spec fn lists_dirs(entries: Seq<(Seq<char>, bool)>, t: Tree) -> bool {
    forall|n: Seq<char>, d: bool| #[trigger]
        entries.contains((n, d)) <==> d && t.dirs.contains(n)
}

proof fn lemma_tmp_is_no_version(n: Seq<char>)
    ensures
        !(is_tmp(n) && n.len() > 0 && n[0] == 'v'),
{
    reveal_strlit(".tmp-");
    if is_tmp(n) {
        assert(TMP_PREFIX@[0] == n[0]);
    }
}

/// What a sweep makes of a directory.
pub proof fn lemma_swept(t: Tree, entries: Seq<(Seq<char>, bool)>, f: FactsView)
    requires
        lists_dirs(entries, t),
    ensures
        ({
            let after = run(t, sweep_steps(entries, f));
            &&& forall|n: Seq<char>| #[trigger]
                after.dirs.contains(n) <==> t.dirs.contains(n) && !is_tmp(n) && !dangling(
                    n,
                    true,
                    f,
                )
            &&& after.trash == t.trash
            &&& after.current == (match wanted_dir(f) {
                Some(d) => if t.dirs.contains(d) {
                    Some(d)
                } else {
                    t.current
                },
                None => t.current,
            })
        }),
{
    let tmp = tmp_names(entries);
    let gone = dangling_names(entries, f);
    let mid = run(t, removals(tmp));
    lemma_removals(t, tmp);
    lemma_removals(mid, gone);
    lemma_run_concat(t, removals(tmp), removals(gone));
    let cleared = removals(tmp) + removals(gone);
    let swept = run(t, cleared);
    assert forall|n: Seq<char>| #[trigger]
        swept.dirs.contains(n) <==> t.dirs.contains(n) && !is_tmp(n) && !dangling(n, true, f) by {
        lemma_tmp_names(entries, n);
        lemma_dangling_names(entries, f, n);
        assert(entries.contains((n, true)) == t.dirs.contains(n));
        assert(!entries.contains((n, false)));
    }
    match wanted_dir(f) {
        Some(d) => {
            assert(entries.contains((d, true)) == t.dirs.contains(d));
            if t.dirs.contains(d) {
                lemma_run_push(t, cleared, Step::Point(d));
            }
        },
        None => {},
    }
}

/// A fresh installation that a crash hits before the link is set leaves
/// nothing behind after the next sweep: no extraction, and no version.
pub proof fn law_crash_during_first_install_leaves_nothing(
    t: Tree,
    staging: Seq<char>,
    new: Seq<char>,
    done: int,
    entries: Seq<(Seq<char>, bool)>,
)
    requires
        forall|n: Seq<char>| #[trigger] t.dirs.contains(n) <==> n == staging,
        t.current is None,
        is_tmp(staging),
        names_version(new),
        0 <= done < link_steps(staging, new, false, None).len(),
        lists_dirs(entries, run(t, link_steps(staging, new, false, None).take(done))),
    ensures
        ({
            let crashed = run(t, link_steps(staging, new, false, None).take(done));
            let f = FactsView { current: None, healthy: false, trashed: None, registered: None };
            forall|n: Seq<char>| !(#[trigger] run(crashed, sweep_steps(entries, f)).dirs.contains(n))
        }),
{
    let steps = link_steps(staging, new, false, None);
    assert(steps =~= seq![Step::Rename(staging, new), Step::Point(new)]);
    assert(steps.take(0) =~= Seq::<Step>::empty());
    assert(steps.take(1) =~= seq![Step::Rename(staging, new)]);
    lemma_run_few(t, Step::Rename(staging, new), Step::ClearTrash, Step::ClearTrash);
    let crashed = run(t, steps.take(done));
    let f = FactsView { current: None, healthy: false, trashed: None, registered: None };
    lemma_swept(crashed, entries, f);
}

/// An update that a crash hits before the version before is moved is undone
/// by the next sweep: the active version stays, and the new one is gone.
pub proof fn law_crash_early_in_update_is_undone(
    t: Tree,
    staging: Seq<char>,
    new: Seq<char>,
    old: Seq<char>,
    trashed: Option<Seq<char>>,
    done: int,
    entries: Seq<(Seq<char>, bool)>,
)
    requires
        t.dirs.contains(old),
        t.dirs.contains(staging),
        !t.dirs.contains(new),
        t.current == Some(old),
        is_tmp(staging),
        names_version(new),
        names_version(old),
        new != old,
        trashed != Some(new),
        0 <= done <= 2,
        lists_dirs(entries, run(t, link_steps(staging, new, false, Some(old)).take(done))),
    ensures
        ({
            let crashed = run(t, link_steps(staging, new, false, Some(old)).take(done));
            let f = FactsView {
                current: Some(old),
                healthy: true,
                trashed,
                registered: Some(old.skip(1)),
            };
            let after = run(crashed, sweep_steps(entries, f));
            &&& after.dirs.contains(old)
            &&& after.current == Some(old)
            &&& !after.dirs.contains(new)
            &&& !after.dirs.contains(staging)
        }),
{
    let steps = link_steps(staging, new, false, Some(old));
    assert(steps =~= seq![
        Step::Rename(staging, new),
        Step::ClearTrash,
        Step::Trash(old),
        Step::Point(new),
    ]);
    assert(steps.take(0) =~= Seq::<Step>::empty());
    assert(steps.take(1) =~= seq![Step::Rename(staging, new)]);
    assert(steps.take(2) =~= seq![Step::Rename(staging, new), Step::ClearTrash]);
    lemma_run_few(t, Step::Rename(staging, new), Step::ClearTrash, Step::ClearTrash);
    let crashed = run(t, steps.take(done));
    let f = FactsView {
        current: Some(old),
        healthy: true,
        trashed,
        registered: Some(old.skip(1)),
    };
    lemma_tmp_is_no_version(old);
    lemma_tmp_is_no_version(staging);
    lemma_swept(crashed, entries, f);
}

/// A link that is broken or missing is pointed to the registered version, if
/// its directory is there; the sweep does not remove that directory.
pub proof fn law_broken_link_is_mended(
    t: Tree,
    entries: Seq<(Seq<char>, bool)>,
    f: FactsView,
    version: Seq<char>,
)
    requires
        lists_dirs(entries, t),
        !f.healthy,
        f.registered == Some(version),
        semver_ok(version),
        t.dirs.contains(version_dir(version)),
    ensures
        run(t, sweep_steps(entries, f)).current == Some(version_dir(version)),
        run(t, sweep_steps(entries, f)).dirs.contains(version_dir(version)),
{
    reveal_strlit("v");
    assert(version_dir(version)[0] == 'v');
    lemma_tmp_is_no_version(version_dir(version));
    lemma_swept(t, entries, f);
}

/// A sweep that follows a sweep finds no extraction and no stray version.
pub proof fn law_second_sweep_removes_nothing(
    t: Tree,
    entries: Seq<(Seq<char>, bool)>,
    f: FactsView,
    again: Seq<(Seq<char>, bool)>,
)
    requires
        lists_dirs(entries, t),
        lists_dirs(again, run(t, sweep_steps(entries, f))),
    ensures
        tmp_names(again).len() == 0,
        dangling_names(again, f).len() == 0,
{
    lemma_swept(t, entries, f);
    let after = run(t, sweep_steps(entries, f));
    if tmp_names(again).len() > 0 {
        let n = tmp_names(again)[0];
        assert(tmp_names(again).contains(n));
        lemma_tmp_names(again, n);
        assert(after.dirs.contains(n));
    }
    if dangling_names(again, f).len() > 0 {
        let n = dangling_names(again, f)[0];
        assert(dangling_names(again, f).contains(n));
        lemma_dangling_names(again, f, n);
        assert(after.dirs.contains(n));
    }
}

/// What undoing an installation makes of the directory, where the version
/// before was moved to the trash.
proof fn lemma_update_undone(t: Tree, staging: Seq<char>, new: Seq<char>, old: Seq<char>)
    requires
        t.dirs.contains(old),
        t.dirs.contains(staging),
        staging != old,
        staging != new,
        old != new,
    ensures
        ({
            let there = t.dirs.contains(new);
            let after = run(
                run(t, link_steps(staging, new, there, Some(old))),
                unlink_steps(staging, new, Some(old)),
            );
            &&& after.dirs == t.dirs.remove(staging).remove(new)
            &&& after.trash == Set::<Seq<char>>::empty()
            &&& after.current == Some(old)
        }),
{
    let there = t.dirs.contains(new);
    let steps = link_steps(staging, new, there, Some(old));
    let first = if there {
        seq![Step::Remove(new)]
    } else {
        seq![]
    };
    let few = seq![Step::Rename(staging, new), Step::ClearTrash, Step::Trash(old)];
    assert(steps =~= first + few.push(Step::Point(new)));
    lemma_run_concat(t, first, few.push(Step::Point(new)));
    lemma_run_few(t, Step::Remove(new), Step::ClearTrash, Step::ClearTrash);
    let cleared = run(t, first);
    lemma_run_push(cleared, few, Step::Point(new));
    lemma_run_few(cleared, Step::Rename(staging, new), Step::ClearTrash, Step::Trash(old));
    let mid = run(t, steps);
    let back = seq![Step::Rename(new, staging), Step::Untrash(old), Step::Point(old)];
    assert(unlink_steps(staging, new, Some(old)) =~= back.push(Step::Remove(staging)));
    lemma_run_push(mid, back, Step::Remove(staging));
    lemma_run_few(mid, Step::Rename(new, staging), Step::Untrash(old), Step::Point(old));
    let after = run(mid, unlink_steps(staging, new, Some(old)));
    assert(after.dirs =~= t.dirs.remove(staging).remove(new));
    assert(after.trash =~= Set::<Seq<char>>::empty());
}

/// An update that the registry refuses leaves the link and the versions as they
/// were: only the extraction is gone, and what was there under the name of the
/// new version.
pub proof fn law_revert_restores_versions_and_link(
    t: Tree,
    staging: Seq<char>,
    new: Seq<char>,
    old: Seq<char>,
)
    requires
        t.dirs.contains(old),
        t.dirs.contains(staging),
        t.current == Some(old),
        staging != old,
        staging != new,
        old != new,
    ensures
        ({
            let after = run(
                run(t, link_steps(staging, new, t.dirs.contains(new), Some(old))),
                unlink_steps(staging, new, Some(old)),
            );
            &&& after.dirs == t.dirs.remove(staging).remove(new)
            &&& after.current == t.current
        }),
        !t.dirs.contains(new) ==> t.dirs.remove(staging).remove(new) == t.dirs.remove(staging),
{
    lemma_update_undone(t, staging, new, old);
    if !t.dirs.contains(new) {
        assert(t.dirs.remove(staging).remove(new) =~= t.dirs.remove(staging));
    }
}

/// What undoing an installation makes of the directory, where no version was
/// moved to the trash.
proof fn lemma_install_undone(t: Tree, staging: Seq<char>, new: Seq<char>)
    requires
        t.dirs.contains(staging),
        staging != new,
    ensures
        run(
            run(t, link_steps(staging, new, t.dirs.contains(new), None)),
            unlink_steps(staging, new, None),
        ) == (Tree {
            dirs: t.dirs.remove(staging).remove(new),
            trash: t.trash,
            current: Some(new),
        }),
{
    let there = t.dirs.contains(new);
    let steps = link_steps(staging, new, there, None);
    let first = if there {
        seq![Step::Remove(new)]
    } else {
        seq![]
    };
    let few = seq![Step::Rename(staging, new), Step::Point(new)];
    assert(steps =~= first + few);
    lemma_run_concat(t, first, few);
    lemma_run_few(t, Step::Remove(new), Step::ClearTrash, Step::ClearTrash);
    let cleared = run(t, first);
    lemma_run_few(cleared, Step::Rename(staging, new), Step::Point(new), Step::ClearTrash);
    let mid = run(t, steps);
    assert(unlink_steps(staging, new, None) =~= seq![
        Step::Rename(new, staging),
        Step::Remove(staging),
    ]);
    lemma_run_few(mid, Step::Rename(new, staging), Step::Remove(staging), Step::ClearTrash);
    assert(run(mid, unlink_steps(staging, new, None)).dirs =~= t.dirs.remove(staging).remove(new));
}

/// A first installation that the registry refuses leaves the versions as they
/// were, and only the extraction is gone. The link was set and stays: it points
/// to a version that is not there.
pub proof fn law_refused_first_install_leaves_a_dangling_link(
    t: Tree,
    staging: Seq<char>,
    new: Seq<char>,
)
    requires
        t.dirs.contains(staging),
        !t.dirs.contains(new),
        staging != new,
    ensures
        ({
            let after = run(
                run(t, link_steps(staging, new, false, None)),
                unlink_steps(staging, new, None),
            );
            &&& after.dirs == t.dirs.remove(staging)
            &&& after.trash == t.trash
            &&& after.current == Some(new)
            &&& !after.dirs.contains(new)
        }),
{
    lemma_install_undone(t, staging, new);
    assert(t.dirs.remove(staging).remove(new) =~= t.dirs.remove(staging));
}

/// Installing a version again that is there replaces its directory before the
/// registry is told. If the registry then refuses, that version is gone; the
/// other versions and the trash are as they were.
pub proof fn law_refused_reinstall_loses_the_version(t: Tree, staging: Seq<char>, new: Seq<char>)
    requires
        t.dirs.contains(staging),
        t.dirs.contains(new),
        staging != new,
    ensures
        ({
            let after = run(
                run(t, link_steps(staging, new, true, None)),
                unlink_steps(staging, new, None),
            );
            &&& after.dirs == t.dirs.remove(staging).remove(new)
            &&& after.trash == t.trash
            &&& after.current == Some(new)
            &&& !after.dirs.contains(new)
        }),
{
    lemma_install_undone(t, staging, new);
}

/// A rollback swaps the two versions: the one before is active, and the one
/// that was active is the way back.
pub proof fn law_rollback_swaps_the_versions(
    t: Tree,
    prev: Seq<char>,
    aside: Seq<char>,
    active: Seq<char>,
)
    requires
        t.dirs.contains(active),
        !t.dirs.contains(aside),
        aside != active,
        aside != prev,
        t.current == Some(active),
    ensures
        run(t, rollback_steps(prev, aside, Some(active), prev)) == (Tree {
            dirs: t.dirs.remove(active).insert(prev),
            trash: Set::empty().insert(active),
            current: Some(prev),
        }),
{
    let few = seq![Step::UntrashAs(prev, aside), Step::ClearTrash, Step::Trash(active)];
    let steps = rollback_steps(prev, aside, Some(active), prev);
    assert(steps =~= few.push(Step::Rename(aside, prev)).push(Step::Point(prev)));
    lemma_run_few(t, Step::UntrashAs(prev, aside), Step::ClearTrash, Step::Trash(active));
    lemma_run_push(t, few, Step::Rename(aside, prev));
    lemma_run_push(t, few.push(Step::Rename(aside, prev)), Step::Point(prev));
    assert(run(t, steps) =~= (Tree {
        dirs: t.dirs.remove(active).insert(prev),
        trash: Set::empty().insert(active),
        current: Some(prev),
    }));
}

/// The directory of a version names that version: no version begins with the
/// letter that its directory begins with.
pub proof fn law_directory_names_its_version(version: Seq<char>)
    requires
        begins_with_digit(version),
    ensures
        without_v(version_dir(version)) == version,
{
    reveal_strlit("v");
    let dir = version_dir(version);
    assert(dir[0] == 'v');
    assert(dir.skip(1) =~= version);
    reveal_with_fuel(without_v, 2);
}

/// Going back twice is where one started. The first rollback makes the version
/// in the trash active and puts the other one there; the second finds that one
/// and makes it active again.
pub proof fn law_rollback_twice_is_where_one_started(
    t: Tree,
    prev: Seq<char>,
    active: Seq<char>,
    aside: Seq<char>,
    aside_again: Seq<char>,
)
    requires
        begins_with_digit(prev),
        begins_with_digit(active),
        prev != active,
        t.current == Some(version_dir(active)),
        t.dirs.contains(version_dir(active)),
        !t.dirs.contains(version_dir(prev)),
        t.trash == Set::empty().insert(version_dir(prev)),
        is_tmp(aside),
        is_tmp(aside_again),
        !t.dirs.contains(aside),
        !t.dirs.contains(aside_again),
    ensures
        ({
            let (p, a) = (version_dir(prev), version_dir(active));
            let once = run(t, rollback_steps(p, aside, Some(a), version_dir(without_v(p))));
            let twice = run(
                once,
                rollback_steps(a, aside_again, Some(p), version_dir(without_v(a))),
            );
            &&& without_v(p) == prev
            &&& once.current == Some(p)
            &&& once.trash == Set::empty().insert(a)
            &&& once.dirs == t.dirs.remove(a).insert(p)
            &&& without_v(a) == active
            &&& twice == t
        }),
{
    reveal_strlit("v");
    let p = version_dir(prev);
    let a = version_dir(active);
    assert(p[0] == 'v' && a[0] == 'v');
    lemma_tmp_is_no_version(p);
    lemma_tmp_is_no_version(a);
    law_directory_names_its_version(prev);
    law_directory_names_its_version(active);
    if p == a {
        law_versions_have_their_own_directories(prev, active);
    }
    law_rollback_swaps_the_versions(t, p, aside, a);
    let once = run(t, rollback_steps(p, aside, Some(a), p));
    law_rollback_swaps_the_versions(once, a, aside_again, p);
    let twice = run(once, rollback_steps(a, aside_again, Some(p), a));
    assert(twice.dirs =~= t.dirs);
    assert(twice =~= t);
}

} // verus!
