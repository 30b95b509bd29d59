//! The directory of an application, and the steps that change it.
//!
//! An application has a directory with one subdirectory per version, a place
//! for the version before (`.trash`), extractions that are under way, and, where
//! versions are switched by a link, the link `current`.
use vstd::prelude::*;

use crate::text::{owned, str_eq};

verus! {

/// Name of the place for the version before.
pub const TRASH_DIR: &'static str = ".trash";

/// Name of the link to the active version.
pub const CURRENT: &'static str = "current";

/// What the name of a version directory starts with.
pub const VERSION_PREFIX: &'static str = "v";

/// One change to the directory of an application.
#[derive(Debug, PartialEq, Eq)]
pub enum FsStep {
    /// Removes an entry with everything in it.
    Remove(String),
    /// Gives an entry another name.
    Rename(String, String),
    /// Moves an entry to the trash.
    Trash(String),
    /// Moves an entry of the trash back.
    Untrash(String),
    /// Moves an entry of the trash back under another name.
    UntrashAs(String, String),
    /// Removes an entry of the trash.
    DropTrashed(String),
    /// Empties the trash.
    ClearTrash,
    /// Points the link to the active version.
    Point(String),
}

/// A change, with names as character sequences.
pub enum Step {
    Remove(Seq<char>),
    Rename(Seq<char>, Seq<char>),
    Trash(Seq<char>),
    Untrash(Seq<char>),
    UntrashAs(Seq<char>, Seq<char>),
    DropTrashed(Seq<char>),
    ClearTrash,
    Point(Seq<char>),
}

impl View for FsStep {
    type V = Step;

    open spec fn view(&self) -> Step {
        match *self {
            FsStep::Remove(n) => Step::Remove(n@),
            FsStep::Rename(a, b) => Step::Rename(a@, b@),
            FsStep::Trash(n) => Step::Trash(n@),
            FsStep::Untrash(n) => Step::Untrash(n@),
            FsStep::UntrashAs(a, b) => Step::UntrashAs(a@, b@),
            FsStep::DropTrashed(n) => Step::DropTrashed(n@),
            FsStep::ClearTrash => Step::ClearTrash,
            FsStep::Point(n) => Step::Point(n@),
        }
    }
}

/// The changes, with names as character sequences.
pub open spec fn steps_view(steps: Seq<FsStep>) -> Seq<Step> {
    steps.map_values(|s: FsStep| s@)
}

/// What the directory of an application holds.
#[verifier::ext_equal]
pub struct Tree {
    /// Its entries, without the trash and the link.
    pub dirs: Set<Seq<char>>,
    /// The entries of the trash.
    pub trash: Set<Seq<char>>,
    /// Where the link points.
    pub current: Option<Seq<char>>,
}

/// What a change makes of the directory.
pub open spec fn apply(t: Tree, s: Step) -> Tree {
    match s {
        Step::Remove(n) => Tree { dirs: t.dirs.remove(n), ..t },
        Step::Rename(a, b) => Tree { dirs: t.dirs.remove(a).insert(b), ..t },
        Step::Trash(n) => Tree { dirs: t.dirs.remove(n), trash: t.trash.insert(n), ..t },
        Step::Untrash(n) => Tree { dirs: t.dirs.insert(n), trash: t.trash.remove(n), ..t },
        Step::UntrashAs(a, b) => Tree { dirs: t.dirs.insert(b), trash: t.trash.remove(a), ..t },
        Step::DropTrashed(n) => Tree { trash: t.trash.remove(n), ..t },
        Step::ClearTrash => Tree { trash: Set::empty(), ..t },
        Step::Point(n) => Tree { current: Some(n), ..t },
    }
}

/// What changes in turn make of the directory.
pub open spec fn run(t: Tree, steps: Seq<Step>) -> Tree
    decreases steps.len(),
{
    if steps.len() == 0 {
        t
    } else {
        apply(run(t, steps.drop_last()), steps.last())
    }
}

pub proof fn lemma_run_concat(t: Tree, a: Seq<Step>, b: Seq<Step>)
    ensures
        run(t, a + b) == run(run(t, a), b),
    decreases b.len(),
{
    if b.len() == 0 {
        assert(a + b =~= a);
    } else {
        lemma_run_concat(t, a, b.drop_last());
        assert((a + b).drop_last() =~= a + b.drop_last());
        assert((a + b).last() == b.last());
    }
}

pub proof fn lemma_run_push(t: Tree, a: Seq<Step>, s: Step)
    ensures
        run(t, a.push(s)) == apply(run(t, a), s),
{
    assert(a.push(s).drop_last() =~= a);
}

pub proof fn lemma_run_few(t: Tree, a: Step, b: Step, c: Step)
    ensures
        run(t, seq![a]) == apply(t, a),
        run(t, seq![a, b]) == apply(apply(t, a), b),
        run(t, seq![a, b, c]) == apply(apply(apply(t, a), b), c),
{
    assert(seq![a].drop_last() =~= Seq::<Step>::empty());
    assert(run(t, Seq::<Step>::empty()) == t);
    assert(seq![a, b].drop_last() =~= seq![a]);
    assert(seq![a, b, c].drop_last() =~= seq![a, b]);
}

/// Changes that remove entries, one after the other.
pub open spec fn removals(names: Seq<Seq<char>>) -> Seq<Step> {
    names.map_values(|n: Seq<char>| Step::Remove(n))
}

/// Removing entries removes exactly these.
pub proof fn lemma_removals(t: Tree, names: Seq<Seq<char>>)
    ensures
        run(t, removals(names)) == (Tree {
            dirs: t.dirs.filter(|n: Seq<char>| !names.contains(n)),
            ..t
        }),
    decreases names.len(),
{
    let after = Tree { dirs: t.dirs.filter(|n: Seq<char>| !names.contains(n)), ..t };
    if names.len() == 0 {
        assert(after.dirs =~= t.dirs);
    } else {
        let rest = names.drop_last();
        lemma_removals(t, rest);
        assert(removals(names).drop_last() =~= removals(rest));
        assert forall|n: Seq<char>| after.dirs.contains(n) == #[trigger] run(
            t,
            removals(names),
        ).dirs.contains(n) by {
            if names.contains(n) && n != names.last() {
                let i = choose|i: int| 0 <= i < names.len() && names[i] == n;
                assert(rest[i] == n);
            }
            if rest.contains(n) {
                let i = choose|i: int| 0 <= i < rest.len() && rest[i] == n;
                assert(names[i] == n);
            }
            assert(names[names.len() - 1] == names.last());
        }
        assert(after.dirs =~= run(t, removals(names)).dirs);
    }
}

/// The texts of a list of names.
pub open spec fn names_view(names: Seq<String>) -> Seq<Seq<char>> {
    names.map_values(|s: String| s@)
}

/// Whether a name is in a list.
pub fn has_name(names: &Vec<String>, name: &str) -> (r: bool)
    ensures
        r == names_view(names@).contains(name@),
{
    let mut i: usize = 0;
    while i < names.len()
        invariant
            i <= names@.len(),
            forall|k: int| 0 <= k < i ==> names_view(names@)[k] != name@,
        decreases names@.len() - i,
    {
        if str_eq(names[i].as_str(), name) {
            assert(names_view(names@)[i as int] == name@);
            return true;
        }
        i += 1;
    }
    false
}

/// Adds a change to a list.
pub fn push_step(steps: &mut Vec<FsStep>, s: FsStep)
    ensures
        steps_view(final(steps)@) == steps_view(old(steps)@).push(s@),
{
    let ghost before = steps@;
    steps.push(s);
    assert(steps_view(steps@) =~= steps_view(before).push(s@));
}

/// The directory name of a version.
pub open spec fn version_dir(version: Seq<char>) -> Seq<char> {
    "v"@ + version
}

/// The directory name of a version.
pub fn version_dir_name(version: &str) -> (r: String)
    ensures
        r@ == version_dir(version@),
{
    let mut s: String = owned("v");
    s.append(version);
    s
}

/// Two versions never share a directory.
pub proof fn law_versions_have_their_own_directories(a: Seq<char>, b: Seq<char>)
    requires
        version_dir(a) == version_dir(b),
    ensures
        a == b,
{
    assert(version_dir(a).skip("v"@.len() as int) =~= a);
    assert(version_dir(b).skip("v"@.len() as int) =~= b);
}

} // verus!
