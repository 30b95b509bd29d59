//! Where things are, the order of removing an application, and what is written
//! to the audit trail.
use vstd::prelude::*;

use crate::installer::staged::opt_text;
use crate::sign::RingOfTrust;
use crate::store::model::InstallSource;
use crate::text::{has_prefix, join_path, joined_path, owned};
use crate::types::error::{fails, ArcaError, ErrorView, Res};
use crate::types::AppId;

verus! {

/// The installer: where applications live, and which keys are trusted.
pub struct Installer {
    root: String,
    ring: RingOfTrust,
}

impl Installer {
    pub closed spec fn root_path(&self) -> Seq<char> {
        self.root@
    }

    pub closed spec fn keys(&self) -> Seq<Seq<u8>> {
        self.ring@
    }

    pub fn new(root: &str, ring: RingOfTrust) -> (r: Installer)
        ensures
            r.root_path() == root@,
            r.keys() == ring@,
    {
        Installer { root: owned(root), ring }
    }

    pub fn root(&self) -> (r: &str)
        ensures
            r@ == self.root_path(),
    {
        self.root.as_str()
    }

    pub fn ring(&self) -> (r: &RingOfTrust)
        ensures
            r@ == self.keys(),
    {
        &self.ring
    }

    /// Directory of an application.
    pub fn app_dir(&self, id: &AppId) -> (r: String)
        ensures
            r@ == joined_path(self.root_path(), id@),
    {
        join_path(self.root.as_str(), id.as_str())
    }

    /// Directory of the active version: where the link points, seen from the
    /// directory of the application.
    pub fn current_dir(&self, id: &AppId, link: &Option<String>) -> (r: Res<String>)
        ensures
            match opt_text(*link) {
                None => fails(r, ErrorView::NotFound(id@)),
                Some(t) => r matches Ok(d) && d@ == (if "/"@.is_prefix_of(t) {
                    t
                } else {
                    joined_path(joined_path(self.root_path(), id@), t)
                }),
            },
    {
        match link {
            None => Err(ArcaError::NotFound(id.clone())),
            Some(t) => {
                if has_prefix(t.as_str(), "/") {
                    Ok(owned(t.as_str()))
                } else {
                    Ok(join_path(self.app_dir(id).as_str(), t.as_str()))
                }
            },
        }
    }
}

/// A step of removing an application.
#[derive(Debug, Clone, Copy, PartialEq, Eq, Structural)]
pub enum UninstallStep {
    Begin,
    DeleteRow,
    Commit,
    RemoveTree,
    Audit,
}

/// The steps where versions are switched by a link: the registry forgets the
/// application only after its files are gone.
pub open spec fn linked_uninstall() -> Seq<UninstallStep> {
    seq![
        UninstallStep::Begin,
        UninstallStep::DeleteRow,
        UninstallStep::RemoveTree,
        UninstallStep::Commit,
        UninstallStep::Audit,
    ]
}

/// The steps where versions are switched by renaming: the registry forgets the
/// application first, and a sweep removes what a crash leaves of its files.
pub open spec fn staged_uninstall(tree_there: bool) -> Seq<UninstallStep> {
    if tree_there {
        seq![
            UninstallStep::Begin,
            UninstallStep::DeleteRow,
            UninstallStep::Commit,
            UninstallStep::RemoveTree,
            UninstallStep::Audit,
        ]
    } else {
        seq![
            UninstallStep::Begin,
            UninstallStep::DeleteRow,
            UninstallStep::Commit,
            UninstallStep::Audit,
        ]
    }
}

/// The steps of removing an application where versions are switched by a link.
pub fn uninstall_linked(id: &AppId, registered: bool) -> (r: Res<Vec<UninstallStep>>)
    ensures
        r is Ok <==> registered,
        r matches Ok(s) ==> s@ == linked_uninstall(),
        r is Err ==> fails(r, ErrorView::NotFound(id@)),
{
    if !registered {
        return Err(ArcaError::NotFound(id.clone()));
    }
    let mut out: Vec<UninstallStep> = Vec::new();
    out.push(UninstallStep::Begin);
    out.push(UninstallStep::DeleteRow);
    out.push(UninstallStep::RemoveTree);
    out.push(UninstallStep::Commit);
    out.push(UninstallStep::Audit);
    assert(out@ =~= linked_uninstall());
    Ok(out)
}

/// The steps of removing an application where versions are switched by
/// renaming.
pub fn uninstall_staged(id: &AppId, registered: bool, tree_there: bool) -> (r: Res<
    Vec<UninstallStep>,
>)
    ensures
        r is Ok <==> registered,
        r matches Ok(s) ==> s@ == staged_uninstall(tree_there),
        r is Err ==> fails(r, ErrorView::NotFound(id@)),
{
    if !registered {
        return Err(ArcaError::NotFound(id.clone()));
    }
    let mut out: Vec<UninstallStep> = Vec::new();
    out.push(UninstallStep::Begin);
    out.push(UninstallStep::DeleteRow);
    out.push(UninstallStep::Commit);
    if tree_there {
        out.push(UninstallStep::RemoveTree);
    }
    out.push(UninstallStep::Audit);
    assert(out@ =~= staged_uninstall(tree_there));
    Ok(out)
}

/// The audit text of an installation, with its source.
pub fn install_detail(version: &str, source: InstallSource) -> (r: String)
    ensures
        r@ == "install v"@ + version@ + " from "@ + source.name(),
{
    let mut s: String = owned("install v");
    s.append(version);
    s.append(" from ");
    s.append(source.as_str());
    s
}

/// The audit text of a change of versions.
pub fn change_detail(from: &Option<String>, to: &str) -> (r: String)
    ensures
        r@ == (match opt_text(*from) {
            None => "install v"@ + to@,
            Some(f) => "update v"@ + f + " → v"@ + to@,
        }),
{
    match from {
        None => {
            let mut s: String = owned("install v");
            s.append(to);
            s
        },
        Some(f) => {
            let mut s: String = owned("update v");
            s.append(f.as_str());
            s.append(" → v");
            s.append(to);
            s
        },
    }
}

/// The audit text of a rollback. The version that was active is named where it
/// is known.
pub fn rollback_detail(from: &Option<String>, to: &str) -> (r: String)
    ensures
        r@ == (match opt_text(*from) {
            None => "rollback v"@ + to@,
            Some(f) => "rollback v"@ + f + " → v"@ + to@,
        }),
{
    let mut s: String = owned("rollback v");
    match from {
        None => {
            s.append(to);
        },
        Some(f) => {
            s.append(f.as_str());
            s.append(" → v");
            s.append(to);
        },
    }
    s
}

/// The audit text of a removal. The version is named where it is known.
pub fn uninstall_detail(version: &Option<String>) -> (r: String)
    ensures
        r@ == (match opt_text(*version) {
            None => "uninstall"@,
            Some(v) => "uninstall v"@ + v,
        }),
{
    match version {
        None => owned("uninstall"),
        Some(v) => {
            let mut s: String = owned("uninstall v");
            s.append(v.as_str());
            s
        },
    }
}

/// Where versions are switched by a link, an application without files is
/// never registered because of a removal: the files go before the registry is
/// told. Where they are switched by renaming, it is the other way round.
pub proof fn law_order_of_removal()
    ensures
        linked_uninstall().index_of(UninstallStep::RemoveTree) < linked_uninstall().index_of(
            UninstallStep::Commit,
        ),
        staged_uninstall(true).index_of(UninstallStep::Commit) < staged_uninstall(true).index_of(
            UninstallStep::RemoveTree,
        ),
{
    let l = linked_uninstall();
    let s = staged_uninstall(true);
    assert(l[2] == UninstallStep::RemoveTree && l[3] == UninstallStep::Commit);
    assert(s[2] == UninstallStep::Commit && s[3] == UninstallStep::RemoveTree);
    assert(l.contains(UninstallStep::RemoveTree) && l.contains(UninstallStep::Commit));
    assert(s.contains(UninstallStep::RemoveTree) && s.contains(UninstallStep::Commit));
}

} // verus!
