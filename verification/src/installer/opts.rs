//! Options, phases and outcomes of an installation.
use vstd::prelude::*;

use crate::pkg::Version;
use crate::store::model::InstallSource;
use crate::text::{dec_text, owned, push_dec};
use crate::types::{AppId, Capability};

verus! {

/// Options of an installation.
#[derive(Debug, PartialEq, Eq)]
pub struct InstallOpts {
    /// Allow a version before the registered one.
    pub allow_downgrade: bool,
    /// Capabilities granted beyond those of the manifest.
    pub auto_grant_caps: Option<Vec<Capability>>,
    /// Keep the version before, for a rollback.
    pub keep_old: bool,
    /// Where the package came from.
    pub source: InstallSource,
}

impl Default for InstallOpts {
    /// The user's choice, no downgrade, with a way back.
    fn default() -> (r: InstallOpts)
        ensures
            r == (InstallOpts {
                allow_downgrade: false,
                auto_grant_caps: None,
                keep_old: true,
                source: InstallSource::User,
            }),
    {
        InstallOpts {
            allow_downgrade: false,
            auto_grant_caps: None,
            keep_old: true,
            source: InstallSource::User,
        }
    }
}

impl InstallOpts {
    /// The default options.
    pub fn new() -> (r: InstallOpts)
        ensures
            r == (InstallOpts {
                allow_downgrade: false,
                auto_grant_caps: None,
                keep_old: true,
                source: InstallSource::User,
            }),
    {
        InstallOpts::default()
    }

    /// Options of a developer: a downgrade is allowed.
    pub fn dev() -> (r: InstallOpts)
        ensures
            r == (InstallOpts {
                allow_downgrade: true,
                auto_grant_caps: None,
                keep_old: true,
                source: InstallSource::Dev,
            }),
    {
        InstallOpts {
            allow_downgrade: true,
            auto_grant_caps: None,
            keep_old: true,
            source: InstallSource::Dev,
        }
    }
}

/// What came of an installation.
#[derive(Debug, PartialEq, Eq)]
pub enum InstallOutcome {
    /// The application was not registered before.
    Installed { app: AppId, version: Version },
    /// A registered version was replaced.
    Updated { app: AppId, from: Version, to: Version },
    /// The version before was restored.
    RolledBack { app: AppId, version: Version },
}

/// An outcome, with texts as character sequences.
pub enum OutcomeView {
    Installed(Seq<char>, Seq<char>),
    Updated(Seq<char>, Seq<char>, Seq<char>),
    RolledBack(Seq<char>, Seq<char>),
}

impl View for InstallOutcome {
    type V = OutcomeView;

    open spec fn view(&self) -> OutcomeView {
        match *self {
            InstallOutcome::Installed { app, version } => OutcomeView::Installed(app@, version@),
            InstallOutcome::Updated { app, from, to } => OutcomeView::Updated(app@, from@, to@),
            InstallOutcome::RolledBack { app, version } => OutcomeView::RolledBack(app@, version@),
        }
    }
}

impl InstallOutcome {
    /// The application.
    pub fn app(&self) -> (r: &AppId)
        ensures
            r@ == (match self@ {
                OutcomeView::Installed(a, _) => a,
                OutcomeView::Updated(a, _, _) => a,
                OutcomeView::RolledBack(a, _) => a,
            }),
    {
        match self {
            InstallOutcome::Installed { app, .. } => app,
            InstallOutcome::Updated { app, .. } => app,
            InstallOutcome::RolledBack { app, .. } => app,
        }
    }

    /// The version that is active afterwards.
    pub fn version(&self) -> (r: &Version)
        ensures
            r@ == (match self@ {
                OutcomeView::Installed(_, v) => v,
                OutcomeView::Updated(_, _, to) => to,
                OutcomeView::RolledBack(_, v) => v,
            }),
    {
        match self {
            InstallOutcome::Installed { version, .. } => version,
            InstallOutcome::Updated { to, .. } => to,
            InstallOutcome::RolledBack { version, .. } => version,
        }
    }
}

/// Phase of an installation that switches versions by a link.
#[derive(Debug, Clone, Copy, PartialEq, Eq, Structural)]
#[non_exhaustive]
pub enum Phase {
    /// Opening the archive and listing it.
    Open,
    /// Reading and checking the manifest.
    Manifest,
    /// Extracting and verifying.
    Verify,
    /// Making the version active.
    Commit,
}

impl Phase {
    pub open spec fn name(self) -> Seq<char> {
        match self {
            Phase::Open => "open"@,
            Phase::Manifest => "manifest"@,
            Phase::Verify => "verify"@,
            Phase::Commit => "commit"@,
        }
    }

    pub fn to_text(self) -> (r: String)
        ensures
            r@ == self.name(),
    {
        match self {
            Phase::Open => owned("open"),
            Phase::Manifest => owned("manifest"),
            Phase::Verify => owned("verify"),
            Phase::Commit => owned("commit"),
        }
    }
}

/// Phase of an installation that switches versions by renaming.
#[derive(Debug, Clone, Copy, PartialEq, Eq, Hash, Structural)]
pub enum InstallPhase {
    /// Reading and checking the manifest.
    Manifest,
    /// Extracting.
    Extract,
    /// Deciding on the signature.
    Verify,
    /// Making the version active.
    Commit,
}

impl InstallPhase {
    pub open spec fn name(self) -> Seq<char> {
        match self {
            InstallPhase::Manifest => "manifest"@,
            InstallPhase::Extract => "extract"@,
            InstallPhase::Verify => "verify"@,
            InstallPhase::Commit => "commit"@,
        }
    }

    pub fn as_str(self) -> (r: &'static str)
        ensures
            r@ == self.name(),
    {
        match self {
            InstallPhase::Manifest => "manifest",
            InstallPhase::Extract => "extract",
            InstallPhase::Verify => "verify",
            InstallPhase::Commit => "commit",
        }
    }

    pub fn to_text(self) -> (r: String)
        ensures
            r@ == self.name(),
    {
        owned(self.as_str())
    }
}

/// How far a phase has come.
#[derive(Debug, Clone, Copy, PartialEq, Eq, Structural)]
pub struct InstallProgress {
    pub phase: InstallPhase,
    /// Hundredths of the phase.
    pub percent: u32,
}

impl InstallProgress {
    /// `"[phase] n%"`.
    pub fn to_text(&self) -> (r: String)
        ensures
            r@ == "["@ + self.phase.name() + "] "@ + dec_text(self.percent as nat) + "%"@,
    {
        let mut s: String = owned("[");
        s.append(self.phase.as_str());
        s.append("] ");
        push_dec(&mut s, self.percent as u64);
        s.append("%");
        s
    }
}

/// The names of the phases, in the order in which an installation passes them.
pub proof fn law_names_of_phases()
    ensures
        Phase::Open.name() == "open"@,
        Phase::Manifest.name() == "manifest"@,
        Phase::Verify.name() == "verify"@,
        Phase::Commit.name() == "commit"@,
        InstallPhase::Manifest.name() == "manifest"@,
        InstallPhase::Extract.name() == "extract"@,
        InstallPhase::Verify.name() == "verify"@,
        InstallPhase::Commit.name() == "commit"@,
{
}

} // verus!
