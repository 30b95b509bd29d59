//! Versions of the schema, and the way from one to the next.
use vstd::prelude::*;

use crate::text::owned;
use crate::types::error::{ArcaError, ErrorView, Res};

verus! {

/// The version of the schema that this code understands.
pub const SCHEMA_VERSION: u32 = 2;

/// The way of a database to the current schema.
#[derive(Debug, PartialEq, Eq)]
pub struct MigrationPlan {
    /// Whether the file is copied before the first step.
    pub backup: bool,
    /// The versions that are reached in turn, each in its own transaction.
    pub steps: Vec<u32>,
}

/// Why a database with this stored version is refused, if it is.
pub open spec fn version_error(stored: i64) -> Option<ErrorView> {
    if !(0 <= stored <= u32::MAX) {
        Some(ErrorView::Internal("store: user_version negativo (corrupción)"@))
    } else if stored > SCHEMA_VERSION {
        Some(
            ErrorView::Internal("store: user_version del futuro (db más nueva que el host)"@),
        )
    } else {
        None
    }
}

/// The versions from `from` up to the current one.
pub open spec fn steps_from(from: int) -> Seq<u32> {
    Seq::new((SCHEMA_VERSION - from) as nat, |i: int| (from + 1 + i) as u32)
}

/// Lays out the migration of a database: `stored` is its version, and `empty`
/// tells whether it has no tables yet. Only a database that has something to
/// lose is copied, and one that is current is left alone.
pub fn plan_migration(stored: i64, empty: bool) -> (r: Res<MigrationPlan>)
    ensures
        r is Ok <==> version_error(stored) is None,
        r matches Err(e) ==> version_error(stored) == Some(e@),
        r matches Ok(p) ==> p.steps@ == steps_from(stored as int) && p.backup == (!empty && stored
            < SCHEMA_VERSION),
{
    if stored < 0 || stored > u32::MAX as i64 {
        return Err(ArcaError::Internal("store: user_version negativo (corrupción)"));
    }
    if stored > SCHEMA_VERSION as i64 {
        return Err(
            ArcaError::Internal("store: user_version del futuro (db más nueva que el host)"),
        );
    }
    let mut steps: Vec<u32> = Vec::new();
    let mut v: u32 = stored as u32;
    assert(steps@ =~= steps_from(stored as int).take(0));
    while v < SCHEMA_VERSION
        invariant
            0 <= stored <= v <= SCHEMA_VERSION,
            steps@ == steps_from(stored as int).take(v - stored),
        decreases SCHEMA_VERSION - v,
    {
        v += 1;
        steps.push(v);
        assert(steps@ =~= steps_from(stored as int).take(v - stored));
    }
    assert(steps@ =~= steps_from(stored as int));
    Ok(MigrationPlan { backup: !empty && stored < SCHEMA_VERSION as i64, steps })
}

/// The version after the first `n` steps of a plan from `from`.
pub open spec fn version_after(from: int, n: int) -> int {
    if n == 0 {
        from
    } else {
        steps_from(from)[n - 1] as int
    }
}

/// A plan goes up one version at a time, never down, and ends at the current
/// one; a database that was brought there needs nothing more.
pub proof fn law_migration_reaches_the_current_version(from: int)
    requires
        0 <= from <= SCHEMA_VERSION,
    ensures
        version_after(from, steps_from(from).len() as int) == SCHEMA_VERSION,
        forall|i: int|
            0 <= i < steps_from(from).len() ==> #[trigger] steps_from(from)[i] == version_after(
                from,
                i,
            ) + 1,
        steps_from(SCHEMA_VERSION as int).len() == 0,
{
}

/// A migration that was interrupted after some steps is continued by the plan
/// from the version that was reached.
pub proof fn law_interrupted_migration_goes_on(from: int, n: int)
    requires
        0 <= from <= SCHEMA_VERSION,
        0 <= n <= steps_from(from).len(),
    ensures
        steps_from(version_after(from, n)) == steps_from(from).skip(n),
{
    assert(steps_from(version_after(from, n)) =~= steps_from(from).skip(n));
}

/// What the second step does to the database.
#[derive(Debug, Clone, Copy, PartialEq, Eq, Structural)]
pub enum SecondStep {
    /// Adds the time of the last update to the applications.
    AddUpdatedAt,
    /// Sets it to the time of the installation.
    FillUpdatedAt,
    /// Indexes the audit trail by application and time.
    IndexAudit,
}

/// What the second step does. A column that is there already is left alone.
pub fn second_step(has_updated_at: bool) -> (r: Vec<SecondStep>)
    ensures
        r@ == (if has_updated_at {
            seq![SecondStep::IndexAudit]
        } else {
            seq![SecondStep::AddUpdatedAt, SecondStep::FillUpdatedAt, SecondStep::IndexAudit]
        }),
{
    let mut out: Vec<SecondStep> = Vec::new();
    if !has_updated_at {
        out.push(SecondStep::AddUpdatedAt);
        out.push(SecondStep::FillUpdatedAt);
    }
    out.push(SecondStep::IndexAudit);
    out
}

/// Where the copy of a database goes.
pub fn backup_path(path: &str) -> (r: String)
    ensures
        r@ == path@ + ".bak"@,
{
    let mut s: String = owned(path);
    s.append(".bak");
    s
}

/// The command that stores the version of a database.
pub fn set_version_sql(v: u32) -> (r: String)
    ensures
        r@ == "PRAGMA user_version = "@ + crate::text::dec_text(v as nat),
{
    let mut s: String = owned("PRAGMA user_version = ");
    crate::text::push_dec(&mut s, v as u64);
    s
}

/// Which databases are opened: those of version 0, 1 or 2. A number that is no
/// version means damage, and one above 2 a newer program.
pub proof fn law_which_databases_are_opened(stored: i64)
    ensures
        version_error(stored) is None <==> stored == 0 || stored == 1 || stored == 2,
        stored < 0 || stored > 4294967295 ==> version_error(stored) == Some(
            ErrorView::Internal("store: user_version negativo (corrupción)"@),
        ),
        2 < stored <= 4294967295 ==> version_error(stored) == Some(
            ErrorView::Internal("store: user_version del futuro (db más nueva que el host)"@),
        ),
        steps_from(0) == seq![1u32, 2u32],
        steps_from(1) == seq![2u32],
        steps_from(2).len() == 0,
{
    assert(steps_from(0) =~= seq![1u32, 2u32]);
    assert(steps_from(1) =~= seq![2u32]);
}

} // verus!
