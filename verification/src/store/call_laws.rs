//! What callers of the registry can rely on, told by what goes into a call and
//! what comes out of it.
use vstd::prelude::*;
use vstd::utf8::*;

use crate::bytes::comes_before;
use crate::pick::lemma_selection_members;
use crate::pkg::Manifest;
use crate::store::model::{
    law_outcome_round_trip, AppRecord, AuditEvent, CapabilitySet, Filter, InstallSource, Outcome,
    UnixMs,
};
use crate::store::queries::{
    audit_views, chosen, delete_app, ensure_app, event_views, events_of, finish_instance,
    instance_key, is_listing, is_trail, list_apps, listed_view, query_audit, record_views,
    records_of, since_rows, AuditRow, AuditRowView, AuditView, ListedApp,
};
use crate::store::query_laws::{
    law_audit_goes_by_time, law_list_holds_nothing_else, law_list_is_complete, law_listed_by_name,
    law_new_grants_are_of_now, law_trail_is_of_the_application,
};
use crate::store::rows::{
    app_from_row, caps_after_upsert, grant_caps, granted, grants_view, law_manifest_decides_grants,
    law_registered_is_read_back, law_revoking_takes_one, plain_tag, record_of, revoke_cap, texts,
    upsert_row, AppRow, Grant, RecordView, RowView,
};
use crate::store::schema::{
    backup_path, plan_migration, second_step, set_version_sql, MigrationPlan, SecondStep,
};
use crate::store::tx::{batch_next, TxCommand, TxState};
use crate::text::dec_text;
use crate::types::error::{ErrorView, Res};
use crate::types::{AppId, Capability, InstanceId};

verus! {

/// In the list of applications, of any two with different names the one whose
/// name comes first byte by byte stands first, and applications of the same name
/// stand by their identity.
pub proof fn law_apps_are_listed_by_name(
    filter: Filter,
    rows: Vec<ListedApp>,
    recs: Vec<AppRecord>,
    i: int,
    j: int,
)
    requires
        call_ensures(list_apps, (&filter, rows), Ok::<Vec<AppRecord>, _>(recs)),
        0 <= i < recs@.len(),
        0 <= j < recs@.len(),
        i != j,
    ensures
        comes_before(encode_utf8(recs@[i].name@), encode_utf8(recs@[j].name@)) ==> i < j,
        recs@[i].name@ != recs@[j].name@ && i < j ==> comes_before(
            encode_utf8(recs@[i].name@),
            encode_utf8(recs@[j].name@),
        ),
        recs@[i].name@ == recs@[j].name@ && comes_before(
            encode_utf8(recs@[i].id@),
            encode_utf8(recs@[j].id@),
        ) ==> i < j,
{
    let goal = chosen(filter, listed_view(rows@));
    let list = choose|list: Seq<RowView>| #[trigger]
        is_listing(list, goal) && records_of(list) == Ok::<Seq<RecordView>, ErrorView>(
            record_views(recs@),
        );
    let views = record_views(recs@);
    assert(views[i] == recs@[i]@ && views[j] == recs@[j]@);
    law_listed_by_name(list, goal, views, i, j);
}

/// A list of applications holds each one that meets the conditions of the
/// filter: it holds the capability asked for, and comes from the source asked
/// for. It holds no other.
pub proof fn law_apps_are_listed_by_filter(
    filter: Filter,
    rows: Vec<ListedApp>,
    recs: Vec<AppRecord>,
    k: int,
    i: int,
)
    requires
        call_ensures(list_apps, (&filter, rows), Ok::<Vec<AppRecord>, _>(recs)),
        0 <= k < rows@.len(),
        0 <= i < recs@.len(),
    ensures
        (filter.wanted_cap() is Some ==> texts(rows@[k].1@).contains(filter.wanted_cap()->0.name()))
            && (filter.wanted_source() is Some ==> rows@[k].0.installed_from@
            == filter.wanted_source()->0.name()) ==> exists|n: int|
            0 <= n < recs@.len() && record_of(None, rows@[k].0@) == Ok::<RecordView, ErrorView>(
                (#[trigger] recs@[n])@,
            ),
        exists|n: int|
            0 <= n < rows@.len() && record_of(None, (#[trigger] rows@[n]).0@) == Ok::<
                RecordView,
                ErrorView,
            >(recs@[i]@) && (filter.wanted_cap() is Some ==> texts(rows@[n].1@).contains(
                filter.wanted_cap()->0.name(),
            )) && (filter.wanted_source() is Some ==> rows@[n].0.installed_from@
                == filter.wanted_source()->0.name()),
{
    let all = listed_view(rows@);
    let goal = chosen(filter, all);
    let list = choose|list: Seq<RowView>| #[trigger]
        is_listing(list, goal) && records_of(list) == Ok::<Seq<RecordView>, ErrorView>(
            record_views(recs@),
        );
    let views = record_views(recs@);
    assert(all[k] == (rows@[k].0@, texts(rows@[k].1@)));
    if (filter.wanted_cap() is Some ==> texts(rows@[k].1@).contains(
        filter.wanted_cap()->0.name(),
    )) && (filter.wanted_source() is Some ==> rows@[k].0.installed_from@
        == filter.wanted_source()->0.name()) {
        law_list_is_complete(filter, all, list, views, k);
        let n = choose|n: int|
            0 <= n < views.len() && record_of(None, all[k].0) == Ok::<RecordView, ErrorView>(
                #[trigger] views[n],
            );
        assert(views[n] == recs@[n]@);
    }
    law_list_holds_nothing_else(filter, all, list, views, i);
    assert(views[i] == recs@[i]@);
    let n = choose|n: int|
        0 <= n < all.len() && record_of(None, (#[trigger] all[n]).0) == Ok::<RecordView, ErrorView>(
            views[i],
        ) && (filter.wanted_cap() is Some ==> all[n].1.contains(filter.wanted_cap()->0.name())) && (
        filter.wanted_source() is Some ==> all[n].0.installed_from
            == filter.wanted_source()->0.name());
    assert(all[n] == (rows@[n].0@, texts(rows@[n].1@)));
}

/// The audit trail of an application holds events of that application alone,
/// none older than asked for, the older before the newer.
pub proof fn law_audit_is_told_by_time(
    rows: Vec<AuditRow>,
    app: AppId,
    since: UnixMs,
    events: Vec<AuditEvent>,
    i: int,
    j: int,
)
    requires
        call_ensures(query_audit, (rows, &app, since), Ok::<Vec<AuditEvent>, _>(events)),
        0 <= i < j < events@.len(),
    ensures
        events@[i].app_id@ == app@,
        events@[j].app_id@ == app@,
        since.value() <= events@[i].ts.value() <= events@[j].ts.value(),
{
    let all = audit_views(rows@);
    let list = choose|list: Seq<AuditRowView>| #[trigger]
        is_trail(list, since_rows(all, app@, since.value())) && events_of(list) == Ok::<
            Seq<AuditView>,
            ErrorView,
        >(event_views(events@));
    let views = event_views(events@);
    assert(views[i] == events@[i]@ && views[j] == events@[j]@);
    law_audit_goes_by_time(all, app@, since.value(), list, views);
}

/// What is written for a manifest is read back as it was: an application that is
/// new has been installed now, one that was there keeps its time.
pub proof fn law_written_row_is_read_back(
    m: Manifest,
    source: InstallSource,
    now: UnixMs,
    before: Option<i64>,
    row: AppRow,
    id: AppId,
    rec: AppRecord,
)
    requires
        call_ensures(upsert_row, (&m, source, now, before), row),
        call_ensures(app_from_row, (Some(id), row), Ok::<AppRecord, _>(rec)),
        id@ == m.id@,
        forall|i: int| 0 <= i < m.tags@.len() ==> plain_tag((#[trigger] m.tags@[i])@),
    ensures
        rec.id@ == m.id@,
        rec.name@ == m.name@,
        rec.version@ == m.version@,
        rec.min_host@ == m.min_host@,
        rec.api_level == m.api_level,
        rec.description@ == m.description@,
        texts(rec.tags@) == texts(m.tags@),
        rec.installed_from == source,
        rec.updated_at.value() == now.value(),
        before is None ==> rec.installed_at.value() == now.value(),
        before matches Some(t) ==> rec.installed_at.value() == t,
{
    law_registered_is_read_back(m, source, now.value(), before);
}

/// After a manifest is registered its capabilities are granted, and no others;
/// one that is withdrawn is granted no longer, and the others still are.
pub proof fn law_grants_follow_the_manifest(
    g: Vec<Grant>,
    caps: &[Capability],
    now: UnixMs,
    after: Vec<Grant>,
    cap: Capability,
    left: Vec<Grant>,
    other: Capability,
)
    requires
        call_ensures(caps_after_upsert, (g, caps, now), after),
        call_ensures(revoke_cap, (after, cap), left),
    ensures
        granted(grants_view(after@), other.name()) <==> caps@.contains(other),
        granted(grants_view(left@), other.name()) <==> caps@.contains(other) && other != cap,
{
    law_manifest_decides_grants(grants_view(g@), caps@, now.value(), other);
    law_revoking_takes_one(grants_view(after@), cap, other);
}

/// Granting leaves every grant that was there, and adds the missing ones with
/// the present time.
pub proof fn law_granting_adds_what_is_missing(
    g: Vec<Grant>,
    caps: &[Capability],
    now: UnixMs,
    after: Vec<Grant>,
    i: int,
)
    requires
        call_ensures(grant_caps, (g, caps, now), after),
        0 <= i < after@.len(),
    ensures
        after@.len() >= g@.len(),
        i < g@.len() ==> after@[i].0@ == g@[i].0@ && after@[i].1 == g@[i].1,
        i >= g@.len() ==> after@[i].1 == now.value() && exists|k: int|
            0 <= k < caps@.len() && (#[trigger] caps@[k]).name() == after@[i].0@,
{
    law_new_grants_are_of_now(grants_view(g@), caps@, now.value());
    let (a, b) = (grants_view(after@), grants_view(g@));
    assert(a[i] == (after@[i].0@, after@[i].1));
    if i < g@.len() {
        assert(b[i] == (g@[i].0@, g@[i].1));
    }
}

/// A database is copied before it is migrated exactly if it holds something and
/// is not current; one that is current is left alone.
pub proof fn law_copied_before_it_is_changed(stored: i64, empty: bool, plan: MigrationPlan)
    requires
        call_ensures(plan_migration, (stored, empty), Ok::<MigrationPlan, _>(plan)),
    ensures
        plan.backup <==> !empty && stored < 2,
        plan.steps@.len() == 2 - stored,
        stored == 2 ==> !plan.backup && plan.steps@.len() == 0,
        forall|i: int| 0 <= i < plan.steps@.len() ==> #[trigger] plan.steps@[i] == stored + 1 + i,
{
}

/// The second step indexes the audit trail in any case, as its last act, and adds
/// the column of the last update only where it is missing, filled at once.
pub proof fn law_second_step_leaves_a_column_alone(there: bool, steps: Vec<SecondStep>)
    requires
        call_ensures(second_step, (there,), steps),
    ensures
        steps@.last() == SecondStep::IndexAudit,
        steps@.len() == (if there {
            1nat
        } else {
            3
        }),
        !there ==> steps@[0] == SecondStep::AddUpdatedAt && steps@[1] == SecondStep::FillUpdatedAt,
{
}

/// The copy of a database lies beside it.
pub proof fn law_copy_lies_beside(path: &str, copy: String)
    requires
        call_ensures(backup_path, (path,), copy),
    ensures
        copy@ == path@ + seq!['.', 'b', 'a', 'k'],
{
    reveal_strlit(".bak");
    assert(".bak"@ =~= seq!['.', 'b', 'a', 'k']);
}

/// A transaction that was not committed is undone when it is dropped, and one
/// that was is not.
pub proof fn law_open_transactions_are_undone(
    state: TxState,
    ok: bool,
    after: TxState,
    dropped: Option<TxCommand>,
)
    requires
        state == TxState::Active,
        call_ensures(TxState::after_commit, (state, ok), after),
        call_ensures(TxState::on_drop, (after,), dropped),
    ensures
        ok ==> dropped is None,
        !ok ==> dropped == Some(TxCommand::Rollback),
{
}

/// A batch begins, inserts, and commits in this order; a failure on an insertion
/// is answered by a rollback, and with nothing to insert nothing is sent.
pub proof fn law_batch_goes_on(n: usize, sent: usize, failed: bool, next: Option<TxCommand>)
    requires
        n < usize::MAX,
        sent <= n + 2,
        call_ensures(batch_next, (n, sent, failed), next),
    ensures
        n == 0 && !failed ==> next is None,
        n > 0 && !failed && sent == 0 ==> next == Some(TxCommand::Begin),
        n > 0 && !failed && 1 <= sent <= n ==> next == Some(TxCommand::Insert),
        n > 0 && !failed && sent == n + 1 ==> next == Some(TxCommand::Commit),
        n > 0 && !failed && sent == n + 2 ==> next is None,
        failed && 2 <= sent <= n + 1 ==> next == Some(TxCommand::Rollback),
{
}

/// An outcome that is written is read back.
pub proof fn law_written_outcome_is_read_back(
    o: Outcome,
    text: String,
    s: &str,
    back: Option<Outcome>,
)
    requires
        call_ensures(Outcome::as_sql, (&o,), text),
        s@ == text@,
        call_ensures(Outcome::from_sql, (s,), back),
    ensures
        back == Some(o),
{
    law_outcome_round_trip(o);
}

/// A row is written with each part of the manifest in its own column.
pub proof fn law_columns_of_a_written_row(
    m: Manifest,
    source: InstallSource,
    now: UnixMs,
    before: Option<i64>,
    row: AppRow,
)
    requires
        call_ensures(upsert_row, (&m, source, now, before), row),
    ensures
        row.id@ == m.id@,
        row.name@ == m.name@,
        row.version@ == m.version@,
        row.min_host@ == m.min_host@,
        row.api_level == m.api_level,
        row.description@ == m.description@,
        row.installed_from@ == source.name(),
        row.updated_at == now.value(),
        before is None ==> row.installed_at == now.value(),
        before matches Some(t) ==> row.installed_at == t,
{
}

/// A record holds what stands in the columns of its row. Its identity is the one
/// that was asked for, or that of the row where none was.
pub proof fn law_record_is_of_its_columns(known: Option<AppId>, row: AppRow, rec: AppRecord)
    requires
        call_ensures(app_from_row, (known, row), Ok::<AppRecord, _>(rec)),
    ensures
        rec.name@ == row.name@,
        rec.version@ == row.version@,
        rec.min_host@ == row.min_host@,
        rec.api_level == row.api_level,
        rec.description@ == row.description@,
        rec.installed_from.name() == row.installed_from@,
        rec.installed_at.value() == row.installed_at,
        rec.updated_at.value() == row.updated_at,
        known matches Some(id) ==> rec.id@ == id@,
        known is None ==> rec.id@ == row.id@,
{
}

/// An application that no row stands for is not found, and the error says which;
/// this holds of a look and of a removal alike.
pub proof fn law_missing_application_is_not_found(
    id: AppId,
    rows: i64,
    removed: usize,
    looked: Res<()>,
    deleted: Res<()>,
)
    requires
        call_ensures(ensure_app, (&id, rows), looked),
        call_ensures(delete_app, (&id, removed), deleted),
    ensures
        looked is Err <==> rows == 0,
        deleted is Err <==> removed == 0,
        looked matches Err(e) ==> e@ == ErrorView::NotFound(id@),
        deleted matches Err(e) ==> e@ == ErrorView::NotFound(id@),
{
}

/// An instance is kept under its own number where the database can hold it, and
/// ends only where a row of it was still open.
pub proof fn law_instances_are_kept_by_number(
    id: InstanceId,
    key: Res<i64>,
    changed: usize,
    ended: Res<()>,
)
    requires
        call_ensures(instance_key, (id,), key),
        call_ensures(finish_instance, (changed,), ended),
    ensures
        key matches Ok(n) ==> n == id.value(),
        key is Err <==> id.value() >= 0x8000_0000_0000_0000,
        ended is Ok <==> changed > 0,
{
}

/// Conditions of a filter are added one by one, and neither touches the other.
pub proof fn law_conditions_are_independent(
    cap: Capability,
    source: InstallSource,
    all: Filter,
    a: Filter,
    ab: Filter,
    b: Filter,
    ba: Filter,
)
    requires
        call_ensures(Filter::all, (), all),
        call_ensures(Filter::with_cap, (all, cap), a),
        call_ensures(Filter::from, (a, source), ab),
        call_ensures(Filter::from, (all, source), b),
        call_ensures(Filter::with_cap, (b, cap), ba),
    ensures
        ab.wanted_cap() == Some(cap) && ab.wanted_source() == Some(source),
        ba.wanted_cap() == Some(cap) && ba.wanted_source() == Some(source),
        a.wanted_source() is None && b.wanted_cap() is None,
{
}

/// A set holds a capability after it was put in, and every other one that it
/// held.
pub proof fn law_capability_set_holds_what_was_put_in(
    set: &mut CapabilitySet,
    cap: Capability,
    other: Capability,
)
    requires
        call_ensures(CapabilitySet::insert, (set, cap), ()),
    ensures
        final(set)@.contains(other) <==> old(set)@.contains(other) || other == cap,
{
}

/// The statement that sets the version of a database.
pub proof fn law_version_is_set_by_number(v: u32, sql: String)
    requires
        call_ensures(set_version_sql, (v,), sql),
    ensures
        sql@ == "PRAGMA user_version = "@ + dec_text(v as nat),
{
}

/// Of every row of an application that is not too old the trail tells, with its
/// time, its capability and its detail; and of nothing but such rows.
pub proof fn law_audit_is_complete(
    rows: Vec<AuditRow>,
    app: AppId,
    since: UnixMs,
    events: Vec<AuditEvent>,
    k: int,
    n: int,
)
    requires
        call_ensures(query_audit, (rows, &app, since), Ok::<Vec<AuditEvent>, _>(events)),
        0 <= k < rows@.len(),
        0 <= n < events@.len(),
    ensures
        rows@[k].app_id@ == app@ && rows@[k].ts >= since.value() ==> exists|i: int|
            0 <= i < events@.len() && (#[trigger] events@[i]).ts.value() == rows@[k].ts
                && events@[i].cap.name() == rows@[k].cap@ && events@[i].detail@
                == rows@[k].detail@,
        exists|i: int|
            0 <= i < rows@.len() && (#[trigger] rows@[i]).app_id@ == app@ && rows@[i].ts
                == events@[n].ts.value() && rows@[i].cap@ == events@[n].cap.name()
                && rows@[i].detail@ == events@[n].detail@,
{
    let all = audit_views(rows@);
    let some = since_rows(all, app@, since.value());
    let list = choose|list: Seq<AuditRowView>| #[trigger]
        is_trail(list, some) && events_of(list) == Ok::<Seq<AuditView>, ErrorView>(
            event_views(events@),
        );
    let views = event_views(events@);
    law_audit_goes_by_time(all, app@, since.value(), list, views);
    assert(all[k] == rows@[k]@);
    if rows@[k].app_id@ == app@ && rows@[k].ts >= since.value() {
        assert(list.contains(all[k]));
        let i = choose|i: int| 0 <= i < list.len() && list[i] == all[k];
        assert(views[i] == events@[i]@);
    }
    assert(views[n] == events@[n]@);
    list.to_multiset_ensures();
    some.to_multiset_ensures();
    assert(list.contains(list[n]));
    assert(some.to_multiset().count(list[n]) > 0);
    assert(some.contains(list[n]));
    law_trail_is_of_the_application(all, app@, since.value());
    let good = |r: AuditRowView| r.app_id == app@ && since.value() <= r.ts;
    lemma_selection_members(some, all, good, |r: AuditRowView| r);
    let i = choose|i: int| 0 <= i < all.len() && good(#[trigger] all[i]) && list[n] == all[i];
    assert(all[i] == rows@[i]@);
}

} // verus!
