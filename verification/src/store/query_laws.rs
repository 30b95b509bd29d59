//! What holds of the answers of the registry: who is listed, in which order,
//! and what the rows say.
use vstd::prelude::*;
use vstd::utf8::*;

use crate::bytes::{comes_before, law_order_goes_byte_by_byte};
use crate::pick::{is_selection, lemma_select_none, lemma_select_step, lemma_selection_members};
use crate::pkg::Manifest;
use crate::store::model::{source_named, Filter, InstallSource};
use crate::store::queries::{
    audit_le, cap_named, chosen, event_of, events_of, is_cap_name, is_listing, is_trail, records_of,
    row_le, since_rows, AuditRowView, AuditView,
};
use crate::store::rows::{
    grant_all, granted, id_error, join_tags, record_of, retained, revoked, row_of, scan_tags,
    split_tags, tags_closed, RecordView, RowView,
};
use crate::text::lemma_utf8_injective;
use crate::types::caps::law_names_distinct;
use crate::types::error::ErrorView;
use crate::types::ids::app_id_ok;
use crate::types::Capability;

verus! {

/// Which applications a filter lets through, in the order of the registry:
/// those that hold the capability asked for, if one is, and that come from the
/// source asked for, if one is.
pub proof fn law_filter_decides(filter: Filter, rows: Seq<(RowView, Seq<Seq<char>>)>)
    ensures
        is_selection(
            chosen(filter, rows),
            rows,
            |r: (RowView, Seq<Seq<char>>)|
                (filter.wanted_cap() is Some ==> r.1.contains(filter.wanted_cap()->0.name())) && (
                filter.wanted_source() is Some ==> r.0.installed_from
                    == filter.wanted_source()->0.name()),
            |r: (RowView, Seq<Seq<char>>)| r.0,
        ),
    decreases rows.len(),
{
    let good = |r: (RowView, Seq<Seq<char>>)|
        (filter.wanted_cap() is Some ==> r.1.contains(filter.wanted_cap()->0.name())) && (
        filter.wanted_source() is Some ==> r.0.installed_from
            == filter.wanted_source()->0.name());
    let make = |r: (RowView, Seq<Seq<char>>)| r.0;
    if rows.len() == 0 {
        lemma_select_none(chosen(filter, rows), rows, good, make);
    } else {
        law_filter_decides(filter, rows.drop_last());
        lemma_select_step(chosen(filter, rows.drop_last()), rows, good, make);
    }
}

proof fn lemma_record_at(rows: Seq<RowView>, i: int)
    requires
        records_of(rows) is Ok,
        0 <= i < rows.len(),
    ensures
        records_of(rows)->Ok_0.len() == rows.len(),
        record_of(None, rows[i]) == Ok::<RecordView, ErrorView>(records_of(rows)->Ok_0[i]),
    decreases rows.len(),
{
    let rest = rows.drop_last();
    if rest.len() > 0 {
        lemma_record_at(rest, 0);
    } else {
        assert(records_of(rest)->Ok_0.len() == 0);
    }
    if i < rest.len() {
        lemma_record_at(rest, i);
        assert(rest[i] == rows[i]);
    }
}

/// The order of a list of applications. Of any two records with different
/// names, the one whose name comes first byte by byte stands first; records
/// with equal names stand by their identity.
pub proof fn law_listed_by_name(
    list: Seq<RowView>,
    rows: Seq<RowView>,
    recs: Seq<RecordView>,
    i: int,
    j: int,
)
    requires
        is_listing(list, rows),
        records_of(list) == Ok::<Seq<RecordView>, ErrorView>(recs),
        0 <= i < recs.len(),
        0 <= j < recs.len(),
        i != j,
    ensures
        comes_before(encode_utf8(recs[i].name), encode_utf8(recs[j].name)) ==> i < j,
        recs[i].name != recs[j].name && i < j ==> comes_before(
            encode_utf8(recs[i].name),
            encode_utf8(recs[j].name),
        ),
        recs[i].name == recs[j].name && comes_before(
            encode_utf8(recs[i].id),
            encode_utf8(recs[j].id),
        ) ==> i < j,
{
    if list.len() > 0 {
        lemma_record_at(list, 0);
    }
    lemma_record_at(list, i);
    lemma_record_at(list, j);
    law_order_goes_byte_by_byte(encode_utf8(recs[i].name), encode_utf8(recs[j].name));
    law_order_goes_byte_by_byte(encode_utf8(recs[j].name), encode_utf8(recs[i].name));
    law_order_goes_byte_by_byte(encode_utf8(recs[i].id), encode_utf8(recs[j].id));
    law_order_goes_byte_by_byte(encode_utf8(recs[j].id), encode_utf8(recs[i].id));
    if encode_utf8(recs[i].name) == encode_utf8(recs[j].name) {
        lemma_utf8_injective(recs[i].name, recs[j].name);
    }
    if i < j {
        assert(row_le(list[i], list[j]));
    } else {
        assert(row_le(list[j], list[i]));
    }
}

proof fn lemma_same_rows(list: Seq<RowView>, rows: Seq<RowView>)
    requires
        list.to_multiset() == rows.to_multiset(),
    ensures
        list.len() == rows.len(),
        forall|x: RowView| #[trigger] list.contains(x) <==> rows.contains(x),
{
    list.to_multiset_ensures();
    rows.to_multiset_ensures();
    assert forall|x: RowView| #[trigger] list.contains(x) <==> rows.contains(x) by {
        assert(list.contains(x) <==> list.to_multiset().count(x) > 0);
        assert(rows.contains(x) <==> rows.to_multiset().count(x) > 0);
    }
}

/// A list holds the record of every application that the filter lets through:
/// of each that holds the capability asked for, if one is, and comes from the
/// source asked for, if one is.
pub proof fn law_list_is_complete(
    filter: Filter,
    rows: Seq<(RowView, Seq<Seq<char>>)>,
    list: Seq<RowView>,
    recs: Seq<RecordView>,
    k: int,
)
    requires
        is_listing(list, chosen(filter, rows)),
        records_of(list) == Ok::<Seq<RecordView>, ErrorView>(recs),
        0 <= k < rows.len(),
        filter.wanted_cap() is Some ==> rows[k].1.contains(filter.wanted_cap()->0.name()),
        filter.wanted_source() is Some ==> rows[k].0.installed_from
            == filter.wanted_source()->0.name(),
    ensures
        exists|i: int|
            0 <= i < recs.len() && record_of(None, rows[k].0) == Ok::<RecordView, ErrorView>(
                #[trigger] recs[i],
            ),
{
    let some = chosen(filter, rows);
    let row = rows[k].0;
    assert(some.contains(row)) by {
        law_filter_decides(filter, rows);
        let good = |r: (RowView, Seq<Seq<char>>)|
            (filter.wanted_cap() is Some ==> r.1.contains(filter.wanted_cap()->0.name())) && (
            filter.wanted_source() is Some ==> r.0.installed_from
                == filter.wanted_source()->0.name());
        lemma_selection_members(some, rows, good, |r: (RowView, Seq<Seq<char>>)| r.0);
        assert(good(rows[k]));
    }
    assert(list.contains(row)) by {
        lemma_same_rows(list, some);
    }
    let i = choose|i: int| 0 <= i < list.len() && list[i] == row;
    lemma_record_at(list, i);
    assert(record_of(None, row) == Ok::<RecordView, ErrorView>(recs[i]));
}

/// A list holds nothing else: as many records as applications that the filter
/// lets through, and each is the record of such an application.
pub proof fn law_list_holds_nothing_else(
    filter: Filter,
    rows: Seq<(RowView, Seq<Seq<char>>)>,
    list: Seq<RowView>,
    recs: Seq<RecordView>,
    i: int,
)
    requires
        is_listing(list, chosen(filter, rows)),
        records_of(list) == Ok::<Seq<RecordView>, ErrorView>(recs),
        0 <= i < recs.len(),
    ensures
        recs.len() == chosen(filter, rows).len(),
        exists|k: int|
            0 <= k < rows.len() && record_of(None, (#[trigger] rows[k]).0) == Ok::<
                RecordView,
                ErrorView,
            >(recs[i]) && (filter.wanted_cap() is Some ==> rows[k].1.contains(
                filter.wanted_cap()->0.name(),
            )) && (filter.wanted_source() is Some ==> rows[k].0.installed_from
                == filter.wanted_source()->0.name()),
{
    let some = chosen(filter, rows);
    if list.len() > 0 {
        lemma_record_at(list, 0);
    }
    lemma_record_at(list, i);
    let row = list[i];
    assert(some.contains(row) && some.len() == list.len()) by {
        assert(list.contains(row));
        lemma_same_rows(list, some);
    }
    assert(exists|k: int|
        0 <= k < rows.len() && (#[trigger] rows[k]).0 == row && (filter.wanted_cap() is Some
            ==> rows[k].1.contains(filter.wanted_cap()->0.name())) && (
        filter.wanted_source() is Some ==> rows[k].0.installed_from
            == filter.wanted_source()->0.name())) by {
        law_filter_decides(filter, rows);
        let good = |r: (RowView, Seq<Seq<char>>)|
            (filter.wanted_cap() is Some ==> r.1.contains(filter.wanted_cap()->0.name())) && (
            filter.wanted_source() is Some ==> r.0.installed_from
                == filter.wanted_source()->0.name());
        lemma_selection_members(some, rows, good, |r: (RowView, Seq<Seq<char>>)| r.0);
        let k = choose|k: int| 0 <= k < rows.len() && good(#[trigger] rows[k]) && row == rows[k].0;
        assert(good(rows[k]));
    }
}

/// Which rows of the audit trail a question is about: those of the application
/// that are not older than asked for.
pub proof fn law_trail_is_of_the_application(rows: Seq<AuditRowView>, app: Seq<char>, since: i64)
    ensures
        is_selection(
            since_rows(rows, app, since),
            rows,
            |r: AuditRowView| r.app_id == app && since <= r.ts,
            |r: AuditRowView| r,
        ),
    decreases rows.len(),
{
    let good = |r: AuditRowView| r.app_id == app && since <= r.ts;
    let make = |r: AuditRowView| r;
    if rows.len() == 0 {
        lemma_select_none(since_rows(rows, app, since), rows, good, make);
    } else {
        law_trail_is_of_the_application(rows.drop_last(), app, since);
        lemma_select_step(since_rows(rows.drop_last(), app, since), rows, good, make);
    }
}

proof fn lemma_event_at(rows: Seq<AuditRowView>, i: int)
    requires
        events_of(rows) is Ok,
        0 <= i < rows.len(),
    ensures
        events_of(rows)->Ok_0.len() == rows.len(),
        event_of(rows[i]) == Ok::<AuditView, ErrorView>(events_of(rows)->Ok_0[i]),
    decreases rows.len(),
{
    let rest = rows.drop_last();
    if rest.len() > 0 {
        lemma_event_at(rest, 0);
    } else {
        assert(events_of(rest)->Ok_0.len() == 0);
    }
    if i < rest.len() {
        lemma_event_at(rest, i);
        assert(rest[i] == rows[i]);
    }
}

/// What the audit trail tells of an application: its own events, none older
/// than asked for, the older before the newer; events of one moment stand in
/// the order of their arrival.
pub proof fn law_audit_goes_by_time(
    rows: Seq<AuditRowView>,
    app: Seq<char>,
    since: i64,
    list: Seq<AuditRowView>,
    events: Seq<AuditView>,
)
    requires
        is_trail(list, since_rows(rows, app, since)),
        events_of(list) == Ok::<Seq<AuditView>, ErrorView>(events),
    ensures
        events.len() == list.len(),
        forall|i: int|
            0 <= i < events.len() ==> (#[trigger] events[i]).app_id == app && events[i].ts >= since
                && events[i].ts == list[i].ts && events[i].detail == list[i].detail
                && events[i].cap.name() == list[i].cap,
        forall|i: int, j: int|
            0 <= i < j < events.len() ==> (#[trigger] events[i]).ts <= (#[trigger] events[j]).ts,
        forall|i: int, j: int|
            0 <= i < j < events.len() && (#[trigger] list[i]).ts == (#[trigger] list[j]).ts
                ==> list[i].id <= list[j].id,
        forall|k: int|
            0 <= k < rows.len() && (#[trigger] rows[k]).app_id == app && rows[k].ts >= since
                ==> list.contains(rows[k]),
{
    let some = since_rows(rows, app, since);
    law_trail_is_of_the_application(rows, app, since);
    let good = |r: AuditRowView| r.app_id == app && since <= r.ts;
    lemma_selection_members(some, rows, good, |r: AuditRowView| r);
    some.to_multiset_ensures();
    list.to_multiset_ensures();
    if list.len() > 0 {
        lemma_event_at(list, 0);
    } else {
        assert(events.len() == 0);
    }
    assert forall|i: int| 0 <= i < events.len() implies (#[trigger] events[i]).app_id == app
        && events[i].ts >= since && events[i].ts == list[i].ts && events[i].detail
        == list[i].detail && events[i].cap.name() == list[i].cap by {
        lemma_event_at(list, i);
        assert(list.contains(list[i]));
        assert(list.to_multiset().count(list[i]) > 0);
        assert(some.contains(list[i]));
        let k = choose|k: int| 0 <= k < rows.len() && good(#[trigger] rows[k]) && list[i]
            == rows[k];
        assert(good(rows[k]));
        assert(is_cap_name(list[i].cap));
    }
    assert forall|i: int, j: int| 0 <= i < j < events.len() implies (#[trigger] events[i]).ts <= (
    #[trigger] events[j]).ts by {
        assert(audit_le(list[i], list[j]));
        assert(events[i].ts == list[i].ts);
        assert(events[j].ts == list[j].ts);
    }
    assert forall|i: int, j: int|
        0 <= i < j < events.len() && (#[trigger] list[i]).ts == (#[trigger] list[j]).ts implies
        list[i].id <= list[j].id by {
        assert(audit_le(list[i], list[j]));
    }
    assert forall|k: int|
        0 <= k < rows.len() && (#[trigger] rows[k]).app_id == app && rows[k].ts >= since implies
        list.contains(rows[k]) by {
        assert(good(rows[k]));
        assert(some.contains(rows[k]));
        assert(some.to_multiset().count(rows[k]) > 0);
    }
}

/// A capability is found by its name.
pub proof fn law_capability_is_found_by_its_name(c: Capability)
    ensures
        cap_named(c.name()) == Some(c),
{
    assert(is_cap_name(c.name()));
    let d = choose|d: Capability| #[trigger] d.name() == c.name();
    law_names_distinct(c, d);
}

/// What a record says is what its row says, each column under its own name. A
/// row is read exactly if its identity is well formed, its source is one of the
/// three and its level is a number of 32 bits.
pub proof fn law_record_says_what_the_row_says(row: RowView)
    ensures
        record_of(None, row) is Ok <==> app_id_ok(row.id) && (row.installed_from == "user"@
            || row.installed_from == "bundled"@ || row.installed_from == "dev"@) && 0
            <= row.api_level <= 0xffff_ffff,
        record_of(None, row) matches Ok(r) ==> {
            &&& r.id == row.id
            &&& r.name == row.name
            &&& r.version == row.version
            &&& r.min_host == row.min_host
            &&& r.api_level == row.api_level
            &&& r.description == row.description
            &&& r.installed_from.name() == row.installed_from
            &&& r.installed_at == row.installed_at
            &&& r.updated_at == row.updated_at
        },
{
}

/// A row says what the manifest says, each field in its own column. The time of
/// the update is the present, and so is that of the installation unless the
/// application was there before.
pub proof fn law_row_says_what_the_manifest_says(
    m: Manifest,
    source: InstallSource,
    now: i64,
    before: i64,
)
    ensures
        ({
            let fresh = row_of(m, source, now, None);
            let again = row_of(m, source, now, Some(before));
            &&& fresh.id == m.id@ && again.id == m.id@
            &&& fresh.name == m.name@ && again.name == m.name@
            &&& fresh.version == m.version@ && again.version == m.version@
            &&& fresh.min_host == m.min_host@ && again.min_host == m.min_host@
            &&& fresh.description == m.description@ && again.description == m.description@
            &&& fresh.api_level == m.api_level && again.api_level == m.api_level
            &&& source_named(fresh.installed_from) == Some(source)
            &&& again.installed_from == fresh.installed_from
            &&& fresh.installed_at == now && fresh.updated_at == now
            &&& again.installed_at == before && again.updated_at == now
        }),
{
    reveal_strlit("user");
    reveal_strlit("bundled");
    reveal_strlit("dev");
    assert("user"@[0] == 'u' && "bundled"@[0] == 'b' && "dev"@[0] == 'd');
}

proof fn lemma_scan_behind_comma(a: Seq<char>, b: Seq<char>)
    ensures
        scan_tags(a.push(',') + b).done == split_tags(a) + scan_tags(b).done,
        scan_tags(a.push(',') + b).open == scan_tags(b).open,
    decreases b.len(),
{
    let head = a.push(',');
    if b.len() == 0 {
        assert(head + b =~= head);
        assert(head.drop_last() =~= a);
        assert(split_tags(a) + scan_tags(b).done =~= split_tags(a));
    } else {
        let rest = b.drop_last();
        lemma_scan_behind_comma(a, rest);
        assert((head + b).drop_last() =~= head + rest);
        assert((head + b).last() == b.last());
        if b.last() == ',' {
            let (x, y) = (scan_tags(head + rest), scan_tags(rest));
            assert(tags_closed(x) =~= split_tags(a) + tags_closed(y));
        }
    }
}

proof fn lemma_scan_plain(s: Seq<char>)
    requires
        !s.contains(','),
    ensures
        scan_tags(s).done == Seq::<Seq<char>>::empty(),
        scan_tags(s).open == s,
    decreases s.len(),
{
    if s.len() > 0 {
        let rest = s.drop_last();
        assert forall|i: int| 0 <= i < rest.len() implies rest[i] != ',' by {
            assert(s.contains(s[i]));
        }
        assert(s.contains(s[s.len() - 1]));
        lemma_scan_plain(rest);
        assert(rest.push(s.last()) =~= s);
    }
}

/// The tags of a text are its parts between commas, without the empty ones: a
/// comma parts the tags before it from those behind it, and a text without a
/// comma is one tag, or none if it is empty.
pub proof fn law_commas_part_tags(a: Seq<char>, b: Seq<char>, plain: Seq<char>)
    requires
        !plain.contains(','),
    ensures
        split_tags(a.push(',') + b) == split_tags(a) + split_tags(b),
        split_tags(plain) == (if plain.len() == 0 {
            seq![]
        } else {
            seq![plain]
        }),
{
    lemma_scan_behind_comma(a, b);
    lemma_scan_plain(plain);
    assert(split_tags(a.push(',') + b) =~= split_tags(a) + split_tags(b));
    assert(split_tags(plain) =~= if plain.len() == 0 {
        seq![]
    } else {
        seq![plain]
    });
}

/// Tags are written one behind the other with a comma between any two.
pub proof fn law_tags_are_joined_by_commas(tags: Seq<Seq<char>>, last: Seq<char>)
    ensures
        join_tags(seq![last]) == last,
        tags.len() > 0 ==> join_tags(tags.push(last)) == join_tags(tags).push(',') + last,
        join_tags(Seq::empty()) == Seq::<char>::empty(),
{
    assert(tags.push(last).drop_last() =~= tags);
}

/// Registering a manifest withdraws exactly the grants that the manifest does
/// not ask for, and leaves the others in their order with their times.
pub proof fn law_only_unasked_grants_go(g: Seq<(Seq<char>, i64)>, caps: Seq<Capability>)
    ensures
        is_selection(
            retained(g, caps),
            g,
            |x: (Seq<char>, i64)|
                exists|i: int| 0 <= i < caps.len() && (#[trigger] caps[i]).name() == x.0,
            |x: (Seq<char>, i64)| x,
        ),
    decreases g.len(),
{
    let good = |x: (Seq<char>, i64)|
        exists|i: int| 0 <= i < caps.len() && (#[trigger] caps[i]).name() == x.0;
    let make = |x: (Seq<char>, i64)| x;
    if g.len() == 0 {
        lemma_select_none(retained(g, caps), g, good, make);
    } else {
        law_only_unasked_grants_go(g.drop_last(), caps);
        lemma_select_step(retained(g.drop_last(), caps), g, good, make);
    }
}

/// Withdrawing a capability leaves every other grant in its order with its
/// time.
pub proof fn law_revoking_leaves_the_others(g: Seq<(Seq<char>, i64)>, cap: Capability)
    ensures
        is_selection(
            revoked(g, cap.name()),
            g,
            |x: (Seq<char>, i64)| x.0 != cap.name(),
            |x: (Seq<char>, i64)| x,
        ),
    decreases g.len(),
{
    let good = |x: (Seq<char>, i64)| x.0 != cap.name();
    let make = |x: (Seq<char>, i64)| x;
    if g.len() == 0 {
        lemma_select_none(revoked(g, cap.name()), g, good, make);
    } else {
        law_revoking_leaves_the_others(g.drop_last(), cap);
        lemma_select_step(revoked(g.drop_last(), cap.name()), g, good, make);
    }
}

/// A capability that was not granted before is granted from now on: every grant
/// of it carries the present time, and every grant is either an old one or one
/// of a capability that was asked for.
pub proof fn law_new_grants_are_of_now(
    g: Seq<(Seq<char>, i64)>,
    caps: Seq<Capability>,
    now: i64,
)
    ensures
        forall|i: int|
            0 <= i < g.len() ==> #[trigger] grant_all(g, caps, now)[i] == g[i],
        forall|i: int|
            g.len() <= i < grant_all(g, caps, now).len() ==> (#[trigger] grant_all(
                g,
                caps,
                now,
            )[i]).1 == now && exists|k: int|
                0 <= k < caps.len() && (#[trigger] caps[k]).name() == grant_all(g, caps, now)[i].0,
        grant_all(g, caps, now).len() >= g.len(),
        forall|k: int|
            0 <= k < caps.len() ==> exists|i: int|
                0 <= i < grant_all(g, caps, now).len() && (#[trigger] grant_all(g, caps, now)[i]).0
                    == (#[trigger] caps[k]).name(),
    decreases caps.len(),
{
    if caps.len() > 0 {
        let rest = caps.drop_last();
        let before = grant_all(g, rest, now);
        let after = grant_all(g, caps, now);
        law_new_grants_are_of_now(g, rest, now);
        assert forall|i: int| 0 <= i < g.len() implies #[trigger] after[i] == g[i] by {
            assert(before[i] == g[i]);
        }
        assert forall|i: int| g.len() <= i < after.len() implies (#[trigger] after[i]).1 == now
            && exists|k: int|
            0 <= k < caps.len() && (#[trigger] caps[k]).name() == after[i].0 by {
            if i < before.len() {
                assert(after[i] == before[i]);
                let k = choose|k: int|
                    0 <= k < rest.len() && (#[trigger] rest[k]).name() == before[i].0;
                assert(caps[k].name() == after[i].0);
            } else {
                assert(caps[caps.len() - 1].name() == after[i].0);
            }
        }
        assert forall|k: int| 0 <= k < caps.len() implies exists|i: int|
            0 <= i < after.len() && (#[trigger] after[i]).0 == (#[trigger] caps[k]).name() by {
            if k < rest.len() {
                let i = choose|i: int|
                    0 <= i < before.len() && (#[trigger] before[i]).0 == rest[k].name();
                assert(after[i].0 == caps[k].name());
            } else if granted(before, caps.last().name()) {
                let i = choose|i: int|
                    0 <= i < before.len() && (#[trigger] before[i]).0 == caps.last().name();
                assert(after[i].0 == caps[k].name());
            } else {
                assert(after[before.len() as int].0 == caps[k].name());
            }
        }
    }
}

/// Of a list of rows, the first that cannot be read tells why the list cannot.
pub proof fn law_first_bad_row_tells_why(rows: Seq<RowView>, i: int, e: ErrorView)
    requires
        0 <= i < rows.len(),
        record_of(None, rows[i]) == Err::<RecordView, ErrorView>(e),
        forall|k: int| 0 <= k < i ==> record_of(None, #[trigger] rows[k]) is Ok,
    ensures
        records_of(rows) == Err::<Seq<RecordView>, ErrorView>(e),
    decreases rows.len(),
{
    let rest = rows.drop_last();
    if i < rest.len() {
        assert(rest[i] == rows[i]);
        assert forall|k: int| 0 <= k < i implies record_of(None, #[trigger] rest[k]) is Ok by {
            assert(rest[k] == rows[k]);
        }
        law_first_bad_row_tells_why(rest, i, e);
    } else {
        assert forall|k: int| 0 <= k < rest.len() implies record_of(None, #[trigger] rest[k]) is Ok by {
            assert(rest[k] == rows[k]);
        }
        lemma_readable_rows(rest);
    }
}

proof fn lemma_readable_rows(rows: Seq<RowView>)
    requires
        forall|k: int| 0 <= k < rows.len() ==> record_of(None, #[trigger] rows[k]) is Ok,
    ensures
        records_of(rows) is Ok,
    decreases rows.len(),
{
    if rows.len() > 0 {
        let rest = rows.drop_last();
        assert forall|k: int| 0 <= k < rest.len() implies record_of(None, #[trigger] rest[k]) is Ok by {
            assert(rest[k] == rows[k]);
        }
        lemma_readable_rows(rest);
        assert(record_of(None, rows[rows.len() - 1]) is Ok);
    }
}

/// An identity in a row is refused for its length first, and otherwise for its
/// characters. A row whose identity is known is read whatever its own says.
pub proof fn law_why_an_identity_is_refused(s: Seq<char>, known: Seq<char>, row: RowView)
    ensures
        id_error(s) is None <==> app_id_ok(s),
        encode_utf8(s).len() < 3 || encode_utf8(s).len() > 64 ==> id_error(s) == Some(
            ErrorView::Internal("AppId: longitud debe ser 3..=64"@),
        ),
        3 <= encode_utf8(s).len() <= 64 && !app_id_ok(s) ==> id_error(s) == Some(
            ErrorView::Internal("AppId: solo [a-z0-9.]"@),
        ),
        record_of(Some(known), row) matches Ok(r) ==> r.id == known,
        record_of(None, row) matches Ok(r) ==> record_of(Some(row.id), row) == Ok::<
            RecordView,
            ErrorView,
        >(r),
{
}

/// An audit row is read exactly if its identity is well formed and its
/// capability is one; the event says what the row says.
pub proof fn law_event_says_what_the_row_says(row: AuditRowView, c: Capability)
    requires
        row.cap == c.name(),
    ensures
        event_of(row) is Ok <==> app_id_ok(row.app_id),
        event_of(row) matches Ok(e) ==> e.app_id == row.app_id && e.cap == c && e.ts == row.ts
            && e.detail == row.detail,
{
    law_capability_is_found_by_its_name(c);
}

} // verus!
