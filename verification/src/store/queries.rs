//! What the registry answers: lists of applications, granted capabilities and
//! the audit trail, and when a request is refused.
use vstd::prelude::*;
use vstd::multiset::Multiset;
use vstd::utf8::*;

use crate::bytes::{bytes_le, lemma_lex_total, lemma_lex_transitive, lex_le};
use crate::store::model::{AppRecord, AuditEvent, CapabilitySet, Filter, UnixMs};
use crate::store::rows::{app_from_row, id_error, record_of, texts, AppRow, RecordView, RowView};
use crate::text::str_eq;
use crate::types::caps::law_names_distinct;
use crate::types::error::{fails, ArcaError, ErrorView, Res};
use crate::types::{AppId, Capability, InstanceId};

verus! {

/// An application with the names of its granted capabilities.
pub type ListedApp = (AppRow, Vec<String>);

/// The listed applications, with texts as character sequences.
pub open spec fn listed_view(rows: Seq<ListedApp>) -> Seq<(RowView, Seq<Seq<char>>)> {
    rows.map_values(|r: ListedApp| (r.0@, texts(r.1@)))
}

/// The application meets the conditions of the filter.
pub open spec fn selected(filter: Filter, row: RowView, caps: Seq<Seq<char>>) -> bool {
    &&& (filter.wanted_cap() matches Some(c) ==> caps.contains(c.name()))
    &&& (filter.wanted_source() matches Some(s) ==> row.installed_from == s.name())
}

/// The applications that meet the conditions of the filter.
pub open spec fn chosen(filter: Filter, rows: Seq<(RowView, Seq<Seq<char>>)>) -> Seq<RowView>
    decreases rows.len(),
{
    if rows.len() == 0 {
        Seq::empty()
    } else {
        let rest = chosen(filter, rows.drop_last());
        if selected(filter, rows.last().0, rows.last().1) {
            rest.push(rows.last().0)
        } else {
            rest
        }
    }
}

/// The order of a list: by name, and by identity where names are equal.
pub open spec fn row_le(a: RowView, b: RowView) -> bool {
    if a.name == b.name {
        lex_le(encode_utf8(a.id), encode_utf8(b.id))
    } else {
        lex_le(encode_utf8(a.name), encode_utf8(b.name))
    }
}

/// `list` holds the rows of `rows`, in the order of a list.
pub open spec fn is_listing(list: Seq<RowView>, rows: Seq<RowView>) -> bool {
    &&& list.to_multiset() == rows.to_multiset()
    &&& forall|i: int, j: int| 0 <= i < j < list.len() ==> row_le(list[i], list[j])
}

/// The records of rows, or what is wrong with the first row that cannot be
/// read.
pub open spec fn records_of(rows: Seq<RowView>) -> Result<Seq<RecordView>, ErrorView>
    decreases rows.len(),
{
    if rows.len() == 0 {
        Ok(Seq::empty())
    } else {
        match records_of(rows.drop_last()) {
            Ok(rest) => match record_of(None, rows.last()) {
                Ok(r) => Ok(rest.push(r)),
                Err(e) => Err(e),
            },
            Err(e) => Err(e),
        }
    }
}

/// The rows, with texts as character sequences.
pub open spec fn row_views(rows: Seq<AppRow>) -> Seq<RowView> {
    rows.map_values(|r: AppRow| r@)
}

/// The records, with texts as character sequences.
pub open spec fn record_views(recs: Seq<AppRecord>) -> Seq<RecordView> {
    recs.map_values(|r: AppRecord| r@)
}

fn has_text(list: &Vec<String>, s: &str) -> (r: bool)
    ensures
        r == texts(list@).contains(s@),
{
    let mut i: usize = 0;
    while i < list.len()
        invariant
            i <= list@.len(),
            forall|k: int| 0 <= k < i ==> texts(list@)[k] != s@,
        decreases list@.len() - i,
    {
        if str_eq(list[i].as_str(), s) {
            assert(texts(list@)[i as int] == s@);
            return true;
        }
        i += 1;
    }
    false
}

fn is_selected(filter: &Filter, row: &AppRow, caps: &Vec<String>) -> (r: bool)
    ensures
        r == selected(*filter, row@, texts(caps@)),
{
    match filter.cap() {
        Some(c) => {
            if !has_text(caps, c.as_str()) {
                return false;
            }
        },
        None => {},
    }
    match filter.source() {
        Some(s) => str_eq(row.installed_from.as_str(), s.as_str()),
        None => true,
    }
}

fn row_before(a: &AppRow, b: &AppRow) -> (r: bool)
    ensures
        r == row_le(a@, b@),
{
    if str_eq(a.name.as_str(), b.name.as_str()) {
        bytes_le(a.id.as_str().as_bytes(), b.id.as_str().as_bytes())
    } else {
        bytes_le(a.name.as_str().as_bytes(), b.name.as_str().as_bytes())
    }
}

proof fn lemma_row_le(a: RowView, b: RowView, c: RowView)
    ensures
        row_le(a, b) || row_le(b, a),
        row_le(a, b) && row_le(b, c) ==> row_le(a, c),
{
    let (na, nb, nc) = (encode_utf8(a.name), encode_utf8(b.name), encode_utf8(c.name));
    let (ia, ib, ic) = (encode_utf8(a.id), encode_utf8(b.id), encode_utf8(c.id));
    lemma_lex_total(na, nb);
    lemma_lex_total(ia, ib);
    if row_le(a, b) && row_le(b, c) {
        if a.name == b.name && b.name == c.name {
            lemma_lex_transitive(ia, ib, ic);
        } else if a.name != b.name && b.name != c.name {
            lemma_lex_transitive(na, nb, nc);
            if a.name == c.name {
                lemma_lex_total(na, nb);
                crate::text::lemma_utf8_injective(a.name, b.name);
            }
        }
    }
}

/// Puts a row at its place in a sorted list.
fn insert_row(list: &mut Vec<AppRow>, row: AppRow)
    requires
        forall|i: int, j: int|
            0 <= i < j < old(list)@.len() ==> row_le(old(list)@[i]@, old(list)@[j]@),
    ensures
        forall|i: int, j: int|
            0 <= i < j < final(list)@.len() ==> row_le(final(list)@[i]@, final(list)@[j]@),
        row_views(final(list)@).to_multiset() == row_views(old(list)@).to_multiset().insert(row@),
{
    let ghost before = list@;
    let mut at: usize = 0;
    while at < list.len() && row_before(&list[at], &row)
        invariant
            list@ == before,
            at <= list@.len(),
            forall|k: int| 0 <= k < at ==> row_le((#[trigger] before[k])@, row@),
        decreases list@.len() - at,
    {
        at += 1;
    }
    proof {
        if at < before.len() {
            lemma_row_le(before[at as int]@, row@, row@);
        }
        assert forall|k: int| at <= k < before.len() implies row_le(
            row@,
            (#[trigger] before[k])@,
        ) by {
            lemma_row_le(row@, before[at as int]@, before[k]@);
            lemma_row_le(before[at as int]@, row@, row@);
        }
    }
    list.insert(at, row);
    proof {
        let after = list@;
        assert(row_views(after) =~= row_views(before).insert(at as int, row@));
        vstd::seq_lib::to_multiset_insert(row_views(before), at as int, row@);
        assert forall|i: int, j: int| 0 <= i < j < after.len() implies row_le(
            after[i]@,
            after[j]@,
        ) by {
            let bi = if i < at {
                i
            } else {
                i - 1
            };
            let bj = if j < at {
                j
            } else {
                j - 1
            };
            if i != at && j != at {
                assert(row_le(before[bi]@, before[bj]@));
            } else if i == at {
                assert(row_le(row@, before[bj]@));
            } else {
                assert(row_le(before[bi]@, row@));
            }
        }
    }
}

/// The applications that meet the conditions of the filter, by name.
pub fn list_apps(filter: &Filter, rows: Vec<ListedApp>) -> (r: Res<Vec<AppRecord>>)
    ensures
        exists|list: Seq<RowView>| #[trigger]
            is_listing(list, chosen(*filter, listed_view(rows@))) && match r {
                Ok(recs) => records_of(list) == Ok::<Seq<RecordView>, ErrorView>(
                    record_views(recs@),
                ),
                Err(e) => records_of(list) == Err::<Seq<RecordView>, ErrorView>(e@),
            },
{
    let ghost all = listed_view(rows@);
    let ghost goal = chosen(*filter, all);
    let mut left: Vec<ListedApp> = rows;
    let mut list: Vec<AppRow> = Vec::new();
    assert(row_views(list@) =~= Seq::empty());
    assert(row_views(list@).to_multiset() =~= Multiset::empty()) by {
        row_views(list@).to_multiset_ensures();
    }
    while left.len() > 0
        invariant
            goal == chosen(*filter, all),
            goal.to_multiset() == row_views(list@).to_multiset().add(
                chosen(*filter, listed_view(left@)).to_multiset(),
            ),
            forall|i: int, j: int| 0 <= i < j < list@.len() ==> row_le(list@[i]@, list@[j]@),
        decreases left@.len(),
    {
        let ghost before = left@;
        let ghost bag = row_views(list@).to_multiset();
        assert(listed_view(before).drop_last() =~= listed_view(before.drop_last()));
        let last: ListedApp = left.pop().unwrap();
        assert(left@ =~= before.drop_last());
        assert(listed_view(before).last() == (last.0@, texts(last.1@)));
        if is_selected(filter, &last.0, &last.1) {
            let ghost row = last.0@;
            let ghost rest = chosen(*filter, listed_view(left@));
            insert_row(&mut list, last.0);
            proof {
                vstd::seq_lib::to_multiset_build(rest, row);
                assert(bag.insert(row).add(rest.to_multiset()) =~= bag.add(
                    rest.to_multiset().insert(row),
                ));
            }
        }
    }
    let ghost sorted = row_views(list@);
    proof {
        assert(chosen(*filter, listed_view(left@)) =~= Seq::empty());
        chosen(*filter, listed_view(left@)).to_multiset_ensures();
        assert(sorted.to_multiset() =~= goal.to_multiset());
        assert(is_listing(sorted, goal));
    }
    let mut out: Vec<AppRecord> = Vec::new();
    assert(record_views(out@) =~= Seq::empty());
    assert(sorted.take(0) =~= Seq::empty());
    let mut pending: Vec<AppRow> = Vec::new();
    let n: usize = list.len();
    let ghost whole = list@;
    while list.len() > 0
        invariant
            list@.len() + pending@.len() == n,
            n == whole.len(),
            forall|k: int| 0 <= k < list@.len() ==> list@[k] == whole[k],
            forall|k: int| 0 <= k < pending@.len() ==> pending@[k] == whole[n - 1 - k],
        decreases list@.len(),
    {
        pending.push(list.pop().unwrap());
    }
    let mut i: usize = 0;
    while pending.len() > 0
        invariant
            i + pending@.len() == n,
            n == whole.len(),
            sorted == row_views(whole),
            is_listing(sorted, goal),
            goal == chosen(*filter, listed_view(rows@)),
            forall|k: int| 0 <= k < pending@.len() ==> pending@[k] == whole[n - 1 - k],
            records_of(sorted.take(i as int)) == Ok::<Seq<RecordView>, ErrorView>(
                record_views(out@),
            ),
        decreases pending@.len(),
    {
        let ghost ahead = pending@;
        let row: AppRow = pending.pop().unwrap();
        assert(row == ahead[ahead.len() - 1]);
        assert(row == whole[i as int]);
        assert(sorted.take(i + 1).drop_last() =~= sorted.take(i as int));
        assert(sorted.take(i + 1).last() == row@);
        match app_from_row(None, row) {
            Ok(rec) => {
                let ghost before = out@;
                out.push(rec);
                assert(record_views(out@) =~= record_views(before).push(rec@));
            },
            Err(e) => {
                proof {
                    lemma_first_error(sorted, i + 1);
                }
                return Err(e);
            },
        }
        i += 1;
    }
    assert(sorted.take(i as int) =~= sorted);
    Ok(out)
}

proof fn lemma_first_error(rows: Seq<RowView>, n: int)
    requires
        0 <= n <= rows.len(),
        records_of(rows.take(n)) is Err,
    ensures
        records_of(rows) == records_of(rows.take(n)),
    decreases rows.len() - n,
{
    if n < rows.len() {
        assert(rows.take(n + 1).drop_last() =~= rows.take(n));
        lemma_first_error(rows, n + 1);
    } else {
        assert(rows.take(n) =~= rows);
    }
}

/// Whether an application is registered, from the number of its rows.
pub fn ensure_app(id: &AppId, rows: i64) -> (r: Res<()>)
    ensures
        r is Ok <==> rows != 0,
        r is Err ==> fails(r, ErrorView::NotFound(id@)),
{
    if rows == 0 {
        Err(ArcaError::NotFound(id.clone()))
    } else {
        Ok(())
    }
}

/// The outcome of removing an application, from the number of rows removed.
pub fn delete_app(id: &AppId, removed: usize) -> (r: Res<()>)
    ensures
        r is Ok <==> removed != 0,
        r is Err ==> fails(r, ErrorView::NotFound(id@)),
{
    if removed == 0 {
        Err(ArcaError::NotFound(id.clone()))
    } else {
        Ok(())
    }
}

/// The name belongs to a capability.
pub open spec fn is_cap_name(name: Seq<char>) -> bool {
    exists|c: Capability| #[trigger] c.name() == name
}

/// The capabilities with the names, or the news that the registry is damaged.
pub fn caps_of(names: &Vec<String>) -> (r: Res<CapabilitySet>)
    ensures
        r is Ok <==> forall|i: int|
            0 <= i < names@.len() ==> is_cap_name((#[trigger] names@[i])@),
        r matches Ok(set) ==> forall|c: Capability|
            set@.contains(c) <==> #[trigger] texts(names@).contains(c.name()),
        r is Err ==> fails(r, ErrorView::Internal("store: capability corrupta en registry"@)),
{
    let mut set: CapabilitySet = CapabilitySet::empty();
    let mut i: usize = 0;
    let ghost all = texts(names@);
    while i < names.len()
        invariant
            i <= names@.len(),
            all == texts(names@),
            forall|k: int| 0 <= k < i ==> is_cap_name((#[trigger] names@[k])@),
            forall|c: Capability|
                set@.contains(c) <==> #[trigger] all.take(i as int).contains(c.name()),
        decreases names@.len() - i,
    {
        let ghost before = all.take(i as int);
        let ghost after = all.take(i + 1);
        let ghost had = set@;
        match Capability::from_name(names[i].as_str()) {
            Some(c) => {
                set.insert(c);
                proof {
                    assert(c.name() == names@[i as int]@);
                    assert forall|d: Capability|
                        set@.contains(d) <==> #[trigger] after.contains(d.name()) by {
                        if after.contains(d.name()) {
                            let k = choose|k: int| 0 <= k < after.len() && after[k] == d.name();
                            if k < i {
                                assert(before[k] == d.name());
                                assert(before.contains(d.name()));
                            } else {
                                law_names_distinct(c, d);
                            }
                        }
                        if before.contains(d.name()) {
                            let k = choose|k: int| 0 <= k < before.len() && before[k] == d.name();
                            assert(after[k] == d.name());
                        }
                        assert(after[i as int] == c.name());
                    }
                }
            },
            None => {
                assert(!is_cap_name(names@[i as int]@));
                return Err(ArcaError::Internal("store: capability corrupta en registry"));
            },
        }
        i += 1;
    }
    assert(all.take(i as int) =~= all);
    Ok(set)
}

/// The number of an instance as the registry stores it.
pub fn instance_key(id: InstanceId) -> (r: Res<i64>)
    ensures
        r is Ok <==> id.value() <= i64::MAX,
        r matches Ok(n) ==> n == id.value(),
        r is Err ==> fails(r, ErrorView::Internal("store: InstanceId fuera de rango SQL"@)),
{
    let v: u64 = id.get();
    if v > i64::MAX as u64 {
        return Err(ArcaError::Internal("store: InstanceId fuera de rango SQL"));
    }
    Ok(v as i64)
}

/// The outcome of closing an instance, from the number of rows changed: an
/// instance that is unknown or closed already cannot be closed.
pub fn finish_instance(changed: usize) -> (r: Res<()>)
    ensures
        r is Ok <==> changed != 0,
        r is Err ==> fails(
            r,
            ErrorView::Internal("store: instancia desconocida o ya finalizada"@),
        ),
{
    if changed == 0 {
        Err(ArcaError::Internal("store: instancia desconocida o ya finalizada"))
    } else {
        Ok(())
    }
}

/// A row of the audit trail.
#[derive(Debug, PartialEq, Eq)]
pub struct AuditRow {
    /// Rows are numbered in the order of their arrival.
    pub id: i64,
    pub app_id: String,
    pub cap: String,
    pub ts: i64,
    pub detail: String,
}

/// A row of the audit trail, with texts as character sequences.
pub struct AuditRowView {
    pub id: i64,
    pub app_id: Seq<char>,
    pub cap: Seq<char>,
    pub ts: i64,
    pub detail: Seq<char>,
}

impl View for AuditRow {
    type V = AuditRowView;

    open spec fn view(&self) -> AuditRowView {
        AuditRowView {
            id: self.id,
            app_id: self.app_id@,
            cap: self.cap@,
            ts: self.ts,
            detail: self.detail@,
        }
    }
}

/// An event of the audit trail, with texts as character sequences.
pub struct AuditView {
    pub app_id: Seq<char>,
    pub cap: Capability,
    pub ts: i64,
    pub detail: Seq<char>,
}

impl View for AuditEvent {
    type V = AuditView;

    open spec fn view(&self) -> AuditView {
        AuditView {
            app_id: self.app_id@,
            cap: self.cap,
            ts: self.ts.value(),
            detail: self.detail@,
        }
    }
}

/// The capability with the name, if there is one.
pub open spec fn cap_named(name: Seq<char>) -> Option<Capability> {
    if is_cap_name(name) {
        Some(choose|c: Capability| #[trigger] c.name() == name)
    } else {
        None
    }
}

/// The event of a row, or what is wrong with it.
pub open spec fn event_of(row: AuditRowView) -> Result<AuditView, ErrorView> {
    if id_error(row.app_id) is Some {
        Err(id_error(row.app_id)->0)
    } else if cap_named(row.cap) is None {
        Err(ErrorView::Internal("store: capability corrupta en audit_log"@))
    } else {
        Ok(
            AuditView {
                app_id: row.app_id,
                cap: cap_named(row.cap)->0,
                ts: row.ts,
                detail: row.detail,
            },
        )
    }
}

/// The events of rows, or what is wrong with the first that cannot be read.
pub open spec fn events_of(rows: Seq<AuditRowView>) -> Result<Seq<AuditView>, ErrorView>
    decreases rows.len(),
{
    if rows.len() == 0 {
        Ok(Seq::empty())
    } else {
        match events_of(rows.drop_last()) {
            Ok(rest) => match event_of(rows.last()) {
                Ok(e) => Ok(rest.push(e)),
                Err(e) => Err(e),
            },
            Err(e) => Err(e),
        }
    }
}

/// The rows of the audit trail, with texts as character sequences.
pub open spec fn audit_views(rows: Seq<AuditRow>) -> Seq<AuditRowView> {
    rows.map_values(|r: AuditRow| r@)
}

/// The events, with texts as character sequences.
pub open spec fn event_views(events: Seq<AuditEvent>) -> Seq<AuditView> {
    events.map_values(|e: AuditEvent| e@)
}

/// The rows of an application from a time on.
pub open spec fn since_rows(rows: Seq<AuditRowView>, app: Seq<char>, since: i64) -> Seq<
    AuditRowView,
>
    decreases rows.len(),
{
    if rows.len() == 0 {
        Seq::empty()
    } else {
        let rest = since_rows(rows.drop_last(), app, since);
        if rows.last().app_id == app && rows.last().ts >= since {
            rest.push(rows.last())
        } else {
            rest
        }
    }
}

/// The order of the audit trail: by time, and by arrival where times are equal.
pub open spec fn audit_le(a: AuditRowView, b: AuditRowView) -> bool {
    a.ts < b.ts || (a.ts == b.ts && a.id <= b.id)
}

/// `list` holds the rows of `rows`, in the order of the audit trail.
pub open spec fn is_trail(list: Seq<AuditRowView>, rows: Seq<AuditRowView>) -> bool {
    &&& list.to_multiset() == rows.to_multiset()
    &&& forall|i: int, j: int| 0 <= i < j < list.len() ==> audit_le(list[i], list[j])
}

fn insert_audit(list: &mut Vec<AuditRow>, row: AuditRow)
    requires
        forall|i: int, j: int|
            0 <= i < j < old(list)@.len() ==> audit_le(old(list)@[i]@, old(list)@[j]@),
    ensures
        forall|i: int, j: int|
            0 <= i < j < final(list)@.len() ==> audit_le(final(list)@[i]@, final(list)@[j]@),
        audit_views(final(list)@).to_multiset() == audit_views(old(list)@).to_multiset().insert(
            row@,
        ),
{
    let ghost before = list@;
    let mut at: usize = 0;
    while at < list.len() && (list[at].ts < row.ts || (list[at].ts == row.ts && list[at].id
        <= row.id))
        invariant
            list@ == before,
            at <= list@.len(),
            forall|k: int| 0 <= k < at ==> audit_le((#[trigger] before[k])@, row@),
        decreases list@.len() - at,
    {
        at += 1;
    }
    proof {
        assert forall|k: int| at <= k < before.len() implies audit_le(
            row@,
            (#[trigger] before[k])@,
        ) by {
            if k > at {
                assert(audit_le(before[at as int]@, before[k]@));
            }
        }
    }
    list.insert(at, row);
    proof {
        let after = list@;
        assert(audit_views(after) =~= audit_views(before).insert(at as int, row@));
        vstd::seq_lib::to_multiset_insert(audit_views(before), at as int, row@);
        assert forall|i: int, j: int| 0 <= i < j < after.len() implies audit_le(
            after[i]@,
            after[j]@,
        ) by {
            let bi = if i < at {
                i
            } else {
                i - 1
            };
            let bj = if j < at {
                j
            } else {
                j - 1
            };
            if i != at && j != at {
                assert(audit_le(before[bi]@, before[bj]@));
            } else if i == at {
                assert(audit_le(row@, before[bj]@));
            } else {
                assert(audit_le(before[bi]@, row@));
            }
        }
    }
}

fn audit_event(row: AuditRow) -> (r: Res<AuditEvent>)
    ensures
        match r {
            Ok(e) => event_of(row@) == Ok::<AuditView, ErrorView>(e@),
            Err(e) => event_of(row@) == Err::<AuditView, ErrorView>(e@),
        },
{
    let app_id: AppId = match AppId::new(row.app_id.as_str()) {
        Ok(id) => id,
        Err(e) => {
            return Err(e);
        },
    };
    match Capability::from_name(row.cap.as_str()) {
        Some(cap) => {
            proof {
                let d = choose|c: Capability| #[trigger] c.name() == row.cap@;
                assert(cap.name() == row.cap@);
                law_names_distinct(cap, d);
            }
            Ok(AuditEvent { app_id, cap, ts: UnixMs::from_millis(row.ts), detail: row.detail })
        },
        None => Err(ArcaError::Internal("store: capability corrupta en audit_log")),
    }
}

proof fn lemma_first_bad_event(rows: Seq<AuditRowView>, n: int)
    requires
        0 <= n <= rows.len(),
        events_of(rows.take(n)) is Err,
    ensures
        events_of(rows) == events_of(rows.take(n)),
    decreases rows.len() - n,
{
    if n < rows.len() {
        assert(rows.take(n + 1).drop_last() =~= rows.take(n));
        lemma_first_bad_event(rows, n + 1);
    } else {
        assert(rows.take(n) =~= rows);
    }
}

/// The events of an application from a time on, in the order of their time.
pub fn query_audit(rows: Vec<AuditRow>, app: &AppId, since: UnixMs) -> (r: Res<Vec<AuditEvent>>)
    ensures
        exists|list: Seq<AuditRowView>| #[trigger]
            is_trail(list, since_rows(audit_views(rows@), app@, since.value())) && match r {
                Ok(events) => events_of(list) == Ok::<Seq<AuditView>, ErrorView>(
                    event_views(events@),
                ),
                Err(e) => events_of(list) == Err::<Seq<AuditView>, ErrorView>(e@),
            },
{
    let ghost all = audit_views(rows@);
    let ghost goal = since_rows(all, app@, since.value());
    let mut left: Vec<AuditRow> = rows;
    let mut list: Vec<AuditRow> = Vec::new();
    assert(audit_views(list@) =~= Seq::empty());
    assert(audit_views(list@).to_multiset() =~= Multiset::empty()) by {
        audit_views(list@).to_multiset_ensures();
    }
    while left.len() > 0
        invariant
            goal == since_rows(all, app@, since.value()),
            goal.to_multiset() == audit_views(list@).to_multiset().add(
                since_rows(audit_views(left@), app@, since.value()).to_multiset(),
            ),
            forall|i: int, j: int| 0 <= i < j < list@.len() ==> audit_le(list@[i]@, list@[j]@),
        decreases left@.len(),
    {
        let ghost before = left@;
        let ghost bag = audit_views(list@).to_multiset();
        assert(audit_views(before).drop_last() =~= audit_views(before.drop_last()));
        let last: AuditRow = left.pop().unwrap();
        assert(left@ =~= before.drop_last());
        assert(audit_views(before).last() == last@);
        if str_eq(last.app_id.as_str(), app.as_str()) && last.ts >= since.get() {
            let ghost row = last@;
            let ghost rest = since_rows(audit_views(left@), app@, since.value());
            insert_audit(&mut list, last);
            proof {
                vstd::seq_lib::to_multiset_build(rest, row);
                assert(bag.insert(row).add(rest.to_multiset()) =~= bag.add(
                    rest.to_multiset().insert(row),
                ));
            }
        }
    }
    let ghost sorted = audit_views(list@);
    proof {
        let none = since_rows(audit_views(left@), app@, since.value());
        assert(none =~= Seq::empty());
        none.to_multiset_ensures();
        assert(sorted.to_multiset() =~= goal.to_multiset());
        assert(is_trail(sorted, goal));
    }
    let mut pending: Vec<AuditRow> = Vec::new();
    let n: usize = list.len();
    let ghost whole = list@;
    while list.len() > 0
        invariant
            list@.len() + pending@.len() == n,
            n == whole.len(),
            forall|k: int| 0 <= k < list@.len() ==> list@[k] == whole[k],
            forall|k: int| 0 <= k < pending@.len() ==> pending@[k] == whole[n - 1 - k],
        decreases list@.len(),
    {
        pending.push(list.pop().unwrap());
    }
    let mut out: Vec<AuditEvent> = Vec::new();
    let mut i: usize = 0;
    assert(event_views(out@) =~= Seq::empty());
    assert(sorted.take(0) =~= Seq::empty());
    while pending.len() > 0
        invariant
            i + pending@.len() == n,
            n == whole.len(),
            sorted == audit_views(whole),
            is_trail(sorted, goal),
            goal == since_rows(audit_views(rows@), app@, since.value()),
            forall|k: int| 0 <= k < pending@.len() ==> pending@[k] == whole[n - 1 - k],
            events_of(sorted.take(i as int)) == Ok::<Seq<AuditView>, ErrorView>(
                event_views(out@),
            ),
        decreases pending@.len(),
    {
        let ghost ahead = pending@;
        let row: AuditRow = pending.pop().unwrap();
        assert(row == ahead[ahead.len() - 1]);
        assert(row == whole[i as int]);
        assert(sorted.take(i + 1).drop_last() =~= sorted.take(i as int));
        assert(sorted.take(i + 1).last() == row@);
        match audit_event(row) {
            Ok(e) => {
                let ghost before = out@;
                out.push(e);
                assert(event_views(out@) =~= event_views(before).push(e@));
            },
            Err(e) => {
                proof {
                    lemma_first_bad_event(sorted, i + 1);
                }
                return Err(e);
            },
        }
        i += 1;
    }
    assert(sorted.take(i as int) =~= sorted);
    Ok(out)
}

} // verus!
