//! Rows of the registry: what is written for an application, and what is read
//! back.
use vstd::prelude::*;
use vstd::std_specs::iter::IteratorSpec;

use crate::pkg::Manifest;
use crate::store::model::{source_named, AppRecord, InstallSource, UnixMs};
use crate::text::{owned, str_eq};
use crate::types::caps::law_names_distinct;
use crate::types::error::{ArcaError, ErrorView, Res};
use crate::types::ids::{app_id_len_ok, app_id_ok};
use crate::types::{AppId, Capability};

verus! {

/// A row of the table of applications.
#[derive(Debug, PartialEq, Eq)]
pub struct AppRow {
    pub id: String,
    pub name: String,
    pub version: String,
    pub min_host: String,
    pub api_level: i64,
    pub description: String,
    /// Tags, separated by commas.
    pub tags: String,
    pub installed_from: String,
    pub installed_at: i64,
    pub updated_at: i64,
}

/// A row, with texts as character sequences.
pub struct RowView {
    pub id: Seq<char>,
    pub name: Seq<char>,
    pub version: Seq<char>,
    pub min_host: Seq<char>,
    pub api_level: i64,
    pub description: Seq<char>,
    pub tags: Seq<char>,
    pub installed_from: Seq<char>,
    pub installed_at: i64,
    pub updated_at: i64,
}

impl View for AppRow {
    type V = RowView;

    open spec fn view(&self) -> RowView {
        RowView {
            id: self.id@,
            name: self.name@,
            version: self.version@,
            min_host: self.min_host@,
            api_level: self.api_level,
            description: self.description@,
            tags: self.tags@,
            installed_from: self.installed_from@,
            installed_at: self.installed_at,
            updated_at: self.updated_at,
        }
    }
}

/// The texts of a list of strings.
pub open spec fn texts(list: Seq<String>) -> Seq<Seq<char>> {
    list.map_values(|s: String| s@)
}

/// What a record says, with texts as character sequences.
pub struct RecordView {
    pub id: Seq<char>,
    pub name: Seq<char>,
    pub version: Seq<char>,
    pub min_host: Seq<char>,
    pub api_level: u32,
    pub description: Seq<char>,
    pub tags: Seq<Seq<char>>,
    pub installed_from: InstallSource,
    pub installed_at: i64,
    pub updated_at: i64,
}

impl View for AppRecord {
    type V = RecordView;

    open spec fn view(&self) -> RecordView {
        RecordView {
            id: self.id@,
            name: self.name@,
            version: self.version@,
            min_host: self.min_host@,
            api_level: self.api_level,
            description: self.description@,
            tags: texts(self.tags@),
            installed_from: self.installed_from,
            installed_at: self.installed_at.value(),
            updated_at: self.updated_at.value(),
        }
    }
}

/// Tags that were read so far, and the one being read.
pub struct TagScan {
    pub done: Seq<Seq<char>>,
    pub open: Seq<char>,
}

/// The tags with the open one, unless it is empty.
pub open spec fn tags_closed(s: TagScan) -> Seq<Seq<char>> {
    if s.open.len() > 0 {
        s.done.push(s.open)
    } else {
        s.done
    }
}

/// Reads a list of tags up to its end.
pub open spec fn scan_tags(s: Seq<char>) -> TagScan
    decreases s.len(),
{
    if s.len() == 0 {
        TagScan { done: Seq::empty(), open: Seq::empty() }
    } else {
        let before = scan_tags(s.drop_last());
        if s.last() == ',' {
            TagScan { done: tags_closed(before), open: Seq::empty() }
        } else {
            TagScan { done: before.done, open: before.open.push(s.last()) }
        }
    }
}

/// The parts of a text between commas that are not empty.
pub open spec fn split_tags(s: Seq<char>) -> Seq<Seq<char>> {
    tags_closed(scan_tags(s))
}

/// Tags with commas between them.
pub open spec fn join_tags(tags: Seq<Seq<char>>) -> Seq<char>
    decreases tags.len(),
{
    if tags.len() == 0 {
        Seq::empty()
    } else if tags.len() == 1 {
        tags[0]
    } else {
        join_tags(tags.drop_last()).push(',') + tags.last()
    }
}

/// Which identity a text is not, and why.
pub open spec fn id_error(s: Seq<char>) -> Option<ErrorView> {
    if app_id_ok(s) {
        None
    } else if !app_id_len_ok(s) {
        Some(ErrorView::Internal("AppId: longitud debe ser 3..=64"@))
    } else {
        Some(ErrorView::Internal("AppId: solo [a-z0-9.]"@))
    }
}

/// The record of a row, or what is wrong with the row. An identity that is
/// known already is not looked at again.
pub open spec fn record_of(known: Option<Seq<char>>, row: RowView) -> Result<RecordView, ErrorView> {
    if known is None && id_error(row.id) is Some {
        Err(id_error(row.id)->0)
    } else if source_named(row.installed_from) is None {
        Err(ErrorView::Internal("store: installed_from corrupto en registry"@))
    } else if !(0 <= row.api_level <= u32::MAX) {
        Err(ErrorView::Internal("store: api_level corrupto en registry"@))
    } else {
        Ok(
            RecordView {
                id: match known {
                    Some(id) => id,
                    None => row.id,
                },
                name: row.name,
                version: row.version,
                min_host: row.min_host,
                api_level: row.api_level as u32,
                description: row.description,
                tags: split_tags(row.tags),
                installed_from: source_named(row.installed_from)->0,
                installed_at: row.installed_at,
                updated_at: row.updated_at,
            },
        )
    }
}

fn read_tags(s: &str) -> (r: Vec<String>)
    ensures
        texts(r@) == split_tags(s@),
{
    let mut done: Vec<String> = Vec::new();
    let mut open: String = String::new();
    let mut open_len: usize = 0;
    assert(texts(done@) =~= Seq::empty());
    assert(open@ =~= Seq::<char>::empty());
    let total: usize = s.unicode_len();
    for c in it: s.chars()
        invariant
            it.seq() == s@,
            total == s@.len(),
            open_len == open@.len(),
            open_len <= it.index(),
            scan_tags(s@.take(it.index() as int)) == (TagScan { done: texts(done@), open: open@ }),
    {
        let ghost k: int = it.index() as int;
        assert(s@.take(k + 1).drop_last() =~= s@.take(k));
        if c == ',' {
            if open_len > 0 {
                let ghost before = done@;
                let ghost tag = open@;
                done.push(open);
                assert(texts(done@) =~= texts(before).push(tag));
            }
            open = String::new();
            open_len = 0;
            assert(open@ =~= Seq::<char>::empty());
        } else {
            open.push(c);
            open_len += 1;
        }
    }
    assert(s@.take(s@.len() as int) =~= s@);
    if open_len > 0 {
        let ghost before = done@;
        let ghost tag = open@;
        done.push(open);
        assert(texts(done@) =~= texts(before).push(tag));
    }
    done
}

/// The identity as a text, if it is known.
pub open spec fn known_text(known: Option<AppId>) -> Option<Seq<char>> {
    match known {
        Some(id) => Some(id@),
        None => None,
    }
}

/// Reads a row. A row that cannot be read means that the registry is damaged.
pub fn app_from_row(known: Option<AppId>, row: AppRow) -> (r: Res<AppRecord>)
    ensures
        match r {
            Ok(rec) => record_of(known_text(known), row@) == Ok::<RecordView, ErrorView>(rec@),
            Err(e) => record_of(known_text(known), row@) == Err::<RecordView, ErrorView>(e@),
        },
{
    let id: AppId = match known {
        Some(id) => id,
        None => match AppId::new(row.id.as_str()) {
            Ok(id) => id,
            Err(e) => {
                return Err(e);
            },
        },
    };
    let installed_from: InstallSource = match InstallSource::from_name(row.installed_from.as_str()) {
        Some(s) => s,
        None => {
            return Err(ArcaError::Internal("store: installed_from corrupto en registry"));
        },
    };
    if row.api_level < 0 || row.api_level > u32::MAX as i64 {
        return Err(ArcaError::Internal("store: api_level corrupto en registry"));
    }
    let tags: Vec<String> = read_tags(row.tags.as_str());
    Ok(
        AppRecord {
            id,
            name: row.name,
            version: row.version,
            min_host: row.min_host,
            api_level: row.api_level as u32,
            description: row.description,
            tags,
            installed_from,
            installed_at: UnixMs::from_millis(row.installed_at),
            updated_at: UnixMs::from_millis(row.updated_at),
        },
    )
}

fn write_tags(tags: &Vec<String>) -> (r: String)
    ensures
        r@ == join_tags(texts(tags@)),
{
    let mut out: String = String::new();
    let mut i: usize = 0;
    let ghost all = texts(tags@);
    assert(all.take(0) =~= Seq::empty());
    assert(out@ =~= Seq::<char>::empty());
    while i < tags.len()
        invariant
            i <= tags@.len(),
            all == texts(tags@),
            out@ == join_tags(all.take(i as int)),
        decreases tags@.len() - i,
    {
        assert(all.take(i + 1).drop_last() =~= all.take(i as int));
        assert(all.take(i + 1).last() == tags@[i as int]@);
        if i > 0 {
            out.push(',');
        }
        out.append(tags[i].as_str());
        assert(out@ =~= join_tags(all.take(i + 1)));
        i += 1;
    }
    assert(all.take(i as int) =~= all);
    out
}

/// The row of a manifest. An application that is registered already keeps the
/// time of its installation.
pub open spec fn row_of(
    m: Manifest,
    source: InstallSource,
    now: i64,
    installed_at: Option<i64>,
) -> RowView {
    RowView {
        id: m.id@,
        name: m.name@,
        version: m.version@,
        min_host: m.min_host@,
        api_level: m.api_level as i64,
        description: m.description@,
        tags: join_tags(texts(m.tags@)),
        installed_from: source.name(),
        installed_at: match installed_at {
            Some(t) => t,
            None => now,
        },
        updated_at: now,
    }
}

/// The row to write for a manifest; `installed_at` is that of the row that is
/// there already, if one is.
pub fn upsert_row(
    m: &Manifest,
    source: InstallSource,
    now: UnixMs,
    installed_at: Option<i64>,
) -> (r: AppRow)
    ensures
        r@ == row_of(*m, source, now.value(), installed_at),
{
    AppRow {
        id: m.id.to_text(),
        name: owned(m.name.as_str()),
        version: owned(m.version.as_str()),
        min_host: owned(m.min_host.as_str()),
        api_level: m.api_level as i64,
        description: owned(m.description.as_str()),
        tags: write_tags(&m.tags),
        installed_from: owned(source.as_str()),
        installed_at: match installed_at {
            Some(t) => t,
            None => now.get(),
        },
        updated_at: now.get(),
    }
}

/// A tag that survives being written into a row.
pub open spec fn plain_tag(t: Seq<char>) -> bool {
    t.len() > 0 && !t.contains(',')
}

proof fn lemma_scan_more(s: Seq<char>, tag: Seq<char>)
    requires
        !tag.contains(','),
    ensures
        scan_tags(s + tag) == (TagScan {
            done: scan_tags(s).done,
            open: scan_tags(s).open + tag,
        }),
    decreases tag.len(),
{
    if tag.len() == 0 {
        assert(s + tag =~= s);
        assert(scan_tags(s).open + tag =~= scan_tags(s).open);
    } else {
        let rest = tag.drop_last();
        assert forall|i: int| 0 <= i < rest.len() implies rest[i] != ',' by {
            assert(tag.contains(tag[i]));
        }
        assert(tag.contains(tag[tag.len() - 1]));
        lemma_scan_more(s, rest);
        assert((s + tag).drop_last() =~= s + rest);
        assert((s + tag).last() == tag.last());
        assert((scan_tags(s).open + rest).push(tag.last()) =~= scan_tags(s).open + tag);
    }
}

/// Tags come back from a row as they were written.
pub proof fn law_tags_round_trip(tags: Seq<Seq<char>>)
    requires
        forall|i: int| 0 <= i < tags.len() ==> plain_tag(#[trigger] tags[i]),
    ensures
        split_tags(join_tags(tags)) == tags,
        tags.len() > 0 ==> scan_tags(join_tags(tags)).open == tags.last(),
    decreases tags.len(),
{
    if tags.len() == 0 {
        assert(split_tags(join_tags(tags)) =~= tags);
    } else if tags.len() == 1 {
        lemma_scan_more(Seq::empty(), tags[0]);
        assert(Seq::<char>::empty() + tags[0] =~= tags[0]);
        assert(split_tags(tags[0]) =~= tags);
    } else {
        let rest = tags.drop_last();
        law_tags_round_trip(rest);
        let head = join_tags(rest).push(',');
        assert(head.drop_last() =~= join_tags(rest));
        assert(scan_tags(head) == (TagScan { done: rest, open: Seq::empty() }));
        lemma_scan_more(head, tags.last());
        assert(Seq::<char>::empty() + tags.last() =~= tags.last());
        assert(rest.push(tags.last()) =~= tags);
    }
}

proof fn lemma_source_named(s: InstallSource)
    ensures
        source_named(s.name()) == Some(s),
{
    reveal_strlit("user");
    reveal_strlit("bundled");
    reveal_strlit("dev");
    assert("user"@[0] == 'u' && "bundled"@[0] == 'b' && "dev"@[0] == 'd');
}

/// What is registered of a manifest is what the registry says of it
/// afterwards; an update moves the time of the update and keeps that of the
/// installation.
pub proof fn law_registered_is_read_back(
    m: Manifest,
    source: InstallSource,
    now: i64,
    installed_at: Option<i64>,
)
    requires
        forall|i: int| 0 <= i < m.tags@.len() ==> plain_tag((#[trigger] m.tags@[i])@),
    ensures
        record_of(Some(m.id@), row_of(m, source, now, installed_at)) == Ok::<RecordView, ErrorView>(
            RecordView {
                id: m.id@,
                name: m.name@,
                version: m.version@,
                min_host: m.min_host@,
                api_level: m.api_level,
                description: m.description@,
                tags: texts(m.tags@),
                installed_from: source,
                installed_at: match installed_at {
                    Some(t) => t,
                    None => now,
                },
                updated_at: now,
            },
        ),
{
    lemma_source_named(source);
    law_tags_round_trip(texts(m.tags@));
}

/// A granted capability: its name and the time of the grant.
pub type Grant = (String, i64);

/// The grants, with names as character sequences.
pub open spec fn grants_view(g: Seq<Grant>) -> Seq<(Seq<char>, i64)> {
    g.map_values(|x: Grant| (x.0@, x.1))
}

/// A capability with the name is granted.
pub open spec fn granted(g: Seq<(Seq<char>, i64)>, name: Seq<char>) -> bool {
    exists|i: int| 0 <= i < g.len() && (#[trigger] g[i]).0 == name
}

/// The grants after granting one more capability: one that is granted already
/// keeps its time.
pub open spec fn grant_one(g: Seq<(Seq<char>, i64)>, name: Seq<char>, now: i64) -> Seq<
    (Seq<char>, i64),
> {
    if granted(g, name) {
        g
    } else {
        g.push((name, now))
    }
}

/// The grants after granting a list of capabilities.
pub open spec fn grant_all(g: Seq<(Seq<char>, i64)>, caps: Seq<Capability>, now: i64) -> Seq<
    (Seq<char>, i64),
>
    decreases caps.len(),
{
    if caps.len() == 0 {
        g
    } else {
        grant_one(grant_all(g, caps.drop_last(), now), caps.last().name(), now)
    }
}

/// A capability with the name is in the list.
pub open spec fn asked(caps: Seq<Capability>, name: Seq<char>) -> bool {
    exists|i: int| 0 <= i < caps.len() && (#[trigger] caps[i]).name() == name
}

/// The grants that stay when a manifest asks for `caps`.
pub open spec fn retained(g: Seq<(Seq<char>, i64)>, caps: Seq<Capability>) -> Seq<
    (Seq<char>, i64),
>
    decreases g.len(),
{
    if g.len() == 0 {
        g
    } else {
        let rest = retained(g.drop_last(), caps);
        if asked(caps, g.last().0) {
            rest.push(g.last())
        } else {
            rest
        }
    }
}

/// The grants after registering a manifest: what it asks for is granted, and
/// what it no longer asks for is withdrawn.
pub open spec fn grants_after_upsert(
    g: Seq<(Seq<char>, i64)>,
    caps: Seq<Capability>,
    now: i64,
) -> Seq<(Seq<char>, i64)> {
    retained(grant_all(g, caps, now), caps)
}

fn is_granted(g: &Vec<Grant>, name: &str) -> (r: bool)
    ensures
        r == granted(grants_view(g@), name@),
{
    let mut i: usize = 0;
    while i < g.len()
        invariant
            i <= g@.len(),
            forall|k: int| 0 <= k < i ==> (#[trigger] grants_view(g@)[k]).0 != name@,
        decreases g@.len() - i,
    {
        if str_eq(g[i].0.as_str(), name) {
            assert(grants_view(g@)[i as int].0 == name@);
            return true;
        }
        i += 1;
    }
    false
}

fn is_asked(caps: &[Capability], name: &str) -> (r: bool)
    ensures
        r == asked(caps@, name@),
{
    let mut i: usize = 0;
    while i < caps.len()
        invariant
            i <= caps@.len(),
            forall|k: int| 0 <= k < i ==> (#[trigger] caps@[k]).name() != name@,
        decreases caps@.len() - i,
    {
        if str_eq(caps[i].as_str(), name) {
            return true;
        }
        i += 1;
    }
    false
}

/// Grants capabilities: one that is granted already keeps its time.
pub fn grant_caps(g: Vec<Grant>, caps: &[Capability], now: UnixMs) -> (r: Vec<Grant>)
    ensures
        grants_view(r@) == grant_all(grants_view(g@), caps@, now.value()),
{
    let ghost start = grants_view(g@);
    let mut out: Vec<Grant> = g;
    let mut i: usize = 0;
    assert(caps@.take(0) =~= Seq::<Capability>::empty());
    while i < caps.len()
        invariant
            i <= caps@.len(),
            grants_view(out@) == grant_all(start, caps@.take(i as int), now.value()),
        decreases caps@.len() - i,
    {
        assert(caps@.take(i + 1).drop_last() =~= caps@.take(i as int));
        let name: &str = caps[i].as_str();
        if !is_granted(&out, name) {
            let ghost before = out@;
            out.push((owned(name), now.get()));
            assert(grants_view(out@) =~= grants_view(before).push((name@, now.value())));
        }
        i += 1;
    }
    assert(caps@.take(i as int) =~= caps@);
    out
}

/// The grants of an application after its manifest is registered.
pub fn caps_after_upsert(g: Vec<Grant>, caps: &[Capability], now: UnixMs) -> (r: Vec<Grant>)
    ensures
        grants_view(r@) == grants_after_upsert(grants_view(g@), caps@, now.value()),
{
    let all: Vec<Grant> = grant_caps(g, caps, now);
    let ghost view = grants_view(all@);
    let mut out: Vec<Grant> = Vec::new();
    let mut i: usize = 0;
    assert(view.take(0) =~= Seq::empty());
    assert(grants_view(out@) =~= Seq::empty());
    while i < all.len()
        invariant
            i <= all@.len(),
            view == grants_view(all@),
            grants_view(out@) == retained(view.take(i as int), caps@),
        decreases all@.len() - i,
    {
        assert(view.take(i + 1).drop_last() =~= view.take(i as int));
        assert(view.take(i + 1).last() == (all@[i as int].0@, all@[i as int].1));
        if is_asked(caps, all[i].0.as_str()) {
            let ghost before = out@;
            out.push((owned(all[i].0.as_str()), all[i].1));
            assert(grants_view(out@) =~= grants_view(before).push(
                (all@[i as int].0@, all@[i as int].1),
            ));
        }
        i += 1;
    }
    assert(view.take(i as int) =~= view);
    out
}

/// The grants without one capability.
pub open spec fn revoked(g: Seq<(Seq<char>, i64)>, name: Seq<char>) -> Seq<(Seq<char>, i64)>
    decreases g.len(),
{
    if g.len() == 0 {
        g
    } else {
        let rest = revoked(g.drop_last(), name);
        if g.last().0 == name {
            rest
        } else {
            rest.push(g.last())
        }
    }
}

/// Withdraws a capability. One that is not granted changes nothing.
pub fn revoke_cap(g: Vec<Grant>, cap: Capability) -> (r: Vec<Grant>)
    ensures
        grants_view(r@) == revoked(grants_view(g@), cap.name()),
{
    let ghost view = grants_view(g@);
    let mut out: Vec<Grant> = Vec::new();
    let mut i: usize = 0;
    assert(view.take(0) =~= Seq::empty());
    assert(grants_view(out@) =~= Seq::empty());
    while i < g.len()
        invariant
            i <= g@.len(),
            view == grants_view(g@),
            grants_view(out@) == revoked(view.take(i as int), cap.name()),
        decreases g@.len() - i,
    {
        assert(view.take(i + 1).drop_last() =~= view.take(i as int));
        assert(view.take(i + 1).last() == (g@[i as int].0@, g@[i as int].1));
        if !str_eq(g[i].0.as_str(), cap.as_str()) {
            let ghost before = out@;
            out.push((owned(g[i].0.as_str()), g[i].1));
            assert(grants_view(out@) =~= grants_view(before).push(
                (g@[i as int].0@, g@[i as int].1),
            ));
        }
        i += 1;
    }
    assert(view.take(i as int) =~= view);
    out
}

proof fn lemma_granted_push(g: Seq<(Seq<char>, i64)>, x: (Seq<char>, i64), name: Seq<char>)
    ensures
        granted(g.push(x), name) <==> granted(g, name) || x.0 == name,
{
    let p = g.push(x);
    if granted(g, name) {
        let i = choose|i: int| 0 <= i < g.len() && (#[trigger] g[i]).0 == name;
        assert(p[i].0 == name);
    }
    if x.0 == name {
        assert(p[g.len() as int].0 == name);
    }
    if granted(p, name) {
        let i = choose|i: int| 0 <= i < p.len() && (#[trigger] p[i]).0 == name;
        if i < g.len() {
            assert(g[i].0 == name);
        }
    }
}

proof fn lemma_asked_last(caps: Seq<Capability>, name: Seq<char>)
    requires
        caps.len() > 0,
    ensures
        asked(caps, name) <==> asked(caps.drop_last(), name) || caps.last().name() == name,
{
    let rest = caps.drop_last();
    if asked(rest, name) {
        let i = choose|i: int| 0 <= i < rest.len() && (#[trigger] rest[i]).name() == name;
        assert(caps[i].name() == name);
    }
    if caps.last().name() == name {
        assert(caps[caps.len() - 1].name() == name);
    }
    if asked(caps, name) {
        let i = choose|i: int| 0 <= i < caps.len() && (#[trigger] caps[i]).name() == name;
        if i < rest.len() {
            assert(rest[i].name() == name);
        }
    }
}

proof fn lemma_grant_all(g: Seq<(Seq<char>, i64)>, caps: Seq<Capability>, now: i64, name: Seq<char>)
    ensures
        granted(grant_all(g, caps, now), name) <==> granted(g, name) || asked(caps, name),
        g.is_prefix_of(grant_all(g, caps, now)),
    decreases caps.len(),
{
    if caps.len() > 0 {
        let rest = grant_all(g, caps.drop_last(), now);
        lemma_grant_all(g, caps.drop_last(), now, name);
        lemma_asked_last(caps, name);
        lemma_granted_push(rest, (caps.last().name(), now), name);
        if granted(rest, caps.last().name()) {
            if caps.last().name() == name {
                assert(granted(rest, name));
            }
        }
        let out = grant_all(g, caps, now);
        assert(g =~= out.subrange(0, g.len() as int)) by {
            assert(g =~= rest.subrange(0, g.len() as int));
            assert forall|i: int| 0 <= i < g.len() implies g[i] == out[i] by {
                assert(g[i] == rest.subrange(0, g.len() as int)[i]);
            }
        }
    } else {
        assert(g =~= g.subrange(0, g.len() as int));
    }
}

proof fn lemma_retained(g: Seq<(Seq<char>, i64)>, caps: Seq<Capability>, name: Seq<char>)
    ensures
        granted(retained(g, caps), name) <==> granted(g, name) && asked(caps, name),
    decreases g.len(),
{
    if g.len() > 0 {
        let rest = g.drop_last();
        lemma_retained(rest, caps, name);
        assert(rest.push(g.last()) =~= g);
        lemma_granted_push(rest, g.last(), name);
        lemma_granted_push(retained(rest, caps), g.last(), name);
    }
}

proof fn lemma_revoked(g: Seq<(Seq<char>, i64)>, name: Seq<char>, other: Seq<char>)
    ensures
        granted(revoked(g, name), other) <==> granted(g, other) && other != name,
    decreases g.len(),
{
    if g.len() > 0 {
        let rest = g.drop_last();
        lemma_revoked(rest, name, other);
        assert(rest.push(g.last()) =~= g);
        lemma_granted_push(rest, g.last(), other);
        lemma_granted_push(revoked(rest, name), g.last(), other);
    }
}

/// After a manifest is registered, exactly the capabilities that it asks for
/// are granted: the manifest decides in every update.
pub proof fn law_manifest_decides_grants(
    g: Seq<(Seq<char>, i64)>,
    caps: Seq<Capability>,
    now: i64,
    c: Capability,
)
    ensures
        granted(grants_after_upsert(g, caps, now), c.name()) <==> caps.contains(c),
{
    lemma_grant_all(g, caps, now, c.name());
    lemma_retained(grant_all(g, caps, now), caps, c.name());
    if asked(caps, c.name()) {
        let i = choose|i: int| 0 <= i < caps.len() && (#[trigger] caps[i]).name() == c.name();
        law_names_distinct(caps[i], c);
    }
    if caps.contains(c) {
        let i = choose|i: int| 0 <= i < caps.len() && caps[i] == c;
        assert(caps[i].name() == c.name());
    }
}

/// No capability is granted twice.
pub open spec fn grants_distinct(g: Seq<(Seq<char>, i64)>) -> bool {
    forall|i: int, j: int|
        0 <= i < j < g.len() ==> (#[trigger] g[i]).0 != (#[trigger] g[j]).0
}

proof fn lemma_grant_all_distinct(g: Seq<(Seq<char>, i64)>, caps: Seq<Capability>, now: i64)
    requires
        grants_distinct(g),
    ensures
        grants_distinct(grant_all(g, caps, now)),
    decreases caps.len(),
{
    if caps.len() > 0 {
        let rest = grant_all(g, caps.drop_last(), now);
        lemma_grant_all_distinct(g, caps.drop_last(), now);
        if !granted(rest, caps.last().name()) {
            assert forall|i: int| 0 <= i < rest.len() implies (#[trigger] rest[i]).0
                != caps.last().name() by {}
        }
    }
}

proof fn lemma_retained_grants(
    g: Seq<(Seq<char>, i64)>,
    caps: Seq<Capability>,
    x: (Seq<char>, i64),
)
    ensures
        retained(g, caps).contains(x) <==> g.contains(x) && asked(caps, x.0),
    decreases g.len(),
{
    if g.len() > 0 {
        let rest = g.drop_last();
        let kept = retained(rest, caps);
        lemma_retained_grants(rest, caps, x);
        if g.contains(x) && g.last() != x {
            let i = choose|i: int| 0 <= i < g.len() && g[i] == x;
            assert(rest[i] == x);
        }
        if rest.contains(x) {
            let i = choose|i: int| 0 <= i < rest.len() && rest[i] == x;
            assert(g[i] == x);
        }
        assert(g[g.len() - 1] == g.last());
        let longer = kept.push(g.last());
        if kept.contains(x) {
            let i = choose|i: int| 0 <= i < kept.len() && kept[i] == x;
            assert(longer[i] == x);
        }
        assert(longer[kept.len() as int] == g.last());
        if longer.contains(x) && g.last() != x {
            let i = choose|i: int| 0 <= i < longer.len() && longer[i] == x;
            assert(kept[i] == x);
        }
    }
}

/// In an update, a capability that was granted and that the manifest still asks
/// for keeps the time of its grant.
pub proof fn law_kept_grant_keeps_its_time(
    g: Seq<(Seq<char>, i64)>,
    caps: Seq<Capability>,
    now: i64,
    name: Seq<char>,
    time: i64,
)
    requires
        grants_distinct(g),
        g.contains((name, time)),
        asked(caps, name),
    ensures
        grants_after_upsert(g, caps, now).contains((name, time)),
        forall|t: i64| #[trigger]
            grants_after_upsert(g, caps, now).contains((name, t)) ==> t == time,
{
    let all = grant_all(g, caps, now);
    lemma_grant_all(g, caps, now, name);
    lemma_grant_all_distinct(g, caps, now);
    let i = choose|i: int| 0 <= i < g.len() && g[i] == (name, time);
    assert(all.subrange(0, g.len() as int)[i] == g[i]);
    assert(all[i] == (name, time));
    lemma_retained_grants(all, caps, (name, time));
    assert forall|t: i64| #[trigger]
        grants_after_upsert(g, caps, now).contains((name, t)) implies t == time by {
        lemma_retained_grants(all, caps, (name, t));
        let k = choose|k: int| 0 <= k < all.len() && all[k] == (name, t);
        if k < i {
            assert(all[k].0 != all[i].0);
        } else if k > i {
            assert(all[i].0 != all[k].0);
        }
    }
}

/// Granting keeps every grant that was there with its time; granting the same
/// again changes nothing.
pub proof fn law_granting_twice_is_granting_once(
    g: Seq<(Seq<char>, i64)>,
    caps: Seq<Capability>,
    now: i64,
    later: i64,
)
    ensures
        g.is_prefix_of(grant_all(g, caps, now)),
        grant_all(grant_all(g, caps, now), caps, later) == grant_all(g, caps, now),
{
    lemma_grant_all(g, caps, now, Seq::empty());
    lemma_granted_again(grant_all(g, caps, now), caps, later, g, caps, now);
}

proof fn lemma_granted_again(
    all: Seq<(Seq<char>, i64)>,
    caps: Seq<Capability>,
    later: i64,
    g: Seq<(Seq<char>, i64)>,
    whole: Seq<Capability>,
    now: i64,
)
    requires
        all == grant_all(g, whole, now),
        forall|i: int| 0 <= i < caps.len() ==> asked(whole, (#[trigger] caps[i]).name()),
    ensures
        grant_all(all, caps, later) == all,
    decreases caps.len(),
{
    if caps.len() > 0 {
        let rest = caps.drop_last();
        assert forall|i: int| 0 <= i < rest.len() implies asked(
            whole,
            (#[trigger] rest[i]).name(),
        ) by {
            assert(asked(whole, caps[i].name()));
        }
        lemma_granted_again(all, rest, later, g, whole, now);
        assert(asked(whole, caps[caps.len() - 1].name()));
        lemma_grant_all(g, whole, now, caps.last().name());
    }
}

/// A withdrawn capability is not granted, all others stay, and withdrawing it
/// again changes nothing for any of them.
pub proof fn law_revoking_takes_one(
    g: Seq<(Seq<char>, i64)>,
    cap: Capability,
    other: Capability,
)
    ensures
        !granted(revoked(g, cap.name()), cap.name()),
        other != cap ==> (granted(revoked(g, cap.name()), other.name()) <==> granted(
            g,
            other.name(),
        )),
        granted(revoked(revoked(g, cap.name()), cap.name()), other.name()) <==> granted(
            revoked(g, cap.name()),
            other.name(),
        ),
{
    lemma_revoked(g, cap.name(), cap.name());
    lemma_revoked(g, cap.name(), other.name());
    lemma_revoked(revoked(g, cap.name()), cap.name(), other.name());
    if other.name() == cap.name() {
        law_names_distinct(other, cap);
    }
}

} // verus!
