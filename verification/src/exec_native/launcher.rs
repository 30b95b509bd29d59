//! The launcher: from the blob on its descriptor to the application, which
//! never runs before the filter of system calls is in place.
use vstd::prelude::*;
use vstd::utf8::*;

use crate::bytes::{
    le_bytes, le_value, lemma_le_bytes_len, lemma_le_round_trip, lemma_pow256_values, read_le,
};
use crate::exec_native::plan::{framed, kept_fd, keeps_fd};
use crate::exec_native::spec::{
    env_pair_error, first_pair_error, launch_body, launch_bytes, launch_header, launch_parse,
    pairs_bytes, str_bytes, EnvPair, LaunchSpec, LaunchView,
};
use crate::exec_native::spec_laws::{encodable, law_launch_round_trip};
use crate::text::{
    dec_text, has_char, hex_text, owned, parse_i32, push_dec, signed_value,
};
use crate::types::error::{ArcaError, ErrorView, Res};

verus! {

/// Longest blob that the launcher reads.
pub const BLOB_MAX: usize = 1048576;

/// The number of bytes that the launcher reads after the four of the length.
pub open spec fn announced(head: Seq<u8>) -> nat {
    le_value(head)
}

/// The length of the blob that follows.
pub fn blob_len(head: &[u8; 4]) -> (r: Res<usize>)
    ensures
        r is Ok <==> announced(head@) <= BLOB_MAX,
        r matches Ok(n) ==> n == announced(head@),
        r matches Err(e) ==> e@ == ErrorView::InvalidFrame("launch spec: >1 MiB"@),
{
    let n: u64 = read_le(head, 0, 4);
    assert(head@.subrange(0, 4) =~= head@);
    if n > BLOB_MAX as u64 {
        return Err(ArcaError::InvalidFrame("launch spec: >1 MiB"));
    }
    Ok(n as usize)
}

/// The descriptor with this name, if it is one.
pub open spec fn fd_named(name: Seq<char>) -> Option<i32> {
    match signed_value(name) {
        Some(v) => if i32::MIN <= v <= i32::MAX {
            Some(v as i32)
        } else {
            None
        },
        None => None,
    }
}

/// The descriptors that are closed before the application starts: the open
/// ones that have a number, without the listing itself (`own`) and without
/// those that the application keeps.
pub open spec fn closing(names: Seq<Seq<char>>, own: Option<i32>) -> Seq<i32>
    decreases names.len(),
{
    if names.len() == 0 {
        Seq::empty()
    } else {
        let rest = closing(names.drop_last(), own);
        match fd_named(names.last()) {
            Some(fd) => if own != Some(fd) && !kept_fd(fd) {
                rest.push(fd)
            } else {
                rest
            },
            None => rest,
        }
    }
}

/// The texts of a list of strings.
pub open spec fn names_of(names: Seq<String>) -> Seq<Seq<char>> {
    names.map_values(|s: String| s@)
}

/// Which descriptors to close, from the names of the open ones and the target
/// of the link to their listing.
pub fn fds_to_close(names: &Vec<String>, link: &Option<String>) -> (r: Vec<i32>)
    ensures
        r@ == closing(
            names_of(names@),
            match *link {
                Some(l) => fd_named(l@),
                None => None,
            },
        ),
{
    let own: Option<i32> = match link {
        Some(l) => parse_i32(l.as_str()),
        None => None,
    };
    let ghost view = names_of(names@);
    let mut out: Vec<i32> = Vec::new();
    let mut i: usize = 0;
    while i < names.len()
        invariant
            i <= names@.len(),
            view == names_of(names@),
            out@ == closing(view.take(i as int), own),
        decreases names@.len() - i,
    {
        assert(view.take(i + 1).drop_last() =~= view.take(i as int));
        assert(view.take(i + 1).last() == names@[i as int]@);
        match parse_i32(names[i].as_str()) {
            Some(fd) => {
                let is_own: bool = match own {
                    Some(o) => o == fd,
                    None => false,
                };
                if !is_own && !keeps_fd(fd) {
                    out.push(fd);
                }
            },
            None => {},
        }
        i += 1;
    }
    assert(view.take(i as int) =~= view);
    out
}

/// A variable of the environment, unless it holds a NUL.
pub open spec fn put_var(env: Seq<Seq<char>>, var: Seq<char>) -> Seq<Seq<char>> {
    if var.contains('\0') {
        env
    } else {
        env.push(var)
    }
}

/// The identity that an instance finds in its environment.
pub open spec fn identity_vars(v: LaunchView) -> Seq<Seq<char>> {
    let a = put_var(Seq::empty(), "ARCA_APP_ID="@ + v.app_id);
    let b = put_var(a, "ARCA_INSTANCE="@ + dec_text(v.instance as nat));
    let c = put_var(b, "ARCA_ARTIFACT="@ + hex_text(v.artifact));
    put_var(c, "ARCA_VAULT="@ + v.vault_dir)
}

/// The environment with the first `n` of the extra pairs.
pub open spec fn env_vars(v: LaunchView, n: nat) -> Seq<Seq<char>>
    decreases n,
{
    if n == 0 || n > v.env_extra.len() {
        identity_vars(v)
    } else {
        put_var(
            env_vars(v, (n - 1) as nat),
            v.env_extra[n - 1].0.push('=') + v.env_extra[n - 1].1,
        )
    }
}

/// The whole environment of an instance: its identity and the extra pairs, and
/// nothing of the host's own.
pub open spec fn environment(v: LaunchView) -> Seq<Seq<char>> {
    env_vars(v, v.env_extra.len())
}

fn push_var(env: &mut Vec<String>, var: String)
    ensures
        names_of(final(env)@) == put_var(names_of(old(env)@), var@),
{
    let ghost before = env@;
    if !has_char(var.as_str(), '\0') {
        env.push(var);
        assert(names_of(env@) =~= names_of(before).push(var@));
    }
}

/// The environment of the instance.
pub fn build_env(spec: &LaunchSpec) -> (env: Vec<String>)
    ensures
        names_of(env@) == environment(spec@),
{
    let mut env: Vec<String> = Vec::new();
    assert(names_of(env@) =~= Seq::empty());
    let mut id: String = owned("ARCA_APP_ID=");
    id.append(spec.app_id.as_str());
    push_var(&mut env, id);
    let mut instance: String = owned("ARCA_INSTANCE=");
    push_dec(&mut instance, spec.instance);
    push_var(&mut env, instance);
    let mut artifact: String = owned("ARCA_ARTIFACT=");
    artifact.append(spec.artifact_hex().as_str());
    push_var(&mut env, artifact);
    let mut vault: String = owned("ARCA_VAULT=");
    vault.append(spec.vault_dir.as_str());
    push_var(&mut env, vault);
    let mut i: usize = 0;
    while i < spec.env_extra.len()
        invariant
            i <= spec.env_extra@.len(),
            names_of(env@) == env_vars(spec@, i as nat),
        decreases spec.env_extra@.len() - i,
    {
        let mut var: String = owned(spec.env_extra[i].0.as_str());
        var.push('=');
        var.append(spec.env_extra[i].1.as_str());
        assert(spec@.env_extra[i as int] == (
            spec.env_extra@[i as int].0@,
            spec.env_extra@[i as int].1@,
        ));
        push_var(&mut env, var);
        i += 1;
    }
    env
}

/// How far the launcher has come.
pub enum LauncherState {
    /// Waits for the length of the blob.
    Length,
    /// Waits for the blob.
    Blob(usize),
    /// Waits for the names of the open descriptors.
    Listing(LaunchSpec),
    /// Waits for the filter of system calls.
    Filter(LaunchSpec, Vec<i32>),
    /// Waits until the descriptors are closed.
    Closing(LaunchSpec),
    /// Waits until the working directory is entered.
    Entering(LaunchSpec),
    /// The application takes over.
    Started,
    /// Given up.
    Failed,
}

/// What the launcher does next.
pub enum LauncherAction {
    ReadBlob(usize),
    ListFds,
    ApplyFilter,
    CloseFds(Vec<i32>),
    EnterDir(String),
    /// Replaces the launcher: path, and environment.
    Execute(String, Vec<String>),
    /// Ends with the error.
    Abort(ArcaError),
}

/// What the launcher learns.
pub enum LauncherEvent {
    Length([u8; 4]),
    Blob(Vec<u8>),
    /// Names of the open descriptors, and the target of the link to their
    /// listing.
    Fds(Vec<String>, Option<String>),
    Filtered,
    Closed,
    Entered,
    /// The last action failed.
    Failed(ArcaError),
}

/// Which state the launcher is in.
pub enum Stage {
    Length,
    Blob(nat),
    Listing(LaunchView),
    Filter(LaunchView, Seq<i32>),
    Closing(LaunchView),
    Entering(LaunchView),
    Started,
    Failed,
}

impl View for LauncherState {
    type V = Stage;

    open spec fn view(&self) -> Stage {
        match *self {
            LauncherState::Length => Stage::Length,
            LauncherState::Blob(n) => Stage::Blob(n as nat),
            LauncherState::Listing(s) => Stage::Listing(s@),
            LauncherState::Filter(s, fds) => Stage::Filter(s@, fds@),
            LauncherState::Closing(s) => Stage::Closing(s@),
            LauncherState::Entering(s) => Stage::Entering(s@),
            LauncherState::Started => Stage::Started,
            LauncherState::Failed => Stage::Failed,
        }
    }
}

/// What an action says, with texts as character sequences.
pub enum Deed {
    ReadBlob(nat),
    ListFds,
    ApplyFilter,
    CloseFds(Seq<i32>),
    EnterDir(Seq<char>),
    Execute(Seq<char>, Seq<Seq<char>>),
    Abort(ErrorView),
}

impl View for LauncherAction {
    type V = Deed;

    open spec fn view(&self) -> Deed {
        match *self {
            LauncherAction::ReadBlob(n) => Deed::ReadBlob(n as nat),
            LauncherAction::ListFds => Deed::ListFds,
            LauncherAction::ApplyFilter => Deed::ApplyFilter,
            LauncherAction::CloseFds(fds) => Deed::CloseFds(fds@),
            LauncherAction::EnterDir(d) => Deed::EnterDir(d@),
            LauncherAction::Execute(p, env) => Deed::Execute(p@, names_of(env@)),
            LauncherAction::Abort(e) => Deed::Abort(e@),
        }
    }
}

/// What an event says.
pub enum News {
    Length(Seq<u8>),
    Blob(Seq<u8>),
    Fds(Seq<Seq<char>>, Option<i32>),
    Filtered,
    Closed,
    Entered,
    Failed(ErrorView),
}

impl View for LauncherEvent {
    type V = News;

    open spec fn view(&self) -> News {
        match *self {
            LauncherEvent::Length(b) => News::Length(b@),
            LauncherEvent::Blob(b) => News::Blob(b@),
            LauncherEvent::Fds(names, link) => News::Fds(
                names_of(names@),
                match link {
                    Some(l) => fd_named(l@),
                    None => None,
                },
            ),
            LauncherEvent::Filtered => News::Filtered,
            LauncherEvent::Closed => News::Closed,
            LauncherEvent::Entered => News::Entered,
            LauncherEvent::Failed(e) => News::Failed(e@),
        }
    }
}

/// One step of the launcher.
pub open spec fn launcher_next(stage: Stage, news: News) -> (Stage, Deed) {
    match (stage, news) {
        (_, News::Failed(e)) => (Stage::Failed, Deed::Abort(e)),
        (Stage::Length, News::Length(head)) => if announced(head) <= BLOB_MAX {
            (Stage::Blob(announced(head)), Deed::ReadBlob(announced(head)))
        } else {
            (Stage::Failed, Deed::Abort(ErrorView::InvalidFrame("launch spec: >1 MiB"@)))
        },
        (Stage::Blob(_), News::Blob(raw)) => match launch_parse(raw) {
            Ok(v) => (Stage::Listing(v), Deed::ListFds),
            Err(e) => (Stage::Failed, Deed::Abort(e)),
        },
        (Stage::Listing(v), News::Fds(names, own)) => (
            Stage::Filter(v, closing(names, own)),
            Deed::ApplyFilter,
        ),
        (Stage::Filter(v, fds), News::Filtered) => (Stage::Closing(v), Deed::CloseFds(fds)),
        (Stage::Closing(v), News::Closed) => (Stage::Entering(v), Deed::EnterDir(v.app_dir)),
        (Stage::Entering(v), News::Entered) => if v.app_path.contains('\0') {
            (Stage::Failed, Deed::Abort(ErrorView::Internal("launch: app_path con NUL"@)))
        } else {
            (Stage::Started, Deed::Execute(v.app_path, environment(v)))
        },
        _ => (Stage::Failed, Deed::Abort(ErrorView::Internal("launch: paso fuera de orden"@))),
    }
}

/// The state after a run of events.
pub open spec fn launcher_run(news: Seq<News>) -> Stage
    decreases news.len(),
{
    if news.len() == 0 {
        Stage::Length
    } else {
        launcher_next(launcher_run(news.drop_last()), news.last()).0
    }
}

/// One step of the launcher: the next state, and what to do.
pub fn launcher_step(state: LauncherState, event: LauncherEvent) -> (r: (
    LauncherState,
    LauncherAction,
))
    ensures
        (r.0@, r.1@) == launcher_next(state@, event@),
{
    match (state, event) {
        (_, LauncherEvent::Failed(e)) => (LauncherState::Failed, LauncherAction::Abort(e)),
        (LauncherState::Length, LauncherEvent::Length(head)) => match blob_len(&head) {
            Ok(n) => (LauncherState::Blob(n), LauncherAction::ReadBlob(n)),
            Err(e) => (LauncherState::Failed, LauncherAction::Abort(e)),
        },
        (LauncherState::Blob(_), LauncherEvent::Blob(raw)) => match LaunchSpec::decode(
            raw.as_slice(),
        ) {
            Ok(s) => (LauncherState::Listing(s), LauncherAction::ListFds),
            Err(e) => (LauncherState::Failed, LauncherAction::Abort(e)),
        },
        (LauncherState::Listing(s), LauncherEvent::Fds(names, link)) => {
            let fds: Vec<i32> = fds_to_close(&names, &link);
            (LauncherState::Filter(s, fds), LauncherAction::ApplyFilter)
        },
        (LauncherState::Filter(s, fds), LauncherEvent::Filtered) => {
            (LauncherState::Closing(s), LauncherAction::CloseFds(fds))
        },
        (LauncherState::Closing(s), LauncherEvent::Closed) => {
            let dir: String = owned(s.app_dir.as_str());
            (LauncherState::Entering(s), LauncherAction::EnterDir(dir))
        },
        (LauncherState::Entering(s), LauncherEvent::Entered) => {
            if has_char(s.app_path.as_str(), '\0') {
                return (
                    LauncherState::Failed,
                    LauncherAction::Abort(ArcaError::Internal("launch: app_path con NUL")),
                );
            }
            let env: Vec<String> = build_env(&s);
            (LauncherState::Started, LauncherAction::Execute(s.app_path, env))
        },
        _ => (
            LauncherState::Failed,
            LauncherAction::Abort(ArcaError::Internal("launch: paso fuera de orden")),
        ),
    }
}

/// A launcher that gave up stays so.
pub proof fn law_failed_is_final(news: News)
    ensures
        launcher_next(Stage::Failed, news).0 == Stage::Failed,
        launcher_next(Stage::Started, news).0 == Stage::Failed,
{
}

/// The filter is in place: the stages behind it.
pub open spec fn behind_filter(stage: Stage) -> bool {
    stage is Closing || stage is Entering || stage is Started
}

/// The application is executed only by a launcher that has put the filter of
/// system calls in place, whatever events arrive in whatever order.
pub proof fn law_never_unfiltered(news: Seq<News>)
    ensures
        behind_filter(launcher_run(news)) ==> exists|i: int|
            0 <= i < news.len() && news[i] is Filtered && launcher_run(news.take(i)) is Filter,
        forall|n: News| #[trigger]
            launcher_next(launcher_run(news), n).1 is Execute ==> behind_filter(launcher_run(news)),
    decreases news.len(),
{
    if news.len() > 0 {
        let rest = news.drop_last();
        law_never_unfiltered(rest);
        if behind_filter(launcher_run(news)) {
            if behind_filter(launcher_run(rest)) {
                let i = choose|i: int|
                    0 <= i < rest.len() && rest[i] is Filtered && launcher_run(
                        rest.take(i),
                    ) is Filter;
                assert(news.take(i) =~= rest.take(i));
                assert(news[i] is Filtered);
            } else {
                let i = news.len() - 1;
                assert(news.take(i) =~= rest);
                assert(news[i] is Filtered);
            }
        }
    }
}

proof fn lemma_str_bytes_len(s: Seq<char>)
    ensures
        str_bytes(s).len() == 2 + encode_utf8(s).len(),
{
    reveal(str_bytes);
    lemma_le_bytes_len(encode_utf8(s).len() % 0x1_0000, 2);
}

proof fn lemma_pair_ok(pairs: Seq<EnvPair>, from: int, i: int)
    requires
        0 <= from <= i < pairs.len(),
        first_pair_error(pairs, from) is None,
    ensures
        env_pair_error(pairs[i]) is None,
    decreases i - from,
{
    if from < i {
        lemma_pair_ok(pairs, from + 1, i);
    }
}

proof fn lemma_pairs_len(pairs: Seq<EnvPair>, n: nat)
    requires
        n <= pairs.len(),
        forall|i: int| 0 <= i < pairs.len() ==> env_pair_error(#[trigger] pairs[i]) is None,
    ensures
        pairs_bytes(pairs, n).len() <= n * 516,
    decreases n,
{
    if n > 0 {
        lemma_pairs_len(pairs, (n - 1) as nat);
        lemma_str_bytes_len(pairs[n - 1].0);
        lemma_str_bytes_len(pairs[n - 1].1);
        assert(env_pair_error(pairs[n - 1]) is None);
    }
}

proof fn lemma_blob_fits(v: LaunchView)
    requires
        encodable(v),
    ensures
        launch_bytes(v).len() <= BLOB_MAX,
{
    let body = launch_body(v);
    assert forall|i: int| 0 <= i < v.env_extra.len() implies env_pair_error(
        #[trigger] v.env_extra[i],
    ) is None by {
        lemma_pair_ok(v.env_extra, 0, i);
    }
    lemma_pairs_len(v.env_extra, v.env_extra.len());
    lemma_str_bytes_len(v.app_path);
    lemma_str_bytes_len(v.app_dir);
    lemma_str_bytes_len(v.vault_dir);
    lemma_str_bytes_len(v.app_id);
    lemma_le_bytes_len(v.env_extra.len() % 0x1_0000, 2);
    lemma_le_bytes_len(crate::exec_native::spec::crc32(body) as nat, 4);
    lemma_le_bytes_len(crate::exec_native::spec::VERSION as nat, 2);
    lemma_le_bytes_len(0, 2);
    lemma_le_bytes_len(v.caps_bits as nat, 4);
    lemma_le_bytes_len(v.instance as nat, 8);
    assert(launch_header(v).len() == 56);
}

proof fn lemma_framed_blob_is_read(blob: Seq<u8>, v: LaunchView)
    requires
        blob.len() <= BLOB_MAX,
        launch_parse(blob) == Ok::<LaunchView, ErrorView>(v),
    ensures
        launcher_run(
            seq![
                News::Length(framed(blob).take(4)),
                News::Blob(framed(blob).subrange(4, 4 + blob.len() as int)),
            ],
        ) == Stage::Listing(v),
{
    let sent = framed(blob);
    lemma_le_bytes_len(blob.len(), 4);
    lemma_pow256_values();
    lemma_le_round_trip(blob.len(), 4);
    assert(sent.take(4) =~= le_bytes(blob.len(), 4));
    assert(sent.subrange(4, 4 + blob.len() as int) =~= blob);
    let news = seq![News::Length(sent.take(4)), News::Blob(blob)];
    assert(news.drop_last() =~= seq![News::Length(sent.take(4))]);
    assert(news.drop_last().drop_last() =~= Seq::<News>::empty());
    assert(launcher_run(news.drop_last().drop_last()) == Stage::Length);
    assert(launcher_run(news.drop_last()) == Stage::Blob(blob.len()));
    assert(launcher_run(news) == launcher_next(Stage::Blob(blob.len()), News::Blob(blob)).0);
}

/// What the host sends for a launch, the launcher reads as that launch: the
/// length is within its limit, and the blob is the launch.
pub proof fn law_launcher_reads_the_launch(v: LaunchView)
    requires
        encodable(v),
    ensures
        ({
            let sent = framed(launch_bytes(v));
            let n = launch_bytes(v).len();
            &&& n <= BLOB_MAX
            &&& launcher_run(
                seq![News::Length(sent.take(4)), News::Blob(sent.subrange(4, 4 + n as int))],
            ) == Stage::Listing(v)
        }),
{
    lemma_blob_fits(v);
    law_launch_round_trip(v);
    lemma_framed_blob_is_read(launch_bytes(v), v);
}

} // verus!
