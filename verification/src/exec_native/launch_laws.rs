//! What holds of a launch from end to end: from the specification of the host
//! to the directory, the path and the environment of the application.
use vstd::prelude::*;
use vstd::utf8::*;

use crate::bytes::{le_bytes, le_value, lemma_le_bytes_len};
use crate::exec_abi::spec::AppSpec;
use crate::exec_native::drain::{drain_char, drain_text, kept, kept_from, without_returns, Drained};
use crate::exec_native::launcher::{
    closing, env_vars, environment, fd_named, identity_vars, launcher_next, launcher_run,
    law_launcher_reads_the_launch, put_var, Deed, News, Stage,
};
use crate::exec_native::masks::{caps_in, law_mask_round_trip};
use crate::exec_native::plan::{framed, is_elf, kept_fd, launch_view, ChildEnd, NativeProcessExec};
use crate::exec_native::spec::{
    crc32, env_error, env_pair_error, first_pair_error, launch_bytes, launch_header, magic,
    launch_parse, pairs_bytes, str_bytes, EnvPair, LaunchView,
};
use crate::exec_native::spec_laws::encodable;
use crate::pick::{is_selection, lemma_select_none, lemma_select_step};
use crate::text::{dec_text, hex_text, lemma_dec_text_value, lemma_signed_dec_text_value};
use crate::text::{hex_char, is_digit, signed_dec_text};
use crate::types::error::ErrorView;
use crate::types::Capability;

verus! {

/// Extra pairs are accepted exactly if there are at most 16 of them and each is
/// an ASCII key of 1 to 256 bytes that begins with `ARCA_` and is none of the
/// four that tell the identity, with a value of at most 256 bytes, both without
/// a NUL.
pub proof fn law_which_pairs_are_accepted(pairs: Seq<EnvPair>)
    ensures
        env_error(pairs) is None <==> pairs.len() <= 16 && forall|i: int|
            0 <= i < pairs.len() ==> {
                let (k, v) = #[trigger] pairs[i];
                &&& 1 <= k.len()
                &&& encode_utf8(k).len() <= 256
                &&& encode_utf8(v).len() <= 256
                &&& is_ascii_chars(k)
                &&& !k.contains('\0')
                &&& !v.contains('\0')
                &&& "ARCA_"@.is_prefix_of(k)
                &&& k != "ARCA_APP_ID"@
                &&& k != "ARCA_INSTANCE"@
                &&& k != "ARCA_ARTIFACT"@
                &&& k != "ARCA_VAULT"@
            },
{
    if pairs.len() <= 16 {
        lemma_no_pair_error(pairs, 0);
        assert(env_error(pairs) is None <==> forall|i: int|
            0 <= i < pairs.len() ==> env_pair_error(#[trigger] pairs[i]) is None);
        if env_error(pairs) is None {
            assert forall|i: int| 0 <= i < pairs.len() implies {
                let (k, v) = #[trigger] pairs[i];
                &&& 1 <= k.len()
                &&& encode_utf8(k).len() <= 256
                &&& encode_utf8(v).len() <= 256
                &&& is_ascii_chars(k)
                &&& !k.contains('\0')
                &&& !v.contains('\0')
                &&& "ARCA_"@.is_prefix_of(k)
                &&& k != "ARCA_APP_ID"@
                &&& k != "ARCA_INSTANCE"@
                &&& k != "ARCA_ARTIFACT"@
                &&& k != "ARCA_VAULT"@
            } by {
                assert(env_pair_error(pairs[i]) is None);
            }
        }
    }
}

proof fn lemma_no_pair_error(pairs: Seq<EnvPair>, from: int)
    requires
        0 <= from <= pairs.len(),
    ensures
        first_pair_error(pairs, from) is None <==> forall|i: int|
            from <= i < pairs.len() ==> env_pair_error(#[trigger] pairs[i]) is None,
    decreases pairs.len() - from,
{
    if from < pairs.len() {
        lemma_no_pair_error(pairs, from + 1);
        if env_pair_error(pairs[from]) is None {
            assert forall|i: int|
                first_pair_error(pairs, from + 1) is None && from <= i < pairs.len() implies
                env_pair_error(#[trigger] pairs[i]) is None by {}
        }
    }
}

/// Of several pairs that are refused, the first one tells the reason.
pub proof fn law_first_bad_pair_tells_the_reason(pairs: Seq<EnvPair>, i: int)
    requires
        pairs.len() <= 16,
        0 <= i < pairs.len(),
        env_pair_error(pairs[i]) is Some,
        forall|j: int| 0 <= j < i ==> env_pair_error(#[trigger] pairs[j]) is None,
    ensures
        env_error(pairs) == env_pair_error(pairs[i]),
{
    lemma_first_bad(pairs, 0, i);
}

proof fn lemma_first_bad(pairs: Seq<EnvPair>, from: int, i: int)
    requires
        0 <= from <= i < pairs.len(),
        env_pair_error(pairs[i]) is Some,
        forall|j: int| 0 <= j < i ==> env_pair_error(#[trigger] pairs[j]) is None,
    ensures
        first_pair_error(pairs, from) == env_pair_error(pairs[i]),
    decreases i - from,
{
    if from < i {
        assert(env_pair_error(pairs[from]) is None);
        lemma_first_bad(pairs, from + 1, i);
    }
}

proof fn lemma_no_nul_number(n: nat)
    ensures
        !dec_text(n).contains('\0'),
{
    lemma_dec_text_value(n);
    let t = dec_text(n);
    assert forall|i: int| 0 <= i < t.len() implies t[i] != '\0' by {
        assert(is_digit(t[i]));
    }
}

proof fn lemma_no_nul_hex(b: Seq<u8>)
    ensures
        !hex_text(b).contains('\0'),
{
    let t = hex_text(b);
    assert forall|i: int| 0 <= i < t.len() implies t[i] != '\0' by {
        let d: nat = if i % 2 == 0 {
            b[i / 2] as nat / 16
        } else {
            b[i / 2] as nat % 16
        };
        assert(d < 16);
        assert(t[i] == hex_char(d));
    }
}

proof fn lemma_no_nul_concat(a: Seq<char>, b: Seq<char>)
    requires
        !a.contains('\0'),
        !b.contains('\0'),
    ensures
        !(a + b).contains('\0'),
{
    let s = a + b;
    assert forall|i: int| 0 <= i < s.len() implies s[i] != '\0' by {
        if i < a.len() {
            assert(a.contains(a[i]));
        } else {
            assert(b.contains(b[i - a.len()]));
        }
    }
}

proof fn lemma_names_without_nul()
    ensures
        !"ARCA_APP_ID="@.contains('\0'),
        !"ARCA_INSTANCE="@.contains('\0'),
        !"ARCA_ARTIFACT="@.contains('\0'),
        !"ARCA_VAULT="@.contains('\0'),
{
    reveal_strlit("ARCA_APP_ID=");
    reveal_strlit("ARCA_INSTANCE=");
    reveal_strlit("ARCA_ARTIFACT=");
    reveal_strlit("ARCA_VAULT=");
}

proof fn lemma_extra_vars(v: LaunchView, n: nat)
    requires
        n <= v.env_extra.len(),
        env_error(v.env_extra) is None,
    ensures
        env_vars(v, n) == identity_vars(v) + Seq::new(
            n,
            |i: int| v.env_extra[i].0 + seq!['='] + v.env_extra[i].1,
        ),
    decreases n,
{
    let extra = Seq::new(n, |i: int| v.env_extra[i].0 + seq!['='] + v.env_extra[i].1);
    if n == 0 {
        assert(identity_vars(v) + extra =~= identity_vars(v));
    } else {
        lemma_extra_vars(v, (n - 1) as nat);
        law_which_pairs_are_accepted(v.env_extra);
        let (key, value) = v.env_extra[n - 1];
        let var = key.push('=') + value;
        assert(var =~= key + seq!['='] + value);
        assert(!key.contains('\0') && !value.contains('\0')) by {
            let (k, x) = v.env_extra[n - 1];
            assert(!k.contains('\0'));
        }
        assert(!seq!['='].contains('\0'));
        lemma_no_nul_concat(key, seq!['=']);
        lemma_no_nul_concat(key + seq!['='], value);
        assert(env_vars(v, n) =~= identity_vars(v) + extra);
    }
}

/// A launch is carried out as the application specification says. The launcher
/// that reads what the host sends for it applies the filter, closes the
/// descriptors, enters the application's own directory, and executes the
/// artifact with exactly these variables, in this order: the identity of the
/// application, the number of the instance, the digest of the artifact, the
/// private directory, and the extra pairs.
#[verifier::spinoff_prover]
#[verifier::rlimit(60)]
pub proof fn law_launched_as_specified(
    spec: AppSpec,
    env: Seq<EnvPair>,
    names: Seq<Seq<char>>,
    own: Option<i32>,
)
    requires
        encode_utf8(spec.artifact.path@).len() < 0x1_0000,
        encode_utf8(spec.dirs.app_dir@).len() < 0x1_0000,
        encode_utf8(spec.dirs.vault_dir@).len() < 0x1_0000,
        encode_utf8(spec.app_id@).len() < 0x1_0000,
        env_error(env) is None,
        !spec.artifact.path@.contains('\0'),
        !spec.dirs.vault_dir@.contains('\0'),
        !spec.app_id@.contains('\0'),
    ensures
        ({
            let sent = framed(launch_bytes(launch_view(spec, env)));
            let read = seq![News::Length(sent.take(4)), News::Blob(sent.skip(4))];
            let listed = read.push(News::Fds(names, own));
            let filtered = listed.push(News::Filtered);
            let closed = filtered.push(News::Closed);
            &&& launcher_next(launcher_run(read), News::Fds(names, own)).1 == Deed::ApplyFilter
            &&& launcher_next(launcher_run(listed), News::Filtered).1 is CloseFds
            &&& launcher_next(launcher_run(filtered), News::Closed).1 == Deed::EnterDir(
                spec.dirs.app_dir@,
            )
            &&& launcher_next(launcher_run(closed), News::Entered).1 == Deed::Execute(
                spec.artifact.path@,
                seq![
                    "ARCA_APP_ID="@ + spec.app_id@,
                    "ARCA_INSTANCE="@ + dec_text(spec.instance.value() as nat),
                    "ARCA_ARTIFACT="@ + hex_text(spec.artifact.hash@),
                    "ARCA_VAULT="@ + spec.dirs.vault_dir@,
                ] + Seq::new(env.len(), |i: int| env[i].0 + seq!['='] + env[i].1),
            )
        }),
{
    let v = launch_view(spec, env);
    let blob = launch_bytes(v);
    let sent = framed(blob);
    assert(encodable(v)) by {
        assert(v.artifact.len() == 32);
    }
    law_launcher_reads_the_launch(v);
    lemma_le_bytes_len(blob.len() % 0x1_0000_0000, 4);
    assert(sent.skip(4) =~= sent.subrange(4, 4 + blob.len() as int));
    let read = seq![News::Length(sent.take(4)), News::Blob(sent.skip(4))];
    assert(launcher_run(read) == Stage::Listing(v));
    let listed = read.push(News::Fds(names, own));
    assert(listed.drop_last() =~= read);
    assert(launcher_run(listed) == Stage::Filter(v, closing(names, own)));
    let filtered = listed.push(News::Filtered);
    assert(filtered.drop_last() =~= listed);
    assert(launcher_run(filtered) == Stage::Closing(v));
    let closed = filtered.push(News::Closed);
    assert(closed.drop_last() =~= filtered);
    assert(launcher_run(closed) == Stage::Entering(v));
    lemma_names_without_nul();
    lemma_no_nul_number(v.instance as nat);
    lemma_no_nul_hex(v.artifact);
    lemma_no_nul_concat("ARCA_APP_ID="@, v.app_id);
    lemma_no_nul_concat("ARCA_INSTANCE="@, dec_text(v.instance as nat));
    lemma_no_nul_concat("ARCA_ARTIFACT="@, hex_text(v.artifact));
    lemma_no_nul_concat("ARCA_VAULT="@, v.vault_dir);
    let identity = seq![
        "ARCA_APP_ID="@ + spec.app_id@,
        "ARCA_INSTANCE="@ + dec_text(spec.instance.value() as nat),
        "ARCA_ARTIFACT="@ + hex_text(spec.artifact.hash@),
        "ARCA_VAULT="@ + spec.dirs.vault_dir@,
    ];
    assert(identity_vars(v) =~= identity);
    lemma_extra_vars(v, env.len());
    assert(Seq::new(env.len(), |i: int| v.env_extra[i].0 + seq!['='] + v.env_extra[i].1)
        =~= Seq::new(env.len(), |i: int| env[i].0 + seq!['='] + env[i].1));
    assert(environment(v) == identity + Seq::new(
        env.len(),
        |i: int| env[i].0 + seq!['='] + env[i].1,
    ));
}

/// What the watch over the instance is told of it is what the specification
/// says: identity, number, digest, and each granted capability.
pub proof fn law_watched_as_specified(spec: AppSpec, env: Seq<EnvPair>, c: Capability)
    ensures
        launch_view(spec, env).app_id == spec.app_id@,
        launch_view(spec, env).instance == spec.instance.value(),
        launch_view(spec, env).artifact == spec.artifact.hash@,
        launch_view(spec, env).env_extra == env,
        caps_in(launch_view(spec, env).caps_bits).contains(c) <==> spec.caps@.contains(c),
{
    law_mask_round_trip(spec.caps@);
}

/// No variable of an instance holds a NUL, whatever the launch says.
pub proof fn law_environment_is_free_of_nul(v: LaunchView, i: int)
    requires
        0 <= i < environment(v).len(),
    ensures
        !environment(v)[i].contains('\0'),
{
    lemma_env_free_of_nul(v, v.env_extra.len());
}

proof fn lemma_env_free_of_nul(v: LaunchView, n: nat)
    ensures
        forall|i: int|
            0 <= i < env_vars(v, n).len() ==> !(#[trigger] env_vars(v, n)[i]).contains('\0'),
    decreases n,
{
    if n > 0 && n <= v.env_extra.len() {
        lemma_env_free_of_nul(v, (n - 1) as nat);
        lemma_put_free_of_nul(
            env_vars(v, (n - 1) as nat),
            v.env_extra[n - 1].0.push('=') + v.env_extra[n - 1].1,
        );
    } else {
        let one = put_var(Seq::empty(), "ARCA_APP_ID="@ + v.app_id);
        let two = put_var(one, "ARCA_INSTANCE="@ + dec_text(v.instance as nat));
        let three = put_var(two, "ARCA_ARTIFACT="@ + hex_text(v.artifact));
        lemma_put_free_of_nul(Seq::empty(), "ARCA_APP_ID="@ + v.app_id);
        lemma_put_free_of_nul(one, "ARCA_INSTANCE="@ + dec_text(v.instance as nat));
        lemma_put_free_of_nul(two, "ARCA_ARTIFACT="@ + hex_text(v.artifact));
        lemma_put_free_of_nul(three, "ARCA_VAULT="@ + v.vault_dir);
    }
}

proof fn lemma_put_free_of_nul(env: Seq<Seq<char>>, var: Seq<char>)
    requires
        forall|i: int| 0 <= i < env.len() ==> !(#[trigger] env[i]).contains('\0'),
    ensures
        forall|i: int|
            0 <= i < put_var(env, var).len() ==> !(#[trigger] put_var(env, var)[i]).contains('\0'),
{
    let out = put_var(env, var);
    assert forall|i: int| 0 <= i < out.len() implies !(#[trigger] out[i]).contains('\0') by {
        if i < env.len() {
            assert(out[i] == env[i]);
        }
    }
}

/// Which descriptors are closed before the application starts: every open one
/// whose name is a number, but for the listing itself, the three standard
/// streams, the control socket (4) and the two signals (5 and 6), each in the
/// order of the listing.
pub proof fn law_all_but_the_kept_are_closed(names: Seq<Seq<char>>, own: Option<i32>)
    ensures
        is_selection(
            closing(names, own),
            names,
            |n: Seq<char>|
                fd_named(n) is Some && fd_named(n) != own && fd_named(n)->0 != 0 && fd_named(n)->0
                    != 1 && fd_named(n)->0 != 2 && fd_named(n)->0 != 4 && fd_named(n)->0 != 5
                    && fd_named(n)->0 != 6,
            |n: Seq<char>| fd_named(n)->0,
        ),
    decreases names.len(),
{
    let good = |n: Seq<char>|
        fd_named(n) is Some && fd_named(n) != own && fd_named(n)->0 != 0 && fd_named(n)->0 != 1
            && fd_named(n)->0 != 2 && fd_named(n)->0 != 4 && fd_named(n)->0 != 5 && fd_named(n)->0
            != 6;
    let make = |n: Seq<char>| fd_named(n)->0;
    if names.len() == 0 {
        lemma_select_none(closing(names, own), names, good, make);
    } else {
        law_all_but_the_kept_are_closed(names.drop_last(), own);
        lemma_select_step(closing(names.drop_last(), own), names, good, make);
    }
}

/// A descriptor is found under the decimal form of its number.
pub proof fn law_descriptors_are_named_by_number(fd: i32)
    ensures
        fd_named(signed_dec_text(fd as int)) == Some(fd),
{
    lemma_signed_dec_text_value(fd as int);
}

/// Where the child finds its ends: the output streams at 1 and 2, the blob at
/// 3, the control socket at 4, the signals at 5 and 6.
pub proof fn law_numbers_of_the_ends()
    ensures
        ChildEnd::Stdout.number() == 1,
        ChildEnd::Stderr.number() == 2,
        ChildEnd::Blob.number() == 3,
        ChildEnd::Control.number() == 4,
        ChildEnd::SignalIn.number() == 5,
        ChildEnd::SignalOut.number() == 6,
        forall|fd: i32| #[trigger] kept_fd(fd) <==> 0 <= fd <= 6 && fd != 3,
{
}

/// An artifact is launched only if its file begins with the four bytes of ELF.
pub proof fn law_elf_begins_with_its_mark(head: Seq<u8>)
    ensures
        is_elf(head) <==> seq![0x7fu8, 0x45u8, 0x4cu8, 0x46u8].is_prefix_of(head),
{
    let mark = seq![0x7fu8, 0x45u8, 0x4cu8, 0x46u8];
    if is_elf(head) {
        assert(head.subrange(0, 4) =~= mark);
    }
    if mark.is_prefix_of(head) {
        assert(head.subrange(0, 4)[0] == mark[0] && head.subrange(0, 4)[1] == mark[1]
            && head.subrange(0, 4)[2] == mark[2] && head.subrange(0, 4)[3] == mark[3]);
    }
}

/// What is announced of the shared memory: the frame and the slots as the
/// executor has them, no atlas, and 64 bytes for each slot of input.
pub proof fn law_layout_is_announced_as_it_is(exec: NativeProcessExec)
    requires
        exec.frame_bytes <= u32::MAX,
        exec.input_slots <= u32::MAX,
    ensures
        exec.layout().frame_slot_bytes == exec.frame_bytes,
        exec.layout().input_slots == exec.input_slots,
        exec.layout().input_slot_bytes == 64,
        exec.layout().atlas_bytes == 0,
{
}

/// The form of a launch blob, from its first byte to its last: the mark, the
/// version 2, two zeros, the capabilities, the number of the instance, the
/// digest, then path, directory, private directory and identity, the number of
/// extra pairs, the pairs, and the checksum of everything before. Numbers are
/// little-endian, and a text has its length in two bytes in front.
#[verifier::spinoff_prover]
#[verifier::rlimit(60)]
pub proof fn law_form_of_the_blob(v: LaunchView)
    requires
        encodable(v),
    ensures
        ({
            let text = |s: Seq<char>| le_bytes(encode_utf8(s).len(), 2) + encode_utf8(s);
            let body = seq![65u8, 82u8, 67u8, 76u8, 78u8, 67u8, 49u8, 0u8] + seq![2u8, 0u8, 0u8, 0u8]
                + le_bytes(v.caps_bits as nat, 4) + le_bytes(v.instance as nat, 8) + v.artifact
                + text(v.app_path) + text(v.app_dir) + text(v.vault_dir) + text(v.app_id)
                + le_bytes(v.env_extra.len(), 2) + pairs_bytes(v.env_extra, v.env_extra.len());
            launch_bytes(v) == body + le_bytes(crc32(body) as nat, 4)
        }),
{
    assert(v.env_extra.len() <= 16) by {
        law_which_pairs_are_accepted(v.env_extra);
    }
    let text = |s: Seq<char>| le_bytes(encode_utf8(s).len(), 2) + encode_utf8(s);
    assert(str_bytes(v.app_path) == text(v.app_path)) by {
        reveal(str_bytes);
    }
    assert(str_bytes(v.app_dir) == text(v.app_dir)) by {
        reveal(str_bytes);
    }
    assert(str_bytes(v.vault_dir) == text(v.vault_dir)) by {
        reveal(str_bytes);
    }
    assert(str_bytes(v.app_id) == text(v.app_id)) by {
        reveal(str_bytes);
    }
    lemma_form_of_the_header(v);
}

proof fn lemma_form_of_the_header(v: LaunchView)
    ensures
        launch_header(v) == seq![65u8, 82u8, 67u8, 76u8, 78u8, 67u8, 49u8, 0u8] + seq![
            2u8,
            0u8,
            0u8,
            0u8,
        ] + le_bytes(v.caps_bits as nat, 4) + le_bytes(v.instance as nat, 8) + v.artifact,
{
    assert(le_bytes(2, 2) =~= seq![2u8, 0u8]) by {
        reveal_with_fuel(le_bytes, 3);
    }
    assert(le_bytes(0, 2) =~= seq![0u8, 0u8]) by {
        reveal_with_fuel(le_bytes, 3);
    }
    let mark = seq![65u8, 82u8, 67u8, 76u8, 78u8, 67u8, 49u8, 0u8];
    assert(mark + seq![2u8, 0u8] + seq![0u8, 0u8] =~= mark + seq![2u8, 0u8, 0u8, 0u8]);
}

/// The pairs in a blob: each is its key and its value, one behind the other.
pub proof fn law_form_of_the_pairs(pairs: Seq<EnvPair>, key: Seq<char>, value: Seq<char>)
    requires
        encode_utf8(key).len() < 0x1_0000,
        encode_utf8(value).len() < 0x1_0000,
    ensures
        pairs_bytes(pairs.push((key, value)), pairs.len() + 1) == pairs_bytes(pairs, pairs.len())
            + (le_bytes(encode_utf8(key).len(), 2) + encode_utf8(key)) + (le_bytes(
            encode_utf8(value).len(),
            2,
        ) + encode_utf8(value)),
{
    lemma_pairs_push(pairs, (key, value), pairs.len());
    assert(str_bytes(key) == le_bytes(encode_utf8(key).len(), 2) + encode_utf8(key)) by {
        reveal(str_bytes);
    }
    assert(str_bytes(value) == le_bytes(encode_utf8(value).len(), 2) + encode_utf8(value)) by {
        reveal(str_bytes);
    }
}

proof fn lemma_pairs_push(pairs: Seq<EnvPair>, p: EnvPair, n: nat)
    requires
        n <= pairs.len(),
    ensures
        pairs_bytes(pairs.push(p), n) == pairs_bytes(pairs, n),
    decreases n,
{
    if n > 0 {
        lemma_pairs_push(pairs, p, (n - 1) as nat);
    }
}

proof fn lemma_returns_go(body: Seq<char>, n: nat)
    requires
        body.len() == 0 || body.last() != '\r',
    ensures
        without_returns(body + Seq::new(n, |i: int| '\r')) == body,
    decreases n,
{
    let s = body + Seq::new(n, |i: int| '\r');
    if n == 0 {
        assert(s =~= body);
    } else {
        lemma_returns_go(body, (n - 1) as nat);
        assert(s.drop_last() =~= body + Seq::new((n - 1) as nat, |i: int| '\r'));
    }
}

/// Output without a line end finishes no line: it waits behind what waited
/// before.
pub proof fn law_unfinished_output_waits(d: Drained, text: Seq<char>)
    requires
        !text.contains('\n'),
    ensures
        drain_text(d, text).pending == d.pending + text,
        drain_text(d, text).lines == d.lines,
    decreases text.len(),
{
    if text.len() == 0 {
        assert(d.pending + text =~= d.pending);
    } else {
        let rest = text.drop_last();
        assert forall|i: int| 0 <= i < rest.len() implies rest[i] != '\n' by {
            assert(text.contains(text[i]));
        }
        assert(text.contains(text[text.len() - 1]));
        law_unfinished_output_waits(d, rest);
        assert(d.pending + text =~= (d.pending + rest).push(text.last()));
    }
}

/// A line end finishes the line that waited together with what came before the
/// line end, without any carriage returns at its end. An empty line is not
/// reported, and nothing waits afterwards.
pub proof fn law_a_line_end_finishes_the_line(
    d: Drained,
    text: Seq<char>,
    line: Seq<char>,
    ends: nat,
)
    requires
        !text.contains('\n'),
        d.pending + text == line + Seq::new(ends, |i: int| '\r'),
        line.len() == 0 || line.last() != '\r',
    ensures
        drain_text(d, text.push('\n')).pending.len() == 0,
        line.len() > 0 ==> drain_text(d, text.push('\n')).lines == d.lines.push(line),
        line.len() == 0 ==> drain_text(d, text.push('\n')).lines == d.lines,
{
    law_unfinished_output_waits(d, text);
    assert(text.push('\n').drop_last() =~= text);
    assert(drain_text(d, text.push('\n')) == drain_char(drain_text(d, text), '\n'));
    lemma_returns_go(line, ends);
}

/// What is kept of an unfinished line is the longest end of it that takes at
/// most 65536 bytes.
pub proof fn law_the_longest_end_is_kept(line: Seq<char>)
    ensures
        exists|k: int|
            0 <= k <= line.len() && kept(line) == #[trigger] line.skip(k) && encode_utf8(
                line.skip(k),
            ).len() <= 65536 && forall|j: int|
                0 <= j < k ==> encode_utf8(#[trigger] line.skip(j)).len() > 65536,
{
    lemma_longest_end(line, 0);
    let k = kept_from(line, 0);
    assert(kept(line) == line.skip(k));
}

proof fn lemma_longest_end(line: Seq<char>, from: int)
    requires
        0 <= from <= line.len(),
        forall|j: int| 0 <= j < from ==> encode_utf8(#[trigger] line.skip(j)).len() > 65536,
    ensures
        from <= kept_from(line, from) <= line.len(),
        encode_utf8(line.skip(kept_from(line, from))).len() <= 65536,
        forall|j: int|
            0 <= j < kept_from(line, from) ==> encode_utf8(#[trigger] line.skip(j)).len() > 65536,
    decreases line.len() - from,
{
    if from == line.len() {
        assert(line.skip(from) =~= Seq::<char>::empty());
    } else if encode_utf8(line.skip(from)).len() > 65536 {
        lemma_longest_end(line, from + 1);
    }
}

/// A blob is refused for the first of these reasons: it is shorter than 60
/// bytes, it does not begin with the mark, its version is not 2, or its last four
/// bytes are not the checksum of the rest.
pub proof fn law_why_a_blob_is_refused(b: Seq<u8>)
    ensures
        b.len() < 60 ==> launch_parse(b) == Err::<LaunchView, ErrorView>(
            ErrorView::InvalidFrame("launch spec: más corta que la cabecera mínima"@),
        ),
        b.len() >= 60 && b.take(8) != seq![65u8, 82u8, 67u8, 76u8, 78u8, 67u8, 49u8, 0u8]
            ==> launch_parse(b) == Err::<LaunchView, ErrorView>(
            ErrorView::InvalidFrame("launch spec: magic inválido"@),
        ),
        b.len() >= 60 && b.take(8) == seq![65u8, 82u8, 67u8, 76u8, 78u8, 67u8, 49u8, 0u8]
            && le_value(b.subrange(8, 10)) != 2 ==> launch_parse(b) == Err::<LaunchView, ErrorView>(
            ErrorView::InvalidFrame("launch spec: versión no soportada"@),
        ),
        b.len() >= 60 && b.take(8) == seq![65u8, 82u8, 67u8, 76u8, 78u8, 67u8, 49u8, 0u8]
            && le_value(b.subrange(8, 10)) == 2 && crc32(b.take(b.len() - 4)) != le_value(
            b.skip(b.len() - 4),
        ) ==> launch_parse(b) == Err::<LaunchView, ErrorView>(
            ErrorView::InvalidFrame("launch spec: crc32 no coincide"@),
        ),
        launch_parse(b) matches Ok(v) ==> v.artifact == b.subrange(24, 56) && v.instance == le_value(
            b.subrange(16, 24),
        ) as u64 && v.caps_bits == le_value(b.subrange(12, 16)) as u32,
{
    if b.len() >= 60 {
        assert(b.take(8) =~= b.subrange(0, 8));
        assert(b.take(b.len() - 4) =~= b.subrange(0, b.len() - 4));
        assert(b.skip(b.len() - 4) =~= b.subrange(b.len() - 4, b.len() as int));
    }
}

/// The launcher takes a blob of at most 1048576 bytes, as many as the four bytes
/// before it announce, and gives up on a longer one.
pub proof fn law_launcher_takes_a_mebibyte(head: Seq<u8>)
    ensures
        le_value(head) <= 1048576 ==> launcher_next(Stage::Length, News::Length(head)) == (
            Stage::Blob(le_value(head)),
            Deed::ReadBlob(le_value(head)),
        ),
        le_value(head) > 1048576 ==> launcher_next(Stage::Length, News::Length(head)) == (
            Stage::Failed,
            Deed::Abort(ErrorView::InvalidFrame("launch spec: >1 MiB"@)),
        ),
{
}

/// A step that fails ends the launcher with that failure, whatever it was doing,
/// and so does a blob that cannot be read; news that do not belong to the
/// stage end it too.
pub proof fn law_launcher_gives_up(stage: Stage, news: News, e: ErrorView, n: nat, blob: Seq<u8>)
    ensures
        launcher_next(stage, News::Failed(e)) == (Stage::Failed, Deed::Abort(e)),
        launch_parse(blob) == Err::<LaunchView, ErrorView>(e) ==> launcher_next(
            Stage::Blob(n),
            News::Blob(blob),
        ) == (Stage::Failed, Deed::Abort(e)),
        launch_parse(blob) matches Ok(v) ==> launcher_next(Stage::Blob(n), News::Blob(blob)) == (
            Stage::Listing(v),
            Deed::ListFds,
        ),
        !(news is Failed) && !(stage is Length && news is Length) && !(stage is Blob
            && news is Blob) && !(stage is Listing && news is Fds) && !(stage is Filter
            && news is Filtered) && !(stage is Closing && news is Closed) && !(stage is Entering
            && news is Entered) ==> launcher_next(stage, news) == (
            Stage::Failed,
            Deed::Abort(ErrorView::Internal("launch: paso fuera de orden"@)),
        ),
{
}

/// The descriptors that are closed are those that the listing told before the
/// filter was applied; an application whose path holds a NUL is not executed.
pub proof fn law_launcher_closes_what_was_listed(
    v: LaunchView,
    names: Seq<Seq<char>>,
    own: Option<i32>,
)
    ensures
        launcher_next(
            launcher_next(Stage::Listing(v), News::Fds(names, own)).0,
            News::Filtered,
        ).1 == Deed::CloseFds(closing(names, own)),
        v.app_path.contains('\0') ==> launcher_next(Stage::Entering(v), News::Entered) == (
            Stage::Failed,
            Deed::Abort(ErrorView::Internal("launch: app_path con NUL"@)),
        ),
{
}

} // verus!
