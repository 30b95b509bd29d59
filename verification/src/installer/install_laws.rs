//! What holds of an installation: which packages and which files are accepted,
//! and what the planned changes make of the directory of an application.
use vstd::prelude::*;
use vstd::utf8::*;

use crate::bytes::{le_bytes, lemma_le_bytes_len, lemma_le_round_trip, lemma_pow256_values};
use crate::installer::linked::{
    self, dangling_names, hex16, link_steps, tmp_names, without_v, FactsView,
};
use crate::installer::package::{
    all_there, control_error, control_matches, declared, listing_of, meta_of, MetaView,
};
use crate::installer::report::{linked_uninstall, staged_uninstall, UninstallStep};
use crate::installer::staged::{
    self, candidates, commit_steps, leftovers, policy_error, revert_steps, version_text,
};
use crate::installer::stages::strict_meta;
use crate::installer::tree::{
    lemma_run_concat, lemma_run_few, lemma_run_push, run, version_dir, Step, Tree,
};
use crate::installer::verify::{file_problem, first_problem, relative, Found};
use crate::pick::{is_selection, lemma_select_none, lemma_select_step};
use crate::pkg::{semver_less, semver_ok, Artifact, EntryInfo, EntryKind};
use crate::sign::sig::envelope_parse;
use crate::text::{hex_char, hex_text, joined_path, lossy_text};
use crate::trim::{is_white, law_only_white_ends_go, trimmed};
use crate::types::digest::{blake3_256, hex_decoded, is_hex_digit, law_hex_round_trip};
use crate::types::error::ErrorView;

verus! {

/// An installation is accepted exactly if every declared file is there, has the
/// declared hash, and has its precompiled form where it declares one.
pub proof fn law_accepted_iff_every_file_is_right(artifacts: Seq<Artifact>, found: Seq<Found>)
    ensures
        first_problem(artifacts, found, 0) is None <==> forall|i: int|
            0 <= i < artifacts.len() ==> found[i].there && found[i].sha256@ == (
            #[trigger] artifacts[i]).sha256@ && (artifacts[i].aot_path is Some
                ==> found[i].aot_there),
{
    lemma_no_problem_iff(artifacts, found, 0);
}

proof fn lemma_no_problem_iff(artifacts: Seq<Artifact>, found: Seq<Found>, from: int)
    requires
        0 <= from <= artifacts.len(),
    ensures
        first_problem(artifacts, found, from) is None <==> forall|i: int|
            from <= i < artifacts.len() ==> found[i].there && found[i].sha256@ == (
            #[trigger] artifacts[i]).sha256@ && (artifacts[i].aot_path is Some
                ==> found[i].aot_there),
    decreases artifacts.len() - from,
{
    if from < artifacts.len() {
        lemma_no_problem_iff(artifacts, found, from + 1);
        let a = artifacts[from];
        if first_problem(artifacts, found, from) is None {
            assert forall|i: int| from <= i < artifacts.len() implies found[i].there
                && found[i].sha256@ == (#[trigger] artifacts[i]).sha256@ && (
            artifacts[i].aot_path is Some ==> found[i].aot_there) by {}
        }
    }
}

/// The first declared file that is not right tells what is wrong with it: a
/// missing file before a wrong hash, and that before a missing precompiled form.
pub proof fn law_first_wrong_file_is_told(artifacts: Seq<Artifact>, found: Seq<Found>, i: int)
    requires
        0 <= i < artifacts.len(),
        forall|j: int|
            0 <= j < i ==> found[j].there && found[j].sha256@ == (#[trigger] artifacts[j]).sha256@
                && (artifacts[j].aot_path is Some ==> found[j].aot_there),
    ensures
        !found[i].there ==> first_problem(artifacts, found, 0) == Some(
            "verify_installed: artefacto ausente"@,
        ),
        found[i].there && found[i].sha256@ != artifacts[i].sha256@ ==> first_problem(
            artifacts,
            found,
            0,
        ) == Some("verify_installed: sha no coincide"@),
        found[i].there && found[i].sha256@ == artifacts[i].sha256@ && artifacts[i].aot_path is Some
            && !found[i].aot_there ==> first_problem(artifacts, found, 0) == Some(
            "verify_installed: aot ausente"@,
        ),
{
    lemma_problem_at(artifacts, found, 0, i);
}

proof fn lemma_problem_at(artifacts: Seq<Artifact>, found: Seq<Found>, from: int, i: int)
    requires
        0 <= from <= i < artifacts.len(),
        forall|j: int|
            0 <= j < i ==> found[j].there && found[j].sha256@ == (#[trigger] artifacts[j]).sha256@
                && (artifacts[j].aot_path is Some ==> found[j].aot_there),
    ensures
        file_problem(artifacts[i], found[i]) is Some ==> first_problem(artifacts, found, from)
            == file_problem(artifacts[i], found[i]),
    decreases i - from,
{
    if from < i {
        assert(file_problem(artifacts[from], found[from]) is None);
        lemma_problem_at(artifacts, found, from + 1, i);
    }
}

/// Each file is verified against the hash that was declared last for its path,
/// and only declared files are.
pub proof fn law_last_declaration_counts(artifacts: Seq<Artifact>, i: int, path: Seq<char>)
    requires
        0 <= i < artifacts.len(),
        forall|j: int| i < j < artifacts.len() ==> (#[trigger] artifacts[j]).path@
            != artifacts[i].path@,
    ensures
        declared(artifacts).dom().contains(artifacts[i].path@),
        declared(artifacts)[artifacts[i].path@] == artifacts[i].sha256@,
        (forall|j: int| 0 <= j < artifacts.len() ==> (#[trigger] artifacts[j]).path@ != path)
            ==> !declared(artifacts).dom().contains(path),
    decreases artifacts.len(),
{
    let rest = artifacts.drop_last();
    if i < rest.len() {
        assert forall|j: int| i < j < rest.len() implies (#[trigger] rest[j]).path@
            != rest[i].path@ by {
            assert(rest[j] == artifacts[j]);
        }
        law_last_declaration_counts(rest, i, path);
        assert(artifacts[artifacts.len() - 1].path@ != artifacts[i].path@);
    }
    lemma_undeclared(artifacts, path);
}

proof fn lemma_undeclared(artifacts: Seq<Artifact>, path: Seq<char>)
    ensures
        (forall|j: int| 0 <= j < artifacts.len() ==> (#[trigger] artifacts[j]).path@ != path)
            ==> !declared(artifacts).dom().contains(path),
    decreases artifacts.len(),
{
    if artifacts.len() > 0 && forall|j: int|
        0 <= j < artifacts.len() ==> (#[trigger] artifacts[j]).path@ != path {
        let rest = artifacts.drop_last();
        assert forall|j: int| 0 <= j < rest.len() implies (#[trigger] rest[j]).path@ != path by {
            assert(rest[j] == artifacts[j]);
        }
        lemma_undeclared(rest, path);
        assert(artifacts[artifacts.len() - 1].path@ != path);
    }
}

/// The files that are read first are accepted exactly if all three are there,
/// the signature has its form and the control file agrees with the manifest;
/// what is then known of the package is the manifest, its digest and the
/// signature.
pub proof fn law_meta_needs_all_three(files: Map<Seq<char>, Seq<u8>>)
    ensures
        meta_of(files) is Ok <==> files.dom().contains("manifest.toml"@) && files.dom().contains(
            "meta/signature.bin"@,
        ) && files.dom().contains("meta/manifest.digest"@) && envelope_parse(
            files["meta/signature.bin"@],
        ) is Ok && control_matches(files["meta/manifest.digest"@], files["manifest.toml"@]),
        meta_of(files) matches Ok(m) ==> m.manifest == files["manifest.toml"@] && m.manifest_sha
            == blake3_256(files["manifest.toml"@]) && Ok::<Seq<u8>, ErrorView>(m.sig) == (
        match envelope_parse(files["meta/signature.bin"@]) {
            Ok(s) => Ok(s.sig),
            Err(e) => Err(e),
        }),
        !files.dom().contains("manifest.toml"@) ==> meta_of(files) == Err::<MetaView, ErrorView>(
            ErrorView::InvalidPackage("manifest.toml ausente"@),
        ),
{
}

/// The strict reading accepts what is signed and controlled, and knows the same
/// of the package.
pub proof fn law_strict_meta_needs_signature_and_control(
    manifest: Seq<u8>,
    files: Map<Seq<char>, Seq<u8>>,
)
    ensures
        strict_meta(manifest, files) is Ok <==> files.dom().contains("meta/signature.bin"@)
            && files.dom().contains("meta/manifest.digest"@) && envelope_parse(
            files["meta/signature.bin"@],
        ) is Ok && control_error(files["meta/manifest.digest"@], blake3_256(manifest)) is None,
        strict_meta(manifest, files) matches Ok(m) ==> m.manifest == manifest && m.manifest_sha
            == blake3_256(manifest) && Ok::<Seq<u8>, ErrorView>(m.sig) == (match envelope_parse(
            files["meta/signature.bin"@],
        ) {
            Ok(s) => Ok(s.sig),
            Err(e) => Err(e),
        }),
{
}

proof fn lemma_hex_is_not_white(b: Seq<u8>)
    ensures
        forall|i: int| 0 <= i < hex_text(b).len() ==> !is_white(#[trigger] hex_text(b)[i]),
{
    let t = hex_text(b);
    assert forall|i: int| 0 <= i < t.len() implies !is_white(#[trigger] t[i]) by {
        let d: nat = if i % 2 == 0 {
            b[i / 2] as nat / 16
        } else {
            b[i / 2] as nat % 16
        };
        assert(d < 16);
        assert(t[i] == hex_char(d));
    }
}

/// A control file that writes the digest of the manifest in hexadecimal, with
/// any white space around it, is accepted.
pub proof fn law_written_digest_is_accepted(
    manifest: Seq<u8>,
    sha: Seq<u8>,
    before: Seq<char>,
    after: Seq<char>,
)
    requires
        sha.len() == 32,
        forall|i: int| 0 <= i < before.len() ==> is_white(#[trigger] before[i]),
        forall|i: int| 0 <= i < after.len() ==> is_white(#[trigger] after[i]),
    ensures
        control_error(encode_utf8(before + hex_text(sha) + after), sha) is None,
        forall|control: Seq<u8>| #[trigger]
            lossy_text(control) == before + hex_text(sha) + after && blake3_256(manifest) == sha
                ==> control_matches(control, manifest),
{
    let t = before + hex_text(sha) + after;
    lemma_hex_is_not_white(sha);
    assert(hex_text(sha).len() == 64);
    assert(!is_white(hex_text(sha)[0]) && !is_white(hex_text(sha)[63]));
    law_only_white_ends_go(before, hex_text(sha), after);
    law_hex_round_trip(sha);
    encode_utf8_valid_utf8(t);
    encode_utf8_decode_utf8(t);
}

/// A control file is accepted only if its text, without the white space around
/// it, is 64 hexadecimal digits that write the digest.
pub proof fn law_accepted_control_writes_the_digest(control: Seq<u8>, sha: Seq<u8>)
    requires
        control_error(control, sha) is None,
    ensures
        valid_utf8(control),
        ({
            let digits = encode_utf8(trimmed(decode_utf8(control)));
            &&& digits.len() == 64
            &&& forall|i: int| 0 <= i < 64 ==> is_hex_digit(#[trigger] digits[i])
            &&& hex_decoded(digits, 32) == sha
        }),
{
}

/// A listing has one entry for each of the archive, under its own path: a
/// directory for a directory, and a file for everything else.
pub proof fn law_listing_is_of_the_archive(entries: Seq<EntryInfo>, i: int)
    requires
        0 <= i < entries.len(),
    ensures
        listing_of(entries).len() == entries.len(),
        listing_of(entries)[i].0 == entries[i].path@,
        listing_of(entries)[i].1 == EntryKind::Dir <==> entries[i].is_dir,
        listing_of(entries)[i].1 == EntryKind::File <==> !entries[i].is_dir,
{
}

/// All declared files are there exactly if each of them was looked for and
/// found.
pub proof fn law_every_declared_file_is_looked_for(artifacts: Seq<Artifact>, present: Seq<bool>)
    ensures
        all_there(artifacts, present) <==> present == Seq::new(artifacts.len(), |i: int| true),
{
    if all_there(artifacts, present) {
        assert(present =~= Seq::new(artifacts.len(), |i: int| true));
    }
    if present == Seq::new(artifacts.len(), |i: int| true) {
        assert forall|i: int| 0 <= i < present.len() implies present[i] by {
            assert(Seq::new(artifacts.len(), |i: int| true)[i]);
        }
    }
}

/// A version may be installed over a registered one unless it comes before it
/// and going back was not allowed. Without a registered version there is
/// nothing in the way; one that cannot be read is in the way.
pub proof fn law_only_going_back_needs_leave(
    registered: Seq<char>,
    new: Seq<char>,
    allow_downgrade: bool,
)
    ensures
        policy_error(None, new, allow_downgrade) is None,
        policy_error(Some(registered), new, allow_downgrade) is None <==> semver_ok(registered) && (
        allow_downgrade || !semver_less(new, registered)),
        policy_error(Some(registered), new, true) is None <==> semver_ok(registered),
        linked::is_downgrade(new, Some(registered)) <==> semver_less(new, registered),
        !linked::is_downgrade(new, None),
{
}

/// What making a version active by renaming does: the extraction becomes the
/// directory of the new version, and the active version, if it was there, is
/// the only one in the trash. Everything else stays.
pub proof fn law_commit_by_renaming(
    t: Tree,
    staging: Seq<char>,
    new: Seq<char>,
    active: Seq<char>,
)
    ensures
        run(t, commit_steps(staging, new, Some(active))) == (Tree {
            dirs: t.dirs.remove(active).remove(staging).insert(new),
            trash: Set::empty().insert(active),
            current: t.current,
        }),
        run(t, commit_steps(staging, new, None)) == (Tree {
            dirs: t.dirs.remove(staging).insert(new),
            trash: t.trash,
            current: t.current,
        }),
{
    lemma_run_few(t, Step::ClearTrash, Step::Trash(active), Step::Rename(staging, new));
    lemma_run_few(t, Step::Rename(staging, new), Step::ClearTrash, Step::ClearTrash);
}

/// What undoing a renaming does: the new version is gone, and the one from the
/// trash, if there is one, is back. Everything else stays.
pub proof fn law_revert_by_renaming(t: Tree, new: Seq<char>, trashed: Seq<char>)
    ensures
        run(t, revert_steps(new, Some(trashed))) == (Tree {
            dirs: t.dirs.remove(new).insert(trashed),
            trash: t.trash.remove(trashed),
            current: t.current,
        }),
        run(t, revert_steps(new, None)) == (Tree {
            dirs: t.dirs.remove(new),
            trash: t.trash,
            current: t.current,
        }),
{
    lemma_run_few(t, Step::Remove(new), Step::Untrash(trashed), Step::ClearTrash);
}

/// What making a version active by a link does: the extraction becomes the
/// directory of the new version in place of one that was there, the link points
/// to it, and another registered version, if it was there, is the only one in
/// the trash. Everything else stays.
pub proof fn law_commit_by_link(t: Tree, staging: Seq<char>, new: Seq<char>, old: Seq<char>)
    requires
        staging != new,
    ensures
        run(t, link_steps(staging, new, t.dirs.contains(new), Some(old))) == (Tree {
            dirs: t.dirs.remove(staging).insert(new).remove(old),
            trash: Set::empty().insert(old),
            current: Some(new),
        }),
        run(t, link_steps(staging, new, t.dirs.contains(new), None)) == (Tree {
            dirs: t.dirs.remove(staging).insert(new),
            trash: t.trash,
            current: Some(new),
        }),
{
    let there = t.dirs.contains(new);
    let first = if there {
        seq![Step::Remove(new)]
    } else {
        seq![]
    };
    lemma_run_few(t, Step::Remove(new), Step::ClearTrash, Step::ClearTrash);
    let cleared = run(t, first);
    let few = seq![Step::Rename(staging, new), Step::ClearTrash, Step::Trash(old)];
    let with = link_steps(staging, new, there, Some(old));
    assert(with =~= first + few.push(Step::Point(new)));
    lemma_run_concat(t, first, few.push(Step::Point(new)));
    lemma_run_push(cleared, few, Step::Point(new));
    lemma_run_few(cleared, Step::Rename(staging, new), Step::ClearTrash, Step::Trash(old));
    assert(run(t, with) =~= (Tree {
        dirs: t.dirs.remove(staging).insert(new).remove(old),
        trash: Set::empty().insert(old),
        current: Some(new),
    }));
    let two = seq![Step::Rename(staging, new), Step::Point(new)];
    let without = link_steps(staging, new, there, None);
    assert(without =~= first + two);
    lemma_run_concat(t, first, two);
    lemma_run_few(cleared, Step::Rename(staging, new), Step::Point(new), Step::ClearTrash);
    assert(run(t, without) =~= (Tree {
        dirs: t.dirs.remove(staging).insert(new),
        trash: t.trash,
        current: Some(new),
    }));
}

/// Where versions are switched by renaming, a sweep removes exactly the
/// extractions, whose names begin with `.staging-`, and the versions, whose
/// names begin with `v`, but for the active one.
pub proof fn law_what_a_sweep_removes(names: Seq<Seq<char>>, active: Seq<char>)
    ensures
        is_selection(
            leftovers(names, active),
            names,
            |n: Seq<char>|
                ".staging-"@.is_prefix_of(n) || ("v"@.is_prefix_of(n) && n != active),
            |n: Seq<char>| n,
        ),
    decreases names.len(),
{
    let good = |n: Seq<char>|
        ".staging-"@.is_prefix_of(n) || ("v"@.is_prefix_of(n) && n != active);
    let make = |n: Seq<char>| n;
    if names.len() == 0 {
        lemma_select_none(leftovers(names, active), names, good, make);
    } else {
        law_what_a_sweep_removes(names.drop_last(), active);
        lemma_select_step(leftovers(names.drop_last(), active), names, good, make);
    }
}

/// One can go back to each version in the trash but the active one.
pub proof fn law_where_one_can_go_back_to(names: Seq<Seq<char>>, active: Seq<char>)
    ensures
        is_selection(
            candidates(names, active),
            names,
            |n: Seq<char>| n != active,
            |n: Seq<char>| n,
        ),
    decreases names.len(),
{
    let good = |n: Seq<char>| n != active;
    let make = |n: Seq<char>| n;
    if names.len() == 0 {
        lemma_select_none(candidates(names, active), names, good, make);
    } else {
        law_where_one_can_go_back_to(names.drop_last(), active);
        lemma_select_step(candidates(names.drop_last(), active), names, good, make);
    }
}

/// The name of a version directory is the letter `v` and the version, and gives
/// the version back; another name is taken as it is.
pub proof fn law_version_of_a_directory(version: Seq<char>, name: Seq<char>)
    ensures
        version_dir(version) == seq!['v'] + version,
        version_text(version_dir(version)) == version,
        name.len() == 0 || name[0] != 'v' ==> version_text(name) == name,
{
    reveal_strlit("v");
    assert("v"@ =~= seq!['v']);
    let dir = version_dir(version);
    assert(dir.subrange(0, 1) =~= "v"@);
    assert(dir.skip(1) =~= version);
    if "v"@.is_prefix_of(name) {
        assert(name.subrange(0, 1)[0] == 'v');
    }
}

/// What a rollback by renaming does, in every case: the version before is back
/// in its place, and the active one, if it was there, is in the trash, where it
/// takes the place of one of the same name. Everything else stays.
pub proof fn law_rollback_by_renaming(t: Tree, active: Seq<char>, prev: Seq<char>)
    requires
        active != prev,
    ensures
        ({
            let after = run(
                t,
                staged::rollback_steps(
                    active,
                    prev,
                    t.dirs.contains(active),
                    t.trash.contains(active),
                ),
            );
            &&& after.current == t.current
            &&& after.dirs == t.dirs.remove(active).insert(prev)
            &&& t.dirs.contains(active) ==> after.trash == t.trash.insert(active).remove(prev)
            &&& !t.dirs.contains(active) ==> after.trash == t.trash.remove(prev)
        }),
{
    lemma_run_few(t, Step::DropTrashed(active), Step::Trash(active), Step::Untrash(prev));
    lemma_run_few(t, Step::Trash(active), Step::Untrash(prev), Step::ClearTrash);
    lemma_run_few(t, Step::Untrash(prev), Step::ClearTrash, Step::ClearTrash);
    let after = run(
        t,
        staged::rollback_steps(active, prev, t.dirs.contains(active), t.trash.contains(active)),
    );
    assert(after.dirs =~= t.dirs.remove(active).insert(prev));
    if t.dirs.contains(active) {
        assert(after.trash =~= t.trash.insert(active).remove(prev));
    }
}

/// What a rollback by a link does without an active version: the version before
/// leaves the trash for its directory, and the link points there.
pub proof fn law_rollback_by_link_without_active(
    t: Tree,
    prev: Seq<char>,
    aside: Seq<char>,
    target: Seq<char>,
)
    requires
        !t.dirs.contains(aside),
    ensures
        run(t, linked::rollback_steps(prev, aside, None, target)) == (Tree {
            dirs: t.dirs.insert(target),
            trash: t.trash.remove(prev),
            current: Some(target),
        }),
{
    let steps = linked::rollback_steps(prev, aside, None, target);
    assert(steps =~= seq![
        Step::UntrashAs(prev, aside),
        Step::Rename(aside, target),
        Step::Point(target),
    ]);
    lemma_run_few(t, Step::UntrashAs(prev, aside), Step::Rename(aside, target), Step::Point(target));
    assert(run(t, steps).dirs =~= t.dirs.insert(target));
}

/// Where versions are switched by a link, a sweep removes exactly the
/// extractions, whose names begin with `.tmp-`, and the version directories
/// that neither the link nor the trash refers to, nor the registry where the
/// link is broken.
pub proof fn law_what_a_link_sweep_removes(entries: Seq<(Seq<char>, bool)>, f: FactsView)
    ensures
        is_selection(
            tmp_names(entries),
            entries,
            |e: (Seq<char>, bool)| ".tmp-"@.is_prefix_of(e.0),
            |e: (Seq<char>, bool)| e.0,
        ),
        is_selection(
            dangling_names(entries, f),
            entries,
            |e: (Seq<char>, bool)|
                e.1 && e.0.len() > 1 && e.0[0] == 'v' && semver_ok(e.0.skip(1)) && Some(e.0)
                    != f.current && Some(e.0) != f.trashed && !(!f.healthy
                    && f.registered is Some && semver_ok(f.registered->0) && e.0 == "v"@
                    + f.registered->0),
            |e: (Seq<char>, bool)| e.0,
        ),
    decreases entries.len(),
{
    let tmp = |e: (Seq<char>, bool)| ".tmp-"@.is_prefix_of(e.0);
    let stray = |e: (Seq<char>, bool)|
        e.1 && e.0.len() > 1 && e.0[0] == 'v' && semver_ok(e.0.skip(1)) && Some(e.0) != f.current
            && Some(e.0) != f.trashed && !(!f.healthy && f.registered is Some && semver_ok(
            f.registered->0,
        ) && e.0 == "v"@ + f.registered->0);
    let make = |e: (Seq<char>, bool)| e.0;
    if entries.len() == 0 {
        lemma_select_none(tmp_names(entries), entries, tmp, make);
        lemma_select_none(dangling_names(entries, f), entries, stray, make);
    } else {
        law_what_a_link_sweep_removes(entries.drop_last(), f);
        lemma_select_step(tmp_names(entries.drop_last()), entries, tmp, make);
        lemma_select_step(dangling_names(entries.drop_last(), f), entries, stray, make);
    }
}

/// The letters `v` at the start of a name go, all of them, and nothing else.
pub proof fn law_leading_letters_go(n: nat, rest: Seq<char>)
    requires
        rest.len() == 0 || rest[0] != 'v',
    ensures
        without_v(Seq::new(n, |i: int| 'v') + rest) == rest,
    decreases n,
{
    let s = Seq::new(n, |i: int| 'v') + rest;
    if n == 0 {
        assert(s =~= rest);
    } else {
        law_leading_letters_go((n - 1) as nat, rest);
        assert(s.skip(1) =~= Seq::new((n - 1) as nat, |i: int| 'v') + rest);
    }
}

proof fn lemma_hex_digits_apart(a: nat, b: nat)
    requires
        a < 16,
        b < 16,
        hex_char(a) == hex_char(b),
    ensures
        a == b,
{
}

proof fn lemma_hex_apart(x: Seq<u8>, y: Seq<u8>)
    requires
        x.len() == y.len(),
        hex_text(x) == hex_text(y),
    ensures
        x == y,
{
    assert forall|i: int| 0 <= i < x.len() implies x[i] == y[i] by {
        let (p, q) = (x[i] as nat, y[i] as nat);
        assert(hex_text(x)[2 * i] == hex_char(p / 16));
        assert(hex_text(y)[2 * i] == hex_char(q / 16));
        assert(hex_text(x)[2 * i + 1] == hex_char(p % 16));
        assert(hex_text(y)[2 * i + 1] == hex_char(q % 16));
        lemma_hex_digits_apart(p / 16, q / 16);
        lemma_hex_digits_apart(p % 16, q % 16);
    }
    assert(x =~= y);
}

/// Extractions at different readings of the clock have different names.
pub proof fn law_names_of_extractions_differ(a: u64, b: u64)
    requires
        hex16(a) == hex16(b),
    ensures
        a == b,
{
    let (x, y) = (le_bytes(a as nat, 8), le_bytes(b as nat, 8));
    lemma_le_bytes_len(a as nat, 8);
    lemma_le_bytes_len(b as nat, 8);
    lemma_hex_apart(x.reverse(), y.reverse());
    assert(x.reverse().reverse() =~= x);
    assert(y.reverse().reverse() =~= y);
    lemma_pow256_values();
    lemma_le_round_trip(a as nat, 8);
    lemma_le_round_trip(b as nat, 8);
}

/// A number is written in 16 digits, of which the last are those of its lowest
/// byte.
pub proof fn law_sixteen_digits_of_a_number(a: u64)
    ensures
        hex16(a).len() == 16,
        hex16(a)[14] == hex_char((a % 256 / 16) as nat),
        hex16(a)[15] == hex_char((a % 256 % 16) as nat),
{
    let x = le_bytes(a as nat, 8);
    lemma_le_bytes_len(a as nat, 8);
    assert(x[0] == a % 256);
    assert(x.reverse()[7] == x[0]);
}

/// The steps of a removal come in order: the row is deleted inside the
/// transaction, the audit trail is written last, and the files are removed if
/// there are any, where versions are switched by a link in any case.
pub proof fn law_steps_of_a_removal(tree_there: bool)
    ensures
        linked_uninstall().len() == 5,
        linked_uninstall()[0] == UninstallStep::Begin,
        linked_uninstall()[1] == UninstallStep::DeleteRow,
        linked_uninstall()[2] == UninstallStep::RemoveTree,
        linked_uninstall()[3] == UninstallStep::Commit,
        linked_uninstall().last() == UninstallStep::Audit,
        staged_uninstall(tree_there)[0] == UninstallStep::Begin,
        staged_uninstall(tree_there)[1] == UninstallStep::DeleteRow,
        staged_uninstall(tree_there)[2] == UninstallStep::Commit,
        staged_uninstall(tree_there).last() == UninstallStep::Audit,
        staged_uninstall(tree_there).contains(UninstallStep::RemoveTree) <==> tree_there,
        staged_uninstall(tree_there).len() == (if tree_there {
            5nat
        } else {
            4
        }),
{
    if tree_there {
        assert(staged_uninstall(tree_there)[3] == UninstallStep::RemoveTree);
    }
}

/// A path is the directory, one slash, and the name; inside no directory it is
/// the name alone.
pub proof fn law_paths_are_joined_by_one_slash(dir: Seq<char>, name: Seq<char>)
    ensures
        relative(Seq::empty(), name) == name,
        dir.len() > 0 ==> relative(dir, name) == dir + seq!['/'] + name,
        joined_path(Seq::empty(), name) == name,
        dir.len() > 0 && dir.last() != '/' ==> joined_path(dir, name) == dir + seq!['/'] + name,
        joined_path(dir + seq!['/'], name) == dir + seq!['/'] + name,
{
    assert(dir.push('/') =~= dir + seq!['/']);
    assert((dir + seq!['/']).last() == '/');
}

/// What a sweep makes of the directory of an application whose versions are
/// switched by a link: extractions and stray versions are gone, everything else
/// stays; the link is touched only if it was broken, and then points to the
/// registered version if that is there.
pub proof fn law_link_sweep_by_effect(t: Tree, entries: Seq<(Seq<char>, bool)>, f: FactsView)
    requires
        linked::lists_dirs(entries, t),
    ensures
        ({
            let after = run(t, linked::sweep_steps(entries, f));
            &&& after.trash == t.trash
            &&& f.healthy || f.registered is None ==> after.current == t.current
            &&& !f.healthy && f.registered is Some && semver_ok(f.registered->0) && t.dirs.contains(
                "v"@ + f.registered->0,
            ) ==> after.current == Some("v"@ + f.registered->0)
            &&& !f.healthy && f.registered is Some && !t.dirs.contains("v"@ + f.registered->0)
                ==> after.current == t.current
            &&& forall|n: Seq<char>| #[trigger]
                after.dirs.contains(n) ==> t.dirs.contains(n) && !".tmp-"@.is_prefix_of(n)
            &&& forall|n: Seq<char>|
                t.dirs.contains(n) && !".tmp-"@.is_prefix_of(n) && (Some(n) == f.current || Some(n)
                    == f.trashed || n.len() < 2 || n[0] != 'v') ==> #[trigger] after.dirs.contains(n)
        }),
{
    linked::lemma_swept(t, entries, f);
}

/// What a sweep makes of the directory of an application whose versions are
/// switched by renaming: the active version comes back from the trash if it was
/// missing, and is the only version; extractions are gone, and everything else
/// stays.
pub proof fn law_sweep_by_effect(t: Tree, names: Seq<Seq<char>>, active: Seq<char>)
    requires
        staged::lists(names, t),
        "v"@.is_prefix_of(active),
    ensures
        ({
            let after = run(t, staged::sweep_steps(names, active, t.trash.contains(active)));
            &&& after.current == t.current
            &&& after.dirs.contains(active) <==> t.dirs.contains(active) || t.trash.contains(active)
            &&& forall|n: Seq<char>|
                n != active ==> (#[trigger] after.dirs.contains(n) <==> t.dirs.contains(n)
                    && !".staging-"@.is_prefix_of(n) && !"v"@.is_prefix_of(n))
            &&& t.dirs.contains(active) ==> after.trash == t.trash
            &&& !t.dirs.contains(active) ==> after.trash == t.trash.remove(active)
        }),
{
    staged::lemma_swept(t, names, active);
    staged::lemma_prefixes_apart(active);
}

} // verus!
