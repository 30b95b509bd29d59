//! Verification while a package is being extracted.
//!
//! Every chunk that comes out of the archive goes through
//! [`StreamingVerifier::feed`]; [`StreamingVerifier::end_file`] closes a file
//! and checks its hash at once; [`StreamingVerifier::finish`] checks that
//! nothing is missing, the manifest, and the signature.
use vstd::prelude::*;
use vstd::utf8::*;

use crate::assoc::{
    as_map, has_key, lemma_at, lemma_empty, lemma_push, lemma_remove, lemma_update, unique_keys,
    value_of,
};
use crate::bytes::bytes_eq;
use crate::sign::digest::{entries_view, package_digest, package_stream, Entry};
use crate::sign::ring::{ring_accepts, RingOfTrust};
use crate::sign::sha256::{
    sha256, sha256_fed, sha256_finalize, sha256_new, sha256_update, Sha256State,
};
use crate::sign::MANIFEST_PATH;
use crate::text::{owned, str_eq};
use crate::types::digest::{blake3_256, blake3_fed, blake3_plain, Digest};
use crate::types::error::{ArcaError, ErrorView, Res};

verus! {

spec fn keyed<T>(items: Seq<(String, T)>, v: Seq<(Seq<char>, Seq<u8>)>) -> bool {
    items.len() == v.len() && forall|i: int|
        0 <= i < items.len() ==> (#[trigger] v[i]).0 == items[i].0@
}

/// Where `path` stands in an association list.
fn find<T>(items: &Vec<(String, T)>, path: &str, Ghost(v): Ghost<Seq<(Seq<char>, Seq<u8>)>>) -> (r:
    Option<usize>)
    requires
        keyed(items@, v),
    ensures
        r matches Some(i) ==> i < items@.len() && v[i as int].0 == path@,
        r is Some <==> has_key(v, path@),
{
    let mut i: usize = 0;
    while i < items.len()
        invariant
            i <= items@.len(),
            keyed(items@, v),
            forall|k: int| 0 <= k < i ==> (#[trigger] v[k]).0 != path@,
        decreases items@.len() - i,
    {
        if str_eq(items[i].0.as_str(), path) {
            assert(v[i as int].0 == path@);
            return Some(i);
        }
        i += 1;
    }
    None
}

/// The files that a manifest declares, with the sha256 of each: no path occurs
/// twice.
pub struct ExpectedFiles {
    items: Vec<(String, [u8; 32])>,
}

spec fn pairs_view(items: Seq<(String, [u8; 32])>) -> Seq<(Seq<char>, Seq<u8>)> {
    items.map_values(|e: (String, [u8; 32])| (e.0@, e.1@))
}

impl View for ExpectedFiles {
    type V = Seq<(Seq<char>, Seq<u8>)>;

    closed spec fn view(&self) -> Seq<(Seq<char>, Seq<u8>)> {
        pairs_view(self.items@)
    }
}

impl ExpectedFiles {
    #[verifier::type_invariant]
    spec fn valid(self) -> bool {
        unique_keys(pairs_view(self.items@))
    }

    pub fn new() -> (r: ExpectedFiles)
        ensures
            r@ == Seq::<(Seq<char>, Seq<u8>)>::empty(),
    {
        proof {
            lemma_empty::<Seq<u8>>();
        }
        let items: Vec<(String, [u8; 32])> = Vec::new();
        assert(pairs_view(items@) =~= Seq::<(Seq<char>, Seq<u8>)>::empty());
        ExpectedFiles { items }
    }

    /// Declares a file, or replaces the hash of one declared before.
    pub fn insert(&mut self, path: &str, sha: [u8; 32])
        ensures
            as_map(final(self)@) == as_map(old(self)@).insert(path@, sha@),
            final(self)@ == old(self)@.push((path@, sha@)) || exists|i: int|
                0 <= i < old(self)@.len() && (#[trigger] old(self)@[i]).0 == path@ && final(self)@
                    == old(self)@.update(i, (path@, sha@)),
    {
        proof {
            use_type_invariant(&*self);
        }
        let ghost before = self@;
        let mut items: Vec<(String, [u8; 32])> = Vec::new();
        assert(pairs_view(items@) =~= Seq::<(Seq<char>, Seq<u8>)>::empty());
        proof {
            lemma_empty::<Seq<u8>>();
        }
        std::mem::swap(&mut items, &mut self.items);
        match find(&items, path, Ghost(before)) {
            Some(i) => {
                proof {
                    lemma_update(before, i as int, sha@);
                }
                items[i] = (owned(path), sha);
                assert(pairs_view(items@) =~= before.update(i as int, (path@, sha@)));
            },
            None => {
                proof {
                    lemma_push(before, path@, sha@);
                }
                items.push((owned(path), sha));
                assert(pairs_view(items@) =~= before.push((path@, sha@)));
            },
        }
        self.items = items;
    }

    /// How many files are declared.
    pub fn len(&self) -> (n: usize)
        ensures
            n == self@.len(),
    {
        self.items.len()
    }

    fn copied(&self) -> (r: Vec<(String, [u8; 32])>)
        ensures
            pairs_view(r@) == self@,
            unique_keys(self@),
    {
        proof {
            use_type_invariant(&*self);
        }
        let mut out: Vec<(String, [u8; 32])> = Vec::new();
        let mut i: usize = 0;
        assert(pairs_view(out@) =~= self@.take(0));
        while i < self.items.len()
            invariant
                i <= self.items@.len(),
                pairs_view(out@) == self@.take(i as int),
            decreases self.items@.len() - i,
        {
            let ghost before = pairs_view(out@);
            let e: &(String, [u8; 32]) = &self.items[i];
            out.push((owned(e.0.as_str()), e.1));
            assert(pairs_view(out@) =~= before.push((e.0@, e.1@)));
            assert(self@.take(i + 1) =~= self@.take(i as int).push(self@[i as int]));
            i += 1;
        }
        assert(self@.take(i as int) =~= self@);
        out
    }
}

/// What a verifier has seen.
pub struct VerifierView {
    /// The declared files and their hashes; no path occurs twice.
    pub expected: Seq<(Seq<char>, Seq<u8>)>,
    /// The bytes fed for files that are not closed yet.
    pub open: Map<Seq<char>, Seq<u8>>,
    /// The contents of files that were closed with the right hash.
    pub done: Map<Seq<char>, Seq<u8>>,
    /// The bytes fed for the manifest.
    pub manifest: Seq<u8>,
    pub manifest_fed: bool,
    pub manifest_closed: bool,
    /// The blake3 that the manifest must have.
    pub manifest_sha: Seq<u8>,
    /// The keys of the ring.
    pub keys: Seq<Seq<u8>>,
    /// The signature of the package.
    pub sig: Seq<u8>,
}

impl VerifierView {
    /// The file is declared.
    pub open spec fn declares(self, path: Seq<char>) -> bool {
        has_key(self.expected, path)
    }

    /// The hash declared for the file.
    pub open spec fn want(self, path: Seq<char>) -> Seq<u8> {
        value_of(self.expected, path)
    }

    /// The declared files as entries of the package digest.
    pub open spec fn entries(self) -> Seq<Entry> {
        self.expected.map_values(|e: (Seq<char>, Seq<u8>)| (encode_utf8(e.0), e.1))
    }

    /// The digest that the signature must sign.
    pub open spec fn digest(self) -> Seq<u8> {
        blake3_256(package_stream(self.entries(), self.manifest_sha))
    }

    /// What always holds: only declared files are open or done, no file is
    /// both, every file that is done has the declared hash, and the manifest is
    /// never among the open files.
    pub open spec fn consistent(self) -> bool {
        &&& unique_keys(self.expected)
        &&& !self.open.dom().contains(MANIFEST_PATH@)
        &&& forall|p: Seq<char>| #[trigger] self.open.dom().contains(p) ==> self.declares(p)
        &&& forall|p: Seq<char>| #[trigger]
            self.done.dom().contains(p) ==> self.declares(p) && !self.open.dom().contains(p)
                && sha256(self.done[p]) == self.want(p)
    }
}

/// What feeding a chunk does.
pub open spec fn feed_step(v: VerifierView, path: Seq<char>, chunk: Seq<u8>) -> (
    VerifierView,
    Result<(), ErrorView>,
) {
    if path == MANIFEST_PATH@ {
        if v.manifest_closed {
            (v, Err(ErrorView::InvalidPackage("stream: feed de manifest tras end_file"@)))
        } else {
            (VerifierView { manifest: v.manifest + chunk, manifest_fed: true, ..v }, Ok(()))
        }
    } else if v.done.dom().contains(path) {
        (v, Err(ErrorView::InvalidPackage("stream: feed tras end_file (duplicado)"@)))
    } else if !v.declares(path) {
        (v, Err(ErrorView::InvalidPackage("stream: entrada no listada en el manifest"@)))
    } else {
        let so_far = if v.open.dom().contains(path) {
            v.open[path]
        } else {
            Seq::<u8>::empty()
        };
        (VerifierView { open: v.open.insert(path, so_far + chunk), ..v }, Ok(()))
    }
}

/// What closing a file does.
pub open spec fn end_file_step(v: VerifierView, path: Seq<char>) -> (
    VerifierView,
    Result<(), ErrorView>,
) {
    if path == MANIFEST_PATH@ {
        (VerifierView { manifest_closed: true, ..v }, Ok(()))
    } else if v.open.dom().contains(path) {
        let rest = v.open.remove(path);
        if sha256(v.open[path]) == v.want(path) {
            (VerifierView { open: rest, done: v.done.insert(path, v.open[path]), ..v }, Ok(()))
        } else {
            (
                VerifierView { open: rest, ..v },
                Err(ErrorView::InvalidPackage("stream: sha256 no coincide (end_file)"@)),
            )
        }
    } else if v.done.dom().contains(path) {
        (v, Ok(()))
    } else if v.declares(path) {
        (v, Err(ErrorView::InvalidPackage("stream: end_file sin ningún feed previo"@)))
    } else {
        (v, Err(ErrorView::InvalidPackage("stream: end_file de archivo no listado"@)))
    }
}

/// Every file that is still open has the declared hash.
pub open spec fn open_files_ok(v: VerifierView) -> bool {
    forall|p: Seq<char>| #[trigger] v.open.dom().contains(p) ==> sha256(v.open[p]) == v.want(p)
}

/// Every declared file was fed.
pub open spec fn complete(v: VerifierView) -> bool {
    forall|i: int|
        0 <= i < v.expected.len() ==> v.open.dom().contains((#[trigger] v.expected[i]).0)
            || v.done.dom().contains(v.expected[i].0)
}

/// The verdict on the whole package.
pub open spec fn verdict(v: VerifierView) -> Result<(), ErrorView> {
    if !open_files_ok(v) {
        Err(ErrorView::InvalidPackage("stream: sha256 no coincide (end_file)"@))
    } else if !v.manifest_fed {
        Err(ErrorView::InvalidPackage("stream: manifest.toml nunca alimentado"@))
    } else if !complete(v) {
        Err(ErrorView::InvalidPackage("stream: archivo faltante en el stream"@))
    } else if blake3_256(v.manifest) != v.manifest_sha {
        Err(ErrorView::InvalidPackage("stream: manifest.toml alterado"@))
    } else if !ring_accepts(v.keys, v.digest(), v.sig) {
        Err(ErrorView::InvalidSignature)
    } else {
        Ok(())
    }
}

/// A result with its error as a view.
pub open spec fn outcome<T>(r: Res<T>) -> Result<T, ErrorView> {
    match r {
        Ok(t) => Ok(t),
        Err(e) => Err(e@),
    }
}

/// Verifier of a package. It holds hash states, never contents.
pub struct StreamingVerifier {
    expected: Vec<(String, [u8; 32])>,
    open: Vec<(String, Sha256State)>,
    done: Vec<(String, Ghost<Seq<u8>>)>,
    manifest_hasher: blake3::Hasher,
    manifest_fed: bool,
    manifest_closed: bool,
    manifest_sha: [u8; 32],
    ring: RingOfTrust,
    sig: [u8; 64],
}

spec fn open_view(s: Seq<(String, Sha256State)>) -> Seq<(Seq<char>, Seq<u8>)> {
    s.map_values(|e: (String, Sha256State)| (e.0@, sha256_fed(e.1)))
}

spec fn done_view(s: Seq<(String, Ghost<Seq<u8>>)>) -> Seq<(Seq<char>, Seq<u8>)> {
    s.map_values(|e: (String, Ghost<Seq<u8>>)| (e.0@, e.1@))
}

impl View for StreamingVerifier {
    type V = VerifierView;

    closed spec fn view(&self) -> VerifierView {
        VerifierView {
            expected: pairs_view(self.expected@),
            open: as_map(open_view(self.open@)),
            done: as_map(done_view(self.done@)),
            manifest: blake3_fed(self.manifest_hasher),
            manifest_fed: self.manifest_fed,
            manifest_closed: self.manifest_closed,
            manifest_sha: self.manifest_sha@,
            keys: self.ring@,
            sig: self.sig@,
        }
    }
}

impl StreamingVerifier {
    /// The verifier is in a state that its operations can reach.
    pub closed spec fn wf(&self) -> bool {
        &&& self@.consistent()
        &&& blake3_plain(self.manifest_hasher)
        &&& unique_keys(open_view(self.open@))
        &&& unique_keys(done_view(self.done@))
    }

    /// What a verifier has seen is consistent.
    pub proof fn lemma_wf(&self)
        requires
            self.wf(),
        ensures
            self@.consistent(),
    {
    }

    /// A verifier for a package.
    ///
    /// `expected` are the files that the manifest declares: neither the
    /// manifest itself nor the signature files.
    pub fn new(
        expected: &ExpectedFiles,
        manifest_sha: [u8; 32],
        ring: &RingOfTrust,
        sig: [u8; 64],
    ) -> (r: StreamingVerifier)
        ensures
            r.wf(),
            r@ == (VerifierView {
                expected: expected@,
                open: Map::empty(),
                done: Map::empty(),
                manifest: Seq::empty(),
                manifest_fed: false,
                manifest_closed: false,
                manifest_sha: manifest_sha@,
                keys: ring@,
                sig: sig@,
            }),
    {
        let open: Vec<(String, Sha256State)> = Vec::new();
        let done: Vec<(String, Ghost<Seq<u8>>)> = Vec::new();
        proof {
            lemma_empty::<Seq<u8>>();
            assert(open_view(open@) =~= Seq::<(Seq<char>, Seq<u8>)>::empty());
            assert(done_view(done@) =~= Seq::<(Seq<char>, Seq<u8>)>::empty());
        }
        StreamingVerifier {
            expected: expected.copied(),
            open,
            done,
            manifest_hasher: blake3::Hasher::new(),
            manifest_fed: false,
            manifest_closed: false,
            manifest_sha,
            ring: ring.duplicate(),
            sig,
        }
    }

    /// Feeds a chunk of a file. Chunks of one file come in order; files may
    /// interleave.
    pub fn feed(&mut self, path: &str, chunk: &[u8]) -> (r: Res<()>)
        requires
            old(self).wf(),
        ensures
            final(self).wf(),
            (final(self)@, outcome(r)) == feed_step(old(self)@, path@, chunk@),
    {
        if str_eq(path, MANIFEST_PATH) {
            if self.manifest_closed {
                return Err(ArcaError::InvalidPackage("stream: feed de manifest tras end_file"));
            }
            Digest::feed(&mut self.manifest_hasher, chunk);
            self.manifest_fed = true;
            return Ok(());
        }
        let ghost before = self@;
        let ghost opened = open_view(self.open@);
        if find(&self.done, path, Ghost(done_view(self.done@))).is_some() {
            return Err(ArcaError::InvalidPackage("stream: feed tras end_file (duplicado)"));
        }
        if find(&self.expected, path, Ghost(self@.expected)).is_none() {
            return Err(ArcaError::InvalidPackage("stream: entrada no listada en el manifest"));
        }
        match find(&self.open, path, Ghost(opened)) {
            Some(i) => {
                proof {
                    lemma_at(opened, i as int);
                    lemma_remove(opened, i as int);
                }
                let (p, mut st) = self.open.remove(i);
                let ghost kept = opened.remove(i as int);
                assert(open_view(self.open@) =~= kept);
                sha256_update(&mut st, chunk);
                let ghost pair = (p@, sha256_fed(st));
                proof {
                    lemma_push(kept, p@, sha256_fed(st));
                }
                self.open.push((p, st));
                assert(open_view(self.open@) =~= kept.push(pair));
                assert(self@.open =~= before.open.insert(path@, before.open[path@] + chunk@));
            },
            None => {
                let mut st: Sha256State = sha256_new();
                sha256_update(&mut st, chunk);
                let ghost pair = (path@, sha256_fed(st));
                proof {
                    lemma_push(opened, path@, sha256_fed(st));
                }
                self.open.push((owned(path), st));
                assert(open_view(self.open@) =~= opened.push(pair));
            },
        }
        Ok(())
    }

    /// Closes the open file at position `i`.
    fn close_at(&mut self, i: usize) -> (r: Res<()>)
        requires
            old(self).wf(),
            i < old(self).open@.len(),
        ensures
            final(self).wf(),
            final(self).open@.len() == old(self).open@.len() - 1,
            old(self)@.open.dom().contains(old(self).open@[i as int].0@),
            (final(self)@, outcome(r)) == end_file_step(
                old(self)@,
                old(self).open@[i as int].0@,
            ),
    {
        let ghost before = self@;
        let ghost opened = open_view(self.open@);
        let ghost closed_files = done_view(self.done@);
        let ghost path = opened[i as int].0;
        proof {
            lemma_at(opened, i as int);
            lemma_remove(opened, i as int);
            assert(before.open.dom().contains(path));
            assert(!before.done.dom().contains(path));
            assert(!has_key(closed_files, path));
            assert(before.declares(path));
        }
        let (p, st) = self.open.remove(i);
        assert(open_view(self.open@) =~= opened.remove(i as int));
        let ghost contents = sha256_fed(st);
        let got: [u8; 32] = sha256_finalize(st);
        match find(&self.expected, p.as_str(), Ghost(before.expected)) {
            Some(j) => {
                proof {
                    lemma_at(before.expected, j as int);
                }
                if bytes_eq(&self.expected[j].1, &got) {
                    proof {
                        lemma_push(closed_files, path, contents);
                    }
                    self.done.push((p, Ghost(contents)));
                    assert(done_view(self.done@) =~= closed_files.push((path, contents)));
                    Ok(())
                } else {
                    Err(ArcaError::InvalidPackage("stream: sha256 no coincide (end_file)"))
                }
            },
            None => Err(ArcaError::InvalidPackage("stream: end_file de archivo no listado")),
        }
    }

    /// Closes a file and checks its hash at once.
    ///
    /// Closing is optional: [`StreamingVerifier::finish`] closes what is open.
    pub fn end_file(&mut self, path: &str) -> (r: Res<()>)
        requires
            old(self).wf(),
        ensures
            final(self).wf(),
            (final(self)@, outcome(r)) == end_file_step(old(self)@, path@),
    {
        if str_eq(path, MANIFEST_PATH) {
            self.manifest_closed = true;
            return Ok(());
        }
        match find(&self.open, path, Ghost(open_view(self.open@))) {
            Some(i) => self.close_at(i),
            None => {
                if find(&self.done, path, Ghost(done_view(self.done@))).is_some() {
                    Ok(())
                } else if find(&self.expected, path, Ghost(self@.expected)).is_some() {
                    Err(ArcaError::InvalidPackage("stream: end_file sin ningún feed previo"))
                } else {
                    Err(ArcaError::InvalidPackage("stream: end_file de archivo no listado"))
                }
            },
        }
    }

    /// Whether every declared file is closed.
    fn all_done(&self) -> (r: bool)
        requires
            self.wf(),
            self.open@.len() == 0,
        ensures
            r == complete(self@),
    {
        let mut i: usize = 0;
        while i < self.expected.len()
            invariant
                i <= self.expected@.len(),
                self.wf(),
                self.open@.len() == 0,
                forall|k: int|
                    0 <= k < i ==> self@.done.dom().contains((#[trigger] self@.expected[k]).0),
            decreases self.expected@.len() - i,
        {
            let path: &str = self.expected[i].0.as_str();
            assert(self@.expected[i as int].0 == path@);
            if find(&self.done, path, Ghost(done_view(self.done@))).is_none() {
                assert(!has_key(open_view(self.open@), path@));
                assert(!self@.done.dom().contains(self@.expected[i as int].0));
                return false;
            }
            i += 1;
        }
        true
    }

    /// The digest that the signature must sign.
    fn package_digest(&self) -> (r: Digest)
        ensures
            r@ == self@.digest(),
    {
        let mut entries: Vec<(&str, [u8; 32])> = Vec::new();
        let mut i: usize = 0;
        assert(entries_view(entries@) =~= self@.entries().take(0));
        while i < self.expected.len()
            invariant
                i <= self.expected@.len(),
                entries_view(entries@) == self@.entries().take(i as int),
            decreases self.expected@.len() - i,
        {
            let ghost before = entries_view(entries@);
            let e: &(String, [u8; 32]) = &self.expected[i];
            let pair: (&str, [u8; 32]) = (e.0.as_str(), e.1);
            entries.push(pair);
            proof {
                let entry = (encode_utf8(e.0@), e.1@);
                assert(entries_view(entries@) =~= before.push(entry));
                assert(self@.entries()[i as int] == entry);
                assert(self@.entries().take(i + 1) =~= self@.entries().take(i as int).push(entry));
            }
            i += 1;
        }
        assert(self@.entries().take(i as int) =~= self@.entries());
        package_digest(entries.as_slice(), self.manifest_sha)
    }

    /// Closes what is open and decides on the package: hashes, completeness,
    /// manifest, and the signature of the package digest.
    pub fn finish(self) -> (r: Res<()>)
        requires
            self.wf(),
        ensures
            outcome(r) == verdict(self@),
    {
        let mut v: StreamingVerifier = self;
        let ghost start = v@;
        while v.open.len() > 0
            invariant
                v.wf(),
                start == self@,
                v@ == (VerifierView { open: v@.open, done: v@.done, ..start }),
                open_files_ok(start) == open_files_ok(v@),
                complete(start) == complete(v@),
            decreases v.open@.len(),
        {
            let ghost before = v@;
            let ghost path = v.open@[0].0@;
            match v.close_at(0) {
                Ok(()) => {
                    proof {
                        lemma_close_keeps(before, path);
                    }
                },
                Err(e) => {
                    return Err(e);
                },
            }
        }
        proof {
            assert forall|p: Seq<char>| !v@.open.dom().contains(p) by {
                assert(!has_key(open_view(v.open@), p));
            }
        }
        if !v.manifest_fed {
            return Err(ArcaError::InvalidPackage("stream: manifest.toml nunca alimentado"));
        }
        if !v.all_done() {
            return Err(ArcaError::InvalidPackage("stream: archivo faltante en el stream"));
        }
        let manifest: Digest = Digest::from_hasher(&v.manifest_hasher);
        if !bytes_eq(manifest.as_bytes(), &v.manifest_sha) {
            return Err(ArcaError::InvalidPackage("stream: manifest.toml alterado"));
        }
        let digest: Digest = v.package_digest();
        v.ring.verify(&digest, &v.sig)
    }
}

/// Closing an open file with the right hash changes neither whether the other
/// open files are right nor whether the package is complete.
proof fn lemma_close_keeps(v: VerifierView, path: Seq<char>)
    requires
        v.consistent(),
        v.open.dom().contains(path),
        end_file_step(v, path).1 is Ok,
    ensures
        open_files_ok(end_file_step(v, path).0) == open_files_ok(v),
        complete(end_file_step(v, path).0) == complete(v),
{
    let w = end_file_step(v, path).0;
    assert(path != MANIFEST_PATH@);
    if open_files_ok(w) {
        assert forall|p: Seq<char>| #[trigger] v.open.dom().contains(p) implies sha256(v.open[p])
            == v.want(p) by {
            if p != path {
                assert(w.open.dom().contains(p));
            }
        }
    }
    if open_files_ok(v) {
        assert forall|p: Seq<char>| #[trigger] w.open.dom().contains(p) implies sha256(w.open[p])
            == w.want(p) by {
            assert(v.open.dom().contains(p));
        }
    }
    assert forall|p: Seq<char>|
        (w.open.dom().contains(p) || w.done.dom().contains(p)) == (v.open.dom().contains(p)
            || v.done.dom().contains(p)) by {}
    if complete(v) {
        assert forall|i: int| 0 <= i < w.expected.len() implies w.open.dom().contains(
            (#[trigger] w.expected[i]).0,
        ) || w.done.dom().contains(w.expected[i].0) by {
            assert(v.open.dom().contains(v.expected[i].0) || v.done.dom().contains(
                v.expected[i].0,
            ));
        }
    }
    if complete(w) {
        assert forall|i: int| 0 <= i < v.expected.len() implies v.open.dom().contains(
            (#[trigger] v.expected[i]).0,
        ) || v.done.dom().contains(v.expected[i].0) by {
            assert(w.open.dom().contains(w.expected[i].0) || w.done.dom().contains(
                w.expected[i].0,
            ));
        }
    }
}

/// Nothing that is fed or closed breaks the verifier's consistency.
pub proof fn law_steps_keep_consistency(v: VerifierView, path: Seq<char>, chunk: Seq<u8>)
    requires
        v.consistent(),
    ensures
        feed_step(v, path, chunk).0.consistent(),
        end_file_step(v, path).0.consistent(),
{
}

/// The contents that were received for a declared file.
pub open spec fn received(v: VerifierView, path: Seq<char>) -> Seq<u8> {
    if v.done.dom().contains(path) {
        v.done[path]
    } else {
        v.open[path]
    }
}

/// A package is accepted only if every declared file was received with the
/// declared hash, the manifest has its hash, and a key of the ring signed the
/// digest of exactly these hashes.
pub proof fn law_accepted_package_is_genuine(v: VerifierView)
    requires
        v.consistent(),
        verdict(v) is Ok,
    ensures
        forall|i: int|
            0 <= i < v.expected.len() ==> sha256(received(v, (#[trigger] v.expected[i]).0))
                == v.expected[i].1,
        blake3_256(v.manifest) == v.manifest_sha,
        ring_accepts(v.keys, v.digest(), v.sig),
{
    assert forall|i: int| 0 <= i < v.expected.len() implies sha256(
        received(v, (#[trigger] v.expected[i]).0),
    ) == v.expected[i].1 by {
        lemma_at(v.expected, i);
        let p = v.expected[i].0;
        if !v.done.dom().contains(p) {
            assert(v.open.dom().contains(p));
        }
    }
}

/// Where a chunk is cut makes no difference.
pub proof fn law_chunks_join(v: VerifierView, path: Seq<char>, a: Seq<u8>, b: Seq<u8>)
    requires
        feed_step(v, path, a).1 is Ok,
    ensures
        feed_step(feed_step(v, path, a).0, path, b) == feed_step(v, path, a + b),
{
    let w = feed_step(v, path, a).0;
    if path == MANIFEST_PATH@ {
        assert(v.manifest + a + b =~= v.manifest + (a + b));
    } else {
        let so_far = if v.open.dom().contains(path) {
            v.open[path]
        } else {
            Seq::<u8>::empty()
        };
        assert(so_far + a + b =~= so_far + (a + b));
        assert(w.open.insert(path, so_far + a + b) =~= v.open.insert(path, so_far + (a + b)));
    }
}

/// An undeclared file is refused, and so is a file that was closed: neither
/// leaves a trace.
pub proof fn law_stray_chunks_leave_no_trace(v: VerifierView, path: Seq<char>, chunk: Seq<u8>)
    requires
        v.consistent(),
        path != MANIFEST_PATH@,
        !v.declares(path) || v.done.dom().contains(path),
    ensures
        feed_step(v, path, chunk).0 == v,
        feed_step(v, path, chunk).1 is Err,
{
}

/// What a verifier has seen after the first `n` declared files came in one
/// after the other, each closed behind its last byte, and whether nothing was
/// refused.
pub open spec fn delivered(v: VerifierView, contents: Seq<Seq<u8>>, n: nat) -> (VerifierView, bool)
    decreases n,
{
    if n == 0 {
        (v, true)
    } else {
        let (before, fine) = delivered(v, contents, (n - 1) as nat);
        let path = v.expected[n - 1].0;
        let (fed, r) = feed_step(before, path, contents[n - 1]);
        let (closed, s) = end_file_step(fed, path);
        (closed, fine && r is Ok && s is Ok)
    }
}

proof fn lemma_delivered(v: VerifierView, contents: Seq<Seq<u8>>, n: nat)
    requires
        unique_keys(v.expected),
        !v.declares(MANIFEST_PATH@),
        v.open == Map::<Seq<char>, Seq<u8>>::empty(),
        v.done == Map::<Seq<char>, Seq<u8>>::empty(),
        n <= v.expected.len() == contents.len(),
        forall|i: int| 0 <= i < contents.len() ==> sha256(contents[i]) == (#[trigger] v.expected[i]).1,
    ensures
        ({
            let (w, fine) = delivered(v, contents, n);
            &&& fine
            &&& w == (VerifierView { done: w.done, ..v })
            &&& forall|p: Seq<char>| #[trigger]
                w.done.dom().contains(p) <==> exists|i: int|
                    0 <= i < n && (#[trigger] v.expected[i]).0 == p
        }),
    decreases n,
{
    if n > 0 {
        lemma_delivered(v, contents, (n - 1) as nat);
        let before = delivered(v, contents, (n - 1) as nat).0;
        let path = v.expected[n - 1].0;
        let content = contents[n - 1];
        lemma_at(v.expected, n - 1);
        assert(v.declares(path));
        assert(!before.done.dom().contains(path));
        assert(path != MANIFEST_PATH@);
        let fed = feed_step(before, path, content).0;
        assert(Seq::<u8>::empty() + content =~= content);
        assert(fed.open[path] == content);
        assert(fed.open.remove(path) =~= v.open);
        assert(v.want(path) == v.expected[n - 1].1);
        let w = end_file_step(fed, path).0;
        assert(w.done == before.done.insert(path, content));
        assert forall|p: Seq<char>| #[trigger] w.done.dom().contains(p) implies exists|i: int|
            0 <= i < n && (#[trigger] v.expected[i]).0 == p by {
            if p == path {
                assert(v.expected[n - 1].0 == p);
            } else {
                assert(before.done.dom().contains(p));
            }
        }
    }
}

/// A package as it was signed is accepted: if every declared file comes with
/// the declared hash, the manifest has its hash, and a key of the ring signed
/// the digest, then nothing is refused on the way and the verdict is good.
pub proof fn law_genuine_package_is_accepted(
    v: VerifierView,
    contents: Seq<Seq<u8>>,
    manifest: Seq<u8>,
)
    requires
        unique_keys(v.expected),
        !v.declares(MANIFEST_PATH@),
        v.open == Map::<Seq<char>, Seq<u8>>::empty(),
        v.done == Map::<Seq<char>, Seq<u8>>::empty(),
        v.manifest == Seq::<u8>::empty(),
        !v.manifest_closed,
        contents.len() == v.expected.len(),
        forall|i: int| 0 <= i < contents.len() ==> sha256(contents[i]) == (#[trigger] v.expected[i]).1,
        blake3_256(manifest) == v.manifest_sha,
        ring_accepts(v.keys, v.digest(), v.sig),
    ensures
        ({
            let (seen, fine) = delivered(v, contents, contents.len());
            let (last, fed) = feed_step(seen, MANIFEST_PATH@, manifest);
            &&& fine
            &&& fed is Ok
            &&& verdict(last) is Ok
        }),
{
    lemma_delivered(v, contents, contents.len());
    let seen = delivered(v, contents, contents.len()).0;
    let last = feed_step(seen, MANIFEST_PATH@, manifest).0;
    assert(Seq::<u8>::empty() + manifest =~= manifest);
    assert forall|i: int| 0 <= i < last.expected.len() implies last.done.dom().contains(
        (#[trigger] last.expected[i]).0,
    ) by {
        assert(v.expected[i].0 == last.expected[i].0);
    }
    assert(last.entries() == v.entries());
}

} // verus!
