//! Incremental sha256.
use sha2::Digest;
use vstd::prelude::*;

verus! {

/// A `sha2::Sha256` hasher in progress.
#[verifier::external_body]
pub struct Sha256State {
    inner: sha2::Sha256,
}

/// The bytes fed to the hasher since it was made.
pub uninterp spec fn sha256_fed(h: Sha256State) -> Seq<u8>;

/// The sha256 hash of a byte string.
pub uninterp spec fn sha256(data: Seq<u8>) -> Seq<u8>;

/// `sha2::Sha256::new`: a hasher that has been fed nothing.
#[verifier::external_body]
pub(crate) fn sha256_new() -> (h: Sha256State)
    ensures
        sha256_fed(h) == Seq::<u8>::empty(),
{
    Sha256State { inner: sha2::Sha256::new() }
}

/// `sha2::Sha256::update`: the bytes go behind those fed before.
#[verifier::external_body]
pub(crate) fn sha256_update(h: &mut Sha256State, chunk: &[u8])
    ensures
        sha256_fed(*final(h)) == sha256_fed(*old(h)) + chunk@,
{
    h.inner.update(chunk);
}

/// `sha2::Sha256::finalize`: the hash of everything that was fed.
#[verifier::external_body]
pub(crate) fn sha256_finalize(h: Sha256State) -> (r: [u8; 32])
    ensures
        r@ == sha256(sha256_fed(h)),
{
    h.inner.finalize().into()
}

/// The sha256 of a stream that arrives in chunks.
pub struct Sha256Stream {
    state: Sha256State,
}

impl Sha256Stream {
    /// Everything fed so far.
    pub closed spec fn fed(&self) -> Seq<u8> {
        sha256_fed(self.state)
    }

    pub fn new() -> (r: Sha256Stream)
        ensures
            r.fed() == Seq::<u8>::empty(),
    {
        Sha256Stream { state: sha256_new() }
    }

    pub fn feed(&mut self, chunk: &[u8])
        ensures
            final(self).fed() == old(self).fed() + chunk@,
    {
        sha256_update(&mut self.state, chunk);
    }

    pub fn finish(self) -> (r: [u8; 32])
        ensures
            r@ == sha256(self.fed()),
    {
        sha256_finalize(self.state)
    }
}

/// The sha256 of bytes in memory.
pub fn sha256_of(data: &[u8]) -> (r: [u8; 32])
    ensures
        r@ == sha256(data@),
{
    let mut h: Sha256State = sha256_new();
    sha256_update(&mut h, data);
    assert(Seq::<u8>::empty() + data@ =~= data@);
    sha256_finalize(h)
}

} // verus!
