//! The ring of trusted public keys.
//!
//! Binary form: `[u32 n, little-endian][32 bytes × n]`.
use vstd::prelude::*;

use crate::bytes::{
    array_32, bytes_eq, le_bytes, le_value, lemma_le_round_trip, lemma_le_value_bytes,
    lemma_pow256_values, push_bytes, push_le, read_le,
};
use crate::sign::ed25519::{ed25519_key_ok, ed25519_verifies, PublicKey};
use crate::types::digest::{blake3_256, Digest};
use crate::types::error::{fails, ArcaError, ErrorView, Res};

verus! {

/// Trusted keys: any one of them can validate a signature.
pub struct RingOfTrust {
    keys: Vec<PublicKey>,
}

impl View for RingOfTrust {
    type V = Seq<Seq<u8>>;

    closed spec fn view(&self) -> Seq<Seq<u8>> {
        self.keys@.map_values(|k: PublicKey| k@)
    }
}

/// Some key of the ring accepts the signature.
pub open spec fn ring_accepts(keys: Seq<Seq<u8>>, msg: Seq<u8>, sig: Seq<u8>) -> bool {
    exists|i: int| 0 <= i < keys.len() && ed25519_verifies(#[trigger] keys[i], msg, sig)
}

/// The keys one behind the other.
pub open spec fn keys_bytes(keys: Seq<Seq<u8>>) -> Seq<u8>
    decreases keys.len(),
{
    if keys.len() == 0 {
        Seq::<u8>::empty()
    } else {
        keys_bytes(keys.drop_last()) + keys.last()
    }
}

/// The binary form of a ring.
pub open spec fn ring_bytes(keys: Seq<Seq<u8>>) -> Seq<u8> {
    le_bytes(keys.len() % 0x1_0000_0000, 4) + keys_bytes(keys)
}

/// The `n` keys that lie in `bin` behind the count.
pub open spec fn keys_in(bin: Seq<u8>, n: nat) -> Seq<Seq<u8>> {
    Seq::new(n, |i: int| bin.subrange(4 + 32 * i, 36 + 32 * i))
}

/// Every key is one.
pub open spec fn all_keys_ok(keys: Seq<Seq<u8>>) -> bool {
    forall|i: int| 0 <= i < keys.len() ==> ed25519_key_ok(#[trigger] keys[i])
}

/// What a binary form says, or why it is refused.
pub open spec fn ring_parse(bin: Seq<u8>) -> Result<Seq<Seq<u8>>, ErrorView> {
    let n = le_value(bin.subrange(0, 4));
    if bin.len() < 4 {
        Err(ErrorView::InvalidPackage("ring: bin < 4 bytes"@))
    } else if bin.len() != 4 + 32 * n {
        Err(ErrorView::InvalidPackage("ring: longitud incoherente"@))
    } else if !all_keys_ok(keys_in(bin, n)) {
        Err(ErrorView::InvalidPackage("ring: clave inválida"@))
    } else {
        Ok(keys_in(bin, n))
    }
}

impl RingOfTrust {
    /// The empty ring: it rejects everything.
    pub fn empty() -> (r: RingOfTrust)
        ensures
            r@ == Seq::<Seq<u8>>::empty(),
    {
        let r: RingOfTrust = RingOfTrust { keys: Vec::new() };
        assert(r@ =~= Seq::<Seq<u8>>::empty());
        r
    }

    /// The ring built into the program. It holds no keys until some are
    /// embedded; were it unreadable it would be empty.
    pub fn from_embedded() -> (r: RingOfTrust)
        ensures
            r@ == Seq::<Seq<u8>>::empty(),
    {
        let embedded: [u8; 4] = [0u8, 0u8, 0u8, 0u8];
        match RingOfTrust::from_bin(&embedded) {
            Ok(r) => {
                proof {
                    let b = embedded@;
                    assert(b.subrange(0, 4) =~= b);
                    lemma_le_value_bytes(b);
                    assert(le_value(b) == 0) by {
                        reveal_with_fuel(le_value, 5);
                    }
                    assert(keys_in(b, 0) =~= Seq::<Seq<u8>>::empty());
                }
                r
            },
            Err(_) => RingOfTrust::empty(),
        }
    }

    /// Reads the binary form.
    pub fn from_bin(bin: &[u8]) -> (r: Res<RingOfTrust>)
        ensures
            match r {
                Ok(ring) => ring_parse(bin@) == Ok::<Seq<Seq<u8>>, ErrorView>(ring@),
                Err(e) => ring_parse(bin@) == Err::<Seq<Seq<u8>>, ErrorView>(e@),
            },
    {
        if bin.len() < 4 {
            return Err(ArcaError::InvalidPackage("ring: bin < 4 bytes"));
        }
        proof {
            lemma_pow256_values();
        }
        let n: u64 = read_le(bin, 0, 4);
        if bin.len() as u64 != 4 + 32 * n {
            return Err(ArcaError::InvalidPackage("ring: longitud incoherente"));
        }
        let n: usize = n as usize;
        let mut keys: Vec<PublicKey> = Vec::with_capacity(n);
        let ghost want = keys_in(bin@, n as nat);
        let mut i: usize = 0;
        while i < n
            invariant
                i <= n,
                bin.len() == 4 + 32 * n,
                n == le_value(bin@.subrange(0, 4)),
                want == keys_in(bin@, n as nat),
                keys@.len() == i,
                forall|k: int|
                    0 <= k < i ==> (#[trigger] keys@[k])@ == want[k] && ed25519_key_ok(want[k]),
            decreases n - i,
        {
            let b: [u8; 32] = array_32(bin, 4 + 32 * i);
            assert(b@ == want[i as int]);
            match PublicKey::from_bytes(&b) {
                Some(k) => {
                    keys.push(k);
                },
                None => {
                    assert(!ed25519_key_ok(want[i as int]));
                    return Err(ArcaError::InvalidPackage("ring: clave inválida"));
                },
            }
            i += 1;
        }
        let r: RingOfTrust = RingOfTrust { keys };
        proof {
            assert forall|k: int| 0 <= k < want.len() implies ed25519_key_ok(
                #[trigger] want[k],
            ) by {
                assert(r.keys@[k]@ == want[k]);
            }
            assert(r@ =~= want);
        }
        Ok(r)
    }

    /// The binary form.
    pub fn to_bin(&self) -> (r: Vec<u8>)
        ensures
            r@ == ring_bytes(self@),
    {
        let mut out: Vec<u8> = Vec::new();
        push_le(&mut out, (self.keys.len() as u64) % 0x1_0000_0000, 4);
        let ghost head = out@;
        let mut i: usize = 0;
        assert(self@.take(0) =~= Seq::<Seq<u8>>::empty());
        assert(out@ =~= head + keys_bytes(self@.take(0)));
        while i < self.keys.len()
            invariant
                i <= self.keys@.len(),
                out@ == head + keys_bytes(self@.take(i as int)),
            decreases self.keys@.len() - i,
        {
            let ghost before = out@;
            push_bytes(&mut out, &self.keys[i].to_bytes());
            proof {
                let upto = self@.take(i + 1);
                assert(upto.drop_last() =~= self@.take(i as int));
                assert(upto.last() == self.keys@[i as int]@);
                assert(out@ =~= head + keys_bytes(upto));
            }
            i += 1;
        }
        assert(self@.take(i as int) =~= self@);
        assert(out@ =~= ring_bytes(self@));
        out
    }

    /// Adds a key, also when it is there already.
    pub fn push(&mut self, key: PublicKey)
        ensures
            final(self)@ == old(self)@.push(key@),
    {
        let ghost before = self@;
        self.keys.push(key);
        assert(self@ =~= before.push(key@));
    }

    /// Adds the key with these bytes.
    pub fn push_bytes(&mut self, b: &[u8; 32]) -> (r: Res<()>)
        ensures
            r is Ok <==> ed25519_key_ok(b@),
            r is Ok ==> final(self)@ == old(self)@.push(b@),
            r is Err ==> final(self)@ == old(self)@ && fails(
                r,
                ErrorView::InvalidPackage("ring: bytes no son una ed25519 válida"@),
            ),
    {
        match PublicKey::from_bytes(b) {
            Some(k) => {
                self.push(k);
                Ok(())
            },
            None => Err(ArcaError::InvalidPackage("ring: bytes no son una ed25519 válida")),
        }
    }

    /// Adds the key unless it is there already. Returns whether it was added.
    pub fn push_unique(&mut self, key: PublicKey) -> (r: bool)
        ensures
            r == !old(self)@.contains(key@),
            final(self)@ == (if r {
                old(self)@.push(key@)
            } else {
                old(self)@
            }),
    {
        if self.contains_key(&key) {
            false
        } else {
            self.push(key);
            true
        }
    }

    /// Removes every occurrence of the key with these bytes. Returns whether
    /// there was one.
    pub fn remove_by_bytes(&mut self, b: &[u8; 32]) -> (r: bool)
        ensures
            r == old(self)@.contains(b@),
            final(self)@ == old(self)@.filter(|k: Seq<u8>| k != b@),
    {
        let ghost before = self@;
        let ghost keep = |k: Seq<u8>| k != b@;
        let mut kept: Vec<PublicKey> = Vec::new();
        let mut found: bool = false;
        let mut i: usize = 0;
        assert(before.take(0).filter(keep) =~= Seq::<Seq<u8>>::empty()) by {
            reveal(Seq::filter);
        }
        assert(kept@.map_values(|k: PublicKey| k@) =~= before.take(0).filter(keep));
        while i < self.keys.len()
            invariant
                i <= self.keys@.len(),
                self@ == before,
                keep == (|k: Seq<u8>| k != b@),
                kept@.map_values(|k: PublicKey| k@) == before.take(i as int).filter(keep),
                found == (exists|k: int| 0 <= k < i && before[k] == b@),
            decreases self.keys@.len() - i,
        {
            let k: PublicKey = self.keys[i];
            let ghost kept_before = kept@.map_values(|k: PublicKey| k@);
            assert(before[i as int] == k@);
            proof {
                let upto = before.take(i + 1);
                assert(upto.drop_last() =~= before.take(i as int));
                assert(upto.last() == k@);
                reveal(Seq::filter);
            }
            if bytes_eq(&k.to_bytes(), b) {
                found = true;
                assert(before[i as int] == b@);
            } else {
                kept.push(k);
                assert(kept@.map_values(|k: PublicKey| k@) =~= kept_before.push(k@));
            }
            i += 1;
        }
        assert(before.take(i as int) =~= before);
        self.keys = kept;
        found
    }

    /// How many keys the ring holds.
    pub fn len(&self) -> (n: usize)
        ensures
            n == self@.len(),
    {
        self.keys.len()
    }

    pub fn is_empty(&self) -> (r: bool)
        ensures
            r == (self@.len() == 0),
    {
        self.keys.len() == 0
    }

    /// Whether the ring holds this key.
    pub fn contains_key(&self, key: &PublicKey) -> (r: bool)
        ensures
            r == self@.contains(key@),
    {
        let b: [u8; 32] = key.to_bytes();
        let mut i: usize = 0;
        while i < self.keys.len()
            invariant
                i <= self.keys@.len(),
                b@ == key@,
                forall|k: int| 0 <= k < i ==> self@[k] != key@,
            decreases self.keys@.len() - i,
        {
            if bytes_eq(&self.keys[i].to_bytes(), &b) {
                assert(self@[i as int] == key@);
                return true;
            }
            i += 1;
        }
        false
    }

    /// Checks the signature of a digest against every key of the ring. The
    /// empty ring rejects every signature.
    pub fn verify(&self, digest: &Digest, sig: &[u8; 64]) -> (r: Res<()>)
        ensures
            r is Ok <==> ring_accepts(self@, digest@, sig@),
            r is Err ==> fails(r, ErrorView::InvalidSignature),
    {
        let mut i: usize = 0;
        while i < self.keys.len()
            invariant
                i <= self.keys@.len(),
                forall|k: int|
                    0 <= k < i ==> !ed25519_verifies(#[trigger] self@[k], digest@, sig@),
            decreases self.keys@.len() - i,
        {
            assert(self@[i as int] == self.keys@[i as int]@);
            if self.keys[i].verify(&digest.0, sig) {
                assert(ed25519_verifies(self@[i as int], digest@, sig@));
                return Ok(());
            }
            i += 1;
        }
        Err(ArcaError::InvalidSignature)
    }

    /// A ring with the same keys.
    pub fn duplicate(&self) -> (r: RingOfTrust)
        ensures
            r@ == self@,
    {
        let mut keys: Vec<PublicKey> = Vec::new();
        let mut i: usize = 0;
        while i < self.keys.len()
            invariant
                i <= self.keys@.len(),
                keys@ == self.keys@.take(i as int),
            decreases self.keys@.len() - i,
        {
            keys.push(self.keys[i]);
            assert(self.keys@.take(i + 1) =~= self.keys@.take(i as int).push(self.keys@[i as int]));
            i += 1;
        }
        assert(self.keys@.take(i as int) =~= self.keys@);
        RingOfTrust { keys }
    }
}

/// Stable identity of a public key: the digest of its bytes.
pub fn key_id(key: &PublicKey) -> (r: Digest)
    ensures
        r@ == blake3_256(key@),
{
    Digest::of(&key.to_bytes())
}

proof fn lemma_keys_bytes_split(keys: Seq<Seq<u8>>, i: int)
    requires
        forall|k: int| 0 <= k < keys.len() ==> (#[trigger] keys[k]).len() == 32,
        0 <= i < keys.len(),
    ensures
        keys_bytes(keys).len() == 32 * keys.len(),
        keys_bytes(keys).subrange(32 * i, 32 * i + 32) == keys[i],
    decreases keys.len(),
{
    let init = keys.drop_last();
    lemma_keys_bytes_len(init);
    lemma_keys_bytes_len(keys);
    if i < keys.len() - 1 {
        lemma_keys_bytes_split(init, i);
        assert(keys_bytes(keys).subrange(32 * i, 32 * i + 32) =~= keys_bytes(init).subrange(
            32 * i,
            32 * i + 32,
        ));
    } else {
        assert(keys_bytes(keys).subrange(32 * i, 32 * i + 32) =~= keys.last());
    }
}

proof fn lemma_keys_bytes_len(keys: Seq<Seq<u8>>)
    requires
        forall|k: int| 0 <= k < keys.len() ==> (#[trigger] keys[k]).len() == 32,
    ensures
        keys_bytes(keys).len() == 32 * keys.len(),
    decreases keys.len(),
{
    if keys.len() > 0 {
        lemma_keys_bytes_len(keys.drop_last());
    }
}

/// Reading the binary form of a ring gives back its keys, in order.
pub proof fn law_ring_round_trip(keys: Seq<Seq<u8>>)
    requires
        all_keys_ok(keys),
        forall|k: int| 0 <= k < keys.len() ==> (#[trigger] keys[k]).len() == 32,
        keys.len() < 0x1_0000_0000,
    ensures
        ring_parse(ring_bytes(keys)) == Ok::<Seq<Seq<u8>>, ErrorView>(keys),
{
    let bin = ring_bytes(keys);
    lemma_pow256_values();
    lemma_le_round_trip(keys.len(), 4);
    lemma_keys_bytes_len(keys);
    assert(bin.subrange(0, 4) =~= le_bytes(keys.len(), 4));
    assert forall|i: int| 0 <= i < keys.len() implies #[trigger] keys_in(bin, keys.len())[i]
        == keys[i] by {
        lemma_keys_bytes_split(keys, i);
        assert(bin.subrange(4 + 32 * i, 36 + 32 * i) =~= keys_bytes(keys).subrange(
            32 * i,
            32 * i + 32,
        ));
    }
    assert(keys_in(bin, keys.len()) =~= keys);
}

/// A binary form that is accepted is the one its ring produces.
pub proof fn law_accepted_ring_is_canonical(bin: Seq<u8>)
    requires
        ring_parse(bin) is Ok,
    ensures
        ring_parse(bin) matches Ok(keys) && ring_bytes(keys) == bin,
{
    let n = le_value(bin.subrange(0, 4));
    let keys = keys_in(bin, n);
    lemma_pow256_values();
    lemma_le_value_bytes(bin.subrange(0, 4));
    lemma_keys_bytes_of(bin, n, n);
    assert(keys.take(n as int) =~= keys);
    assert(bin =~= bin.subrange(0, 4) + bin.subrange(4, (4 + 32 * n) as int));
}

proof fn lemma_keys_bytes_of(bin: Seq<u8>, n: nat, k: nat)
    requires
        bin.len() == 4 + 32 * n,
        k <= n,
    ensures
        keys_bytes(keys_in(bin, n).take(k as int)) == bin.subrange(4, (4 + 32 * k) as int),
    decreases k,
{
    let keys = keys_in(bin, n);
    if k == 0 {
        assert(keys.take(0) =~= Seq::<Seq<u8>>::empty());
        assert(bin.subrange(4, 4) =~= Seq::<u8>::empty());
    } else {
        lemma_keys_bytes_of(bin, n, (k - 1) as nat);
        assert(keys.take(k as int).drop_last() =~= keys.take(k - 1));
        assert(bin.subrange(4, (4 + 32 * k) as int) =~= bin.subrange(4, 4 + 32 * (k - 1)) + keys[k - 1]);
    }
}

} // verus!
