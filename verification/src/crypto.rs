//! Digests and public keys: the fixed-size identifiers of batches and of
//! authorities.

use vstd::prelude::*;
use vstd::std_specs::cmp::PartialEqSpecImpl;

verus! {

/// The hash of a serialized batch: the only name of a batch that consensus sees.
#[derive(Clone, Copy, Debug, Eq, Hash)]
pub struct Digest(pub [u8; 32]);

/// The identity of an authority.
#[derive(Clone, Copy, Debug, Eq, Hash)]
pub struct PublicKey(pub [u8; 32]);

impl View for Digest {
    type V = Seq<u8>;

    open spec fn view(&self) -> Seq<u8> {
        self.0@
    }
}

impl View for PublicKey {
    type V = Seq<u8>;

    open spec fn view(&self) -> Seq<u8> {
        self.0@
    }
}

/// Whether two 32-byte arrays hold the same bytes.
fn same_bytes(a: &[u8; 32], b: &[u8; 32]) -> (same: bool)
    ensures
        same == (*a == *b),
{
    let mut i: usize = 0;
    while i < 32
        invariant
            i <= 32,
            forall|j: int| 0 <= j < i ==> a@[j] == b@[j],
        decreases 32 - i,
    {
        if a[i] != b[i] {
            return false;
        }
        i += 1;
    }
    assert(*a =~= *b);
    true
}

impl PartialEq for Digest {
    fn eq(&self, other: &Digest) -> (r: bool) {
        same_bytes(&self.0, &other.0)
    }
}

impl PartialEqSpecImpl for Digest {
    open spec fn obeys_eq_spec() -> bool {
        true
    }

    open spec fn eq_spec(&self, other: &Digest) -> bool {
        *self == *other
    }
}

impl PartialEq for PublicKey {
    fn eq(&self, other: &PublicKey) -> (r: bool) {
        same_bytes(&self.0, &other.0)
    }
}

impl PartialEqSpecImpl for PublicKey {
    open spec fn obeys_eq_spec() -> bool {
        true
    }

    open spec fn eq_spec(&self, other: &PublicKey) -> bool {
        *self == *other
    }
}

/// The SHA-512 hash of `data`: 64 bytes that depend on `data` alone.
pub uninterp spec fn sha512(data: Seq<u8>) -> Seq<u8>;

/// The bytes of the digest of `data`: the first half of its SHA-512 hash.
pub open spec fn digest_bytes(data: Seq<u8>) -> Seq<u8> {
    sha512(data).take(32)
}

/// `sha2::Sha512::digest`, the one-shot form of the hasher: believed, not
/// proved, to return the SHA-512 hash of `data`, which is a function of the
/// bytes of `data` and of nothing else.
#[verifier::external_body]
fn sha512_of(data: &[u8]) -> (hash: [u8; 64])
    ensures
        hash@ == sha512(data@),
{
    <sha2::Sha512 as sha2::Digest>::digest(data).into()
}

/// Two digests with the same bytes are the same digest.
pub proof fn lemma_digest_by_bytes(a: Digest, b: Digest)
    requires
        a@ == b@,
    ensures
        a == b,
{
    assert(a.0 =~= b.0);
}

impl Digest {
    /// The digest that a 64-byte hash stands for: its first 32 bytes.
    pub fn from_hash(hash: &[u8; 64]) -> (digest: Digest)
        ensures
            digest@ == hash@.take(32),
    {
        let mut bytes: [u8; 32] = [0u8; 32];
        let mut i: usize = 0;
        while i < 32
            invariant
                i <= 32,
                forall|j: int| 0 <= j < i ==> bytes@[j] == hash@[j],
            decreases 32 - i,
        {
            bytes[i] = hash[i];
            i += 1;
        }
        assert(bytes@ =~= hash@.take(32));
        Digest(bytes)
    }

    /// The digest of a byte string.
    pub fn of(data: &[u8]) -> (digest: Digest)
        ensures
            digest@ == digest_bytes(data@),
    {
        let hash = sha512_of(data);
        Digest::from_hash(&hash)
    }

    /// The digest as an owned byte string, the form in which it keys the store.
    pub fn to_vec(&self) -> (bytes: Vec<u8>)
        ensures
            bytes@ == self@,
    {
        let mut bytes: Vec<u8> = Vec::new();
        let mut i: usize = 0;
        while i < 32
            invariant
                i <= 32,
                bytes@ == self@.take(i as int),
            decreases 32 - i,
        {
            bytes.push(self.0[i]);
            assert(self@.take(i + 1) =~= self@.take(i as int).push(self@[i as int]));
            i += 1;
        }
        assert(self@.take(32) =~= self@);
        bytes
    }
}

/// The place of the first occurrence of `key` in `keys`.
pub open spec fn position(keys: Seq<PublicKey>, key: PublicKey) -> Option<int>
    decreases keys.len(),
{
    if keys.len() == 0 {
        None
    } else if keys[0] == key {
        Some(0)
    } else {
        match position(keys.skip(1), key) {
            Some(i) => Some(i + 1),
            None => None,
        }
    }
}

/// `position` gives the least index that holds the key, and nothing exactly
/// when no index holds it.
pub proof fn lemma_position(keys: Seq<PublicKey>, key: PublicKey)
    ensures
        match position(keys, key) {
            Some(i) => 0 <= i < keys.len() && keys[i] == key && forall|j: int|
                0 <= j < i ==> keys[j] != key,
            None => !keys.contains(key),
        },
    decreases keys.len(),
{
    if keys.len() == 0 {
    } else if keys[0] == key {
    } else {
        let rest = keys.skip(1);
        lemma_position(rest, key);
        match position(rest, key) {
            Some(i) => {
                assert(keys[i + 1] == rest[i]);
                assert forall|j: int| 0 <= j < i + 1 implies keys[j] != key by {
                    if j > 0 {
                        assert(keys[j] == rest[j - 1]);
                    }
                }
            },
            None => {
                assert forall|j: int| 0 <= j < keys.len() implies keys[j] != key by {
                    if j > 0 {
                        assert(rest[j - 1] == keys[j]);
                        assert(rest.contains(rest[j - 1]));
                    }
                }
            },
        }
    }
}

/// The place of the first occurrence of `key` in `keys`.
pub fn find_key(keys: &Vec<PublicKey>, key: &PublicKey) -> (found: Option<usize>)
    ensures
        match found {
            Some(i) => position(keys@, *key) == Some(i as int),
            None => position(keys@, *key) is None,
        },
{
    let n = keys.len();
    let mut i: usize = 0;
    while i < n
        invariant
            i <= n == keys@.len(),
            forall|j: int| 0 <= j < i ==> keys@[j] != *key,
        decreases n - i,
    {
        if keys[i] == *key {
            proof {
                lemma_position(keys@, *key);
                if position(keys@, *key) is None {
                    assert(keys@.contains(keys@[i as int]));
                }
            }
            return Some(i);
        }
        i += 1;
    }
    proof {
        lemma_position(keys@, *key);
    }
    None
}

} // verus!
