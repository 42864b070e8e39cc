//! Cryptographic primitives behind named, trusted contracts: ed25519
//! signing and strict verification, a 32-byte content digest, and random
//! bytes. Everything the rest of the crate proves about signatures goes
//! through the names declared here.

use ed25519_dalek::Signer;
use vstd::prelude::*;

verus! {

/// The ed25519 signature produced for the key of `seed` over `msg`.
/// Signing is deterministic, so this is a function of its arguments alone.
pub uninterp spec fn sig_of(seed: Seq<u8>, msg: Seq<u8>) -> Seq<u8>;

/// The ed25519 verifying key derived from a 32-byte seed.
pub uninterp spec fn pk_of(seed: Seq<u8>) -> Seq<u8>;

/// Whether `sig` passes strict ed25519 verification under `pk` over `msg`;
/// a key that does not decode to a curve point verifies nothing.
pub uninterp spec fn sig_ok(pk: Seq<u8>, msg: Seq<u8>, sig: Seq<u8>) -> bool;

/// The 32-byte digest of `data`.
pub uninterp spec fn hash_of(data: Seq<u8>) -> Seq<u8>;

/// Relies on `ed25519_dalek::SigningKey::from_bytes` and `verifying_key`:
/// every 32-byte seed yields a key pair, and the verifying key is a
/// function of the seed alone.
#[verifier::external_body]
fn derive_public_key(seed: &Vec<u8>) -> (r: Vec<u8>)
    requires
        seed@.len() == 32,
    ensures
        r@ == pk_of(seed@),
        r@.len() == 32,
{
    let mut arr = [0u8; 32];
    arr.copy_from_slice(seed);
    ed25519_dalek::SigningKey::from_bytes(&arr).verifying_key().to_bytes().to_vec()
}

/// Relies on `ed25519_dalek::SigningKey::sign`: deterministic (RFC 8032),
/// 64 bytes, and accepted by `verify_strict` under the key's own verifying
/// key.
#[verifier::external_body]
fn sign_with_seed(seed: &Vec<u8>, msg: &[u8]) -> (r: Vec<u8>)
    requires
        seed@.len() == 32,
    ensures
        r@ == sig_of(seed@, msg@),
        r@.len() == 64,
        sig_ok(pk_of(seed@), msg@, r@),
{
    let mut arr = [0u8; 32];
    arr.copy_from_slice(seed);
    ed25519_dalek::SigningKey::from_bytes(&arr).sign(msg).to_bytes().to_vec()
}

/// Relies on `ed25519_dalek::VerifyingKey::verify_strict`: a deterministic
/// function of the key bytes, the message and the signature bytes. A key
/// that `VerifyingKey::from_bytes` rejects verifies nothing.
#[verifier::external_body]
fn verify_with_key(pk: &Vec<u8>, msg: &[u8], sig: &Vec<u8>) -> (r: bool)
    requires
        pk@.len() == 32,
        sig@.len() == 64,
    ensures
        r == sig_ok(pk@, msg@, sig@),
{
    let mut pk_arr = [0u8; 32];
    pk_arr.copy_from_slice(pk);
    let mut sig_arr = [0u8; 64];
    sig_arr.copy_from_slice(sig);
    match ed25519_dalek::VerifyingKey::from_bytes(&pk_arr) {
        Ok(key) => key.verify_strict(msg, &ed25519_dalek::Signature::from_bytes(&sig_arr)).is_ok(),
        Err(_) => false,
    }
}

/// Relies on `blake3::hash`: a 32-byte digest that depends on the input
/// bytes alone.
#[verifier::external_body]
fn hash_bytes(data: &[u8]) -> (r: Vec<u8>)
    ensures
        r@ == hash_of(data@),
        r@.len() == 32,
{
    blake3::hash(data).as_bytes().to_vec()
}

/// Relies on `rand::random`: 32 bytes from the thread-local CSPRNG;
/// nothing is promised of the values.
#[verifier::external_body]
fn random_bytes_32() -> (r: Vec<u8>)
    ensures
        r@.len() == 32,
{
    rand::random::<[u8; 32]>().to_vec()
}

/// A 32-byte public key identifying a party.
#[derive(Clone, Debug, PartialEq, Eq)]
pub struct PublicKey {
    bytes: Vec<u8>,
}

impl View for PublicKey {
    type V = Seq<u8>;

    closed spec fn view(&self) -> Seq<u8> {
        self.bytes@
    }
}

impl PublicKey {
    pub open spec fn wf(self) -> bool {
        self@.len() == 32
    }

    pub fn from_bytes(bytes: Vec<u8>) -> (r: PublicKey)
        requires
            bytes@.len() == 32,
        ensures
            r@ == bytes@,
            r.wf(),
    {
        PublicKey { bytes }
    }

    pub fn as_bytes(&self) -> (r: &Vec<u8>)
        ensures
            r@ == self@,
    {
        &self.bytes
    }

    pub fn to_bytes(&self) -> (r: Vec<u8>)
        ensures
            r@ == self@,
    {
        let r = crate::wire::copy_range(self.bytes.as_slice(), 0, self.bytes.len());
        proof {
            assert(self.bytes@.subrange(0, self.bytes@.len() as int) =~= self.bytes@);
        }
        r
    }

    /// Field-by-field equality, usable in verified callers.
    pub fn equals(&self, other: &PublicKey) -> (r: bool)
        ensures
            r == (self@ == other@),
    {
        byte_vecs_equal(&self.bytes, &other.bytes)
    }

    /// Whether `sig` is a valid signature by this key over `msg`.
    pub fn verify(&self, msg: &[u8], sig: &Signature) -> (r: bool)
        requires
            self.wf(),
            sig.wf(),
        ensures
            r == sig_ok(self@, msg@, sig@),
    {
        verify_with_key(&self.bytes, msg, &sig.bytes)
    }
}

/// A 64-byte ed25519 signature.
#[derive(Clone, Debug, PartialEq, Eq)]
pub struct Signature {
    bytes: Vec<u8>,
}

impl View for Signature {
    type V = Seq<u8>;

    closed spec fn view(&self) -> Seq<u8> {
        self.bytes@
    }
}

impl Signature {
    pub open spec fn wf(self) -> bool {
        self@.len() == 64
    }

    pub fn from_bytes(bytes: Vec<u8>) -> (r: Signature)
        requires
            bytes@.len() == 64,
        ensures
            r@ == bytes@,
            r.wf(),
    {
        Signature { bytes }
    }

    pub fn as_bytes(&self) -> (r: &Vec<u8>)
        ensures
            r@ == self@,
    {
        &self.bytes
    }
}

/// A signing key pair: the 32-byte seed and the public key derived from it.
#[derive(Clone, Debug)]
pub struct Keypair {
    secret: Vec<u8>,
    public: PublicKey,
}

impl Keypair {
    pub closed spec fn seed(self) -> Seq<u8> {
        self.secret@
    }

    pub closed spec fn pk(self) -> Seq<u8> {
        self.public@
    }

    pub open spec fn wf(self) -> bool {
        self.seed().len() == 32 && self.pk() == pk_of(self.seed()) && self.pk().len() == 32
    }

    pub fn from_secret_key(seed: &Vec<u8>) -> (r: Keypair)
        requires
            seed@.len() == 32,
        ensures
            r.wf(),
            r.seed() == seed@,
    {
        let public = PublicKey::from_bytes(derive_public_key(seed));
        let secret = crate::wire::copy_range(seed.as_slice(), 0, seed.len());
        proof {
            assert(seed@.subrange(0, seed@.len() as int) =~= seed@);
        }
        Keypair { secret, public }
    }

    /// A key pair from a fresh random seed.
    pub fn random() -> (r: Keypair)
        ensures
            r.wf(),
    {
        let seed = random_bytes_32();
        Keypair::from_secret_key(&seed)
    }

    pub fn public_key(&self) -> (r: PublicKey)
        requires
            self.wf(),
        ensures
            r@ == pk_of(self.seed()),
            r.wf(),
    {
        let bytes = self.public.to_bytes();
        PublicKey::from_bytes(bytes)
    }

    /// Sign `msg` with this key pair's secret key.
    pub fn sign(&self, msg: &[u8]) -> (r: Signature)
        requires
            self.wf(),
        ensures
            r@ == sig_of(self.seed(), msg@),
            r.wf(),
            sig_ok(pk_of(self.seed()), msg@, r@),
    {
        Signature { bytes: sign_with_seed(&self.secret, msg) }
    }
}

/// The 32-byte digest of `data`, as a fresh vector.
pub fn hash(data: &[u8]) -> (r: Vec<u8>)
    ensures
        r@ == hash_of(data@),
        r@.len() == 32,
{
    hash_bytes(data)
}

/// A fresh random 32-byte value, used as an unguessable nonce.
pub fn random_hash() -> (r: Vec<u8>)
    ensures
        r@.len() == 32,
{
    random_bytes_32()
}

/// Element-wise equality of two byte vectors.
pub fn byte_vecs_equal(a: &Vec<u8>, b: &Vec<u8>) -> (r: bool)
    ensures
        r == (a@ == b@),
{
    if a.len() != b.len() {
        return false;
    }
    let n = a.len();
    let mut i: usize = 0;
    while i < n
        invariant
            i <= n,
            n == a@.len() == b@.len(),
            forall|j: int| 0 <= j < i ==> a@[j] == b@[j],
        decreases n - i,
    {
        if a[i] != b[i] {
            return false;
        }
        i = i + 1;
    }
    proof {
        assert(a@ =~= b@);
    }
    true
}

} // verus!
