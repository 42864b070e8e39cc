//! The compact credential: 96 raw bytes — a signature over a time-bucketed
//! pre-image, then a content hash. Freshness carries no explicit timestamp;
//! the verifier tries the present bucket and one adjacent bucket on each
//! side, absorbing clock skew, and owns the compact-path replay cache keyed
//! by `(bucket, hash)`.

use crate::crypto::{hash_of, pk_of, sig_of, sig_ok, Keypair, PublicKey, Signature};
use crate::replay::{evicted, sorted, CacheKey, ReplayCache};
use crate::timestamp::{bucket_of, gc_threshold, Timestamp, TIME_INTERVAL};
use crate::wire::{be8, copy_range, from_be, push_be8, push_range, read_be8};
use vstd::arithmetic::power::pow;
use vstd::prelude::*;

verus! {

/// The 11-byte namespace tag that opens every compact pre-image:
/// the ASCII bytes of `pubky:authn`.
pub open spec fn namespace_tag() -> Seq<u8> {
    seq![112u8, 117u8, 98u8, 107u8, 121u8, 58u8, 97u8, 117u8, 116u8, 104u8, 110u8]
}

/// The 115-byte pre-image a compact signature covers:
/// `namespace(11B) || bucket(8B BE) || signer(32B) || audience(32B) || hash(32B)`.
pub open spec fn spec_compact_signable(
    bucket: u64,
    signer: Seq<u8>,
    audience: Seq<u8>,
    token_hash: Seq<u8>,
) -> Seq<u8> {
    namespace_tag() + be8(bucket) + signer + audience + token_hash
}

/// Why a compact signature was rejected.
#[derive(Debug, PartialEq, Eq)]
pub enum AuthnSignatureError {
    /// The payload is not exactly 96 bytes; carries the length seen.
    InvalidLength(usize),
    /// The signature validates for no admissible time bucket.
    InvalidSignature,
    /// The signature is valid but its replay key was already recorded.
    AlreadyUsed,
}

/// A 96-byte compact credential: `signature(64B) || content_hash(32B)`.
#[derive(Debug, PartialEq)]
pub struct AuthnSignature(Vec<u8>);

impl View for AuthnSignature {
    type V = Seq<u8>;

    closed spec fn view(&self) -> Seq<u8> {
        self.0@
    }
}

/// The candidate instant one interval in the past, stopping at zero.
pub open spec fn past_candidate(now: u64) -> u64 {
    if now >= TIME_INTERVAL {
        (now - TIME_INTERVAL) as u64
    } else {
        0
    }
}

/// The candidate instant one interval in the future, stopping at the
/// largest representable instant.
pub open spec fn future_candidate(now: u64) -> u64 {
    if now + TIME_INTERVAL <= u64::MAX {
        (now + TIME_INTERVAL) as u64
    } else {
        u64::MAX
    }
}

/// What every built compact credential looks like: a signature by `seed`'s
/// key over the pre-image of bucket `b` and 32-byte hash `h`, followed by
/// `h`, the signature accepted by the derived key for that pre-image.
pub open spec fn signed_payload_for(
    seed: Seq<u8>,
    audience: Seq<u8>,
    b: u64,
    h: Seq<u8>,
    payload: Seq<u8>,
) -> bool {
    &&& h.len() == 32
    &&& payload == sig_of(seed, spec_compact_signable(b, pk_of(seed), audience, h)) + h
    &&& sig_ok(
        pk_of(seed),
        spec_compact_signable(b, pk_of(seed), audience, h),
        payload.subrange(0, 64),
    )
}

impl AuthnSignature {
    /// A compact credential for the present instant: the hash of `token`
    /// when one is given, else a fresh random nonce. Whatever the instant
    /// and the nonce, the result is a valid signature over some bucket's
    /// pre-image, followed by the 32-byte hash it covers.
    pub fn new(signer: &Keypair, audience: &PublicKey, token: Option<&[u8]>) -> (r:
        AuthnSignature)
        requires
            signer.wf(),
            audience.wf(),
        ensures
            r@.len() == 96,
            exists|b: u64, h: Seq<u8>| signed_payload_for(signer.seed(), audience@, b, h, r@),
            token matches Some(t) ==> exists|b: u64|
                signed_payload_for(signer.seed(), audience@, b, hash_of(t@), r@),
    {
        let token_hash = match token {
            Some(t) => crate::crypto::hash(t),
            None => crate::crypto::random_hash(),
        };
        let now = Timestamp::now();
        let r = AuthnSignature::build_at(signer, audience, &token_hash, now);
        proof {
            let b = bucket_of(now@);
            assert(signed_payload_for(signer.seed(), audience@, b, token_hash@, r@));
        }
        r
    }

    /// The verified core of [`AuthnSignature::new`]: build for the bucket
    /// of the given instant and the given 32-byte content hash.
    pub fn build_at(
        signer: &Keypair,
        audience: &PublicKey,
        token_hash: &Vec<u8>,
        now: Timestamp,
    ) -> (r: AuthnSignature)
        requires
            signer.wf(),
            audience.wf(),
            token_hash@.len() == 32,
        ensures
            r@ == sig_of(
                signer.seed(),
                spec_compact_signable(
                    bucket_of(now@),
                    pk_of(signer.seed()),
                    audience@,
                    token_hash@,
                ),
            ) + token_hash@,
            r@.len() == 96,
            sig_ok(
                pk_of(signer.seed()),
                spec_compact_signable(
                    bucket_of(now@),
                    pk_of(signer.seed()),
                    audience@,
                    token_hash@,
                ),
                r@.subrange(0, 64),
            ),
    {
        let time_step = now.into_inner() / TIME_INTERVAL;
        let signer_pk = signer.public_key();
        let pre_image = signable(time_step, &signer_pk, audience, token_hash);
        let sig = signer.sign(pre_image.as_slice());
        let mut out: Vec<u8> = Vec::new();
        let sig_bytes = sig.as_bytes();
        push_range(&mut out, sig_bytes.as_slice(), 0, sig_bytes.len());
        push_range(&mut out, token_hash.as_slice(), 0, token_hash.len());
        proof {
            assert(sig@.subrange(0, sig@.len() as int) =~= sig@);
            assert(token_hash@.subrange(0, token_hash@.len() as int) =~= token_hash@);
            assert(out@ =~= sig@ + token_hash@);
            assert(out@.subrange(0, 64) =~= sig@);
        }
        AuthnSignature(out)
    }

    /// Sign a randomly generated nonce: the result is a valid signature
    /// over some bucket's pre-image and some fresh 32-byte nonce, followed
    /// by that nonce.
    pub fn generate(keypair: &Keypair, audience: &PublicKey) -> (r: AuthnSignature)
        requires
            keypair.wf(),
            audience.wf(),
        ensures
            r@.len() == 96,
            exists|b: u64, h: Seq<u8>| signed_payload_for(keypair.seed(), audience@, b, h, r@),
    {
        AuthnSignature::new(keypair, audience, None)
    }

    pub fn as_bytes(&self) -> (r: &[u8])
        ensures
            r@ == self@,
    {
        self.0.as_slice()
    }
}

/// The 115-byte pre-image for one time bucket.
fn signable(
    time_step: u64,
    signer: &PublicKey,
    audience: &PublicKey,
    token_hash: &Vec<u8>,
) -> (r: Vec<u8>)
    requires
        signer.wf(),
        audience.wf(),
        token_hash@.len() == 32,
    ensures
        r@ == spec_compact_signable(time_step, signer@, audience@, token_hash@),
        r@.len() == 115,
{
    let mut out: Vec<u8> = Vec::new();
    out.push(112);
    out.push(117);
    out.push(98);
    out.push(107);
    out.push(121);
    out.push(58);
    out.push(97);
    out.push(117);
    out.push(116);
    out.push(104);
    out.push(110);
    proof {
        assert(out@ =~= namespace_tag());
    }
    push_be8(&mut out, time_step);
    let signer_bytes = signer.as_bytes();
    push_range(&mut out, signer_bytes.as_slice(), 0, signer_bytes.len());
    let audience_bytes = audience.as_bytes();
    push_range(&mut out, audience_bytes.as_slice(), 0, audience_bytes.len());
    push_range(&mut out, token_hash.as_slice(), 0, token_hash.len());
    proof {
        assert(signer@.subrange(0, signer@.len() as int) =~= signer@);
        assert(audience@.subrange(0, audience@.len() as int) =~= audience@);
        assert(token_hash@.subrange(0, token_hash@.len() as int) =~= token_hash@);
        assert(out@ =~= spec_compact_signable(time_step, signer@, audience@, token_hash@));
        crate::wire::lemma_be_bytes_n_len(time_step as nat, 8);
    }
    out
}

/// The replay key of a compact credential: the bucket word, then the four
/// words of the content hash.
pub open spec fn spec_compact_key(bucket: u64, hash: Seq<u8>) -> CacheKey {
    CacheKey {
        w0: bucket,
        w1: from_be(hash.subrange(0, 8)) as u64,
        w2: from_be(hash.subrange(8, 16)) as u64,
        w3: from_be(hash.subrange(16, 24)) as u64,
        w4: from_be(hash.subrange(24, 32)) as u64,
    }
}

fn compact_cache_key(bucket: u64, hash: &Vec<u8>) -> (r: CacheKey)
    requires
        hash@.len() == 32,
    ensures
        r == spec_compact_key(bucket, hash@),
{
    let s = hash.as_slice();
    proof {
        assert(pow(256, 8) == 0x1_0000_0000_0000_0000) by {
            reveal_with_fuel(pow, 9);
        }
        crate::wire::lemma_from_be_bound(hash@.subrange(0, 8));
        crate::wire::lemma_from_be_bound(hash@.subrange(8, 16));
        crate::wire::lemma_from_be_bound(hash@.subrange(16, 24));
        crate::wire::lemma_from_be_bound(hash@.subrange(24, 32));
    }
    CacheKey {
        w0: bucket,
        w1: read_be8(s, 0),
        w2: read_be8(s, 8),
        w3: read_be8(s, 16),
        w4: read_be8(s, 24),
    }
}

/// The first of the three admissible buckets — present, one interval past,
/// one interval future, in that order — whose pre-image the signature
/// validates for, if any.
pub open spec fn first_valid_bucket(
    audience: Seq<u8>,
    signer: Seq<u8>,
    sig: Seq<u8>,
    hash: Seq<u8>,
    now: u64,
) -> Option<u64> {
    let b0 = bucket_of(now);
    let b1 = bucket_of(past_candidate(now));
    let b2 = bucket_of(future_candidate(now));
    if sig_ok(signer, spec_compact_signable(b0, signer, audience, hash), sig) {
        Some(b0)
    } else if sig_ok(signer, spec_compact_signable(b1, signer, audience, hash), sig) {
        Some(b1)
    } else if sig_ok(signer, spec_compact_signable(b2, signer, audience, hash), sig) {
        Some(b2)
    } else {
        None
    }
}

/// The whole effect of one compact verification: the result, and the cache
/// first garbage-collected, then extended by the credential's key exactly
/// when it was accepted. A payload of the wrong length changes nothing.
pub open spec fn compact_verify_transition(
    pre: Seq<CacheKey>,
    post: Seq<CacheKey>,
    audience: Seq<u8>,
    bytes: Seq<u8>,
    signer: Seq<u8>,
    now: u64,
    r: Result<(), AuthnSignatureError>,
) -> bool {
    if bytes.len() != 96 {
        &&& r matches Err(AuthnSignatureError::InvalidLength(n)) && n == bytes.len()
        &&& post == pre
    } else {
        let sig = bytes.subrange(0, 64);
        let hash = bytes.subrange(64, 96);
        let g = evicted(pre, gc_threshold(now));
        match first_valid_bucket(audience, signer, sig, hash, now) {
            None => r == Err::<(), AuthnSignatureError>(AuthnSignatureError::InvalidSignature)
                && post == g,
            Some(b) => {
                let key = spec_compact_key(b, hash);
                if g.contains(key) {
                    r == Err::<(), AuthnSignatureError>(AuthnSignatureError::AlreadyUsed) && post
                        == g
                } else {
                    r == Ok::<(), AuthnSignatureError>(()) && sorted(post) && post.to_multiset()
                        == g.to_multiset().insert(key)
                }
            },
        }
    }
}

/// Verifies compact credentials for one audience; owns the compact-path
/// replay cache.
#[derive(Debug)]
pub struct AuthnVerifier {
    audience: PublicKey,
    inner: ReplayCache,
}

impl AuthnVerifier {
    /// The audience this verifier accepts credentials for.
    pub closed spec fn spec_audience(self) -> Seq<u8> {
        self.audience@
    }

    /// The recorded replay keys, in sorted order.
    pub closed spec fn cache(self) -> Seq<CacheKey> {
        self.inner@
    }

    pub open spec fn wf(self) -> bool {
        self.spec_audience().len() == 32 && sorted(self.cache())
    }

    pub fn new(audience: PublicKey) -> (r: AuthnVerifier)
        requires
            audience.wf(),
        ensures
            r.wf(),
            r.spec_audience() == audience@,
            r.cache() == Seq::<CacheKey>::empty(),
    {
        AuthnVerifier { audience, inner: ReplayCache::new() }
    }

    /// Verify `bytes` against `signer` at the present instant.
    pub fn verify(&mut self, bytes: &[u8], signer: &PublicKey) -> (r: Result<
        (),
        AuthnSignatureError,
    >)
        requires
            old(self).wf(),
            signer.wf(),
        ensures
            final(self).wf(),
            final(self).spec_audience() == old(self).spec_audience(),
            exists|now: u64|
                compact_verify_transition(
                    old(self).cache(),
                    final(self).cache(),
                    old(self).spec_audience(),
                    bytes@,
                    signer@,
                    now,
                    r,
                ),
    {
        let now = Timestamp::now();
        let ghost pre = self.cache();
        let r = self.verify_at_time(bytes, signer, now);
        proof {
            assert(compact_verify_transition(
                pre,
                self.cache(),
                self.spec_audience(),
                bytes@,
                signer@,
                now@,
                r,
            ));
        }
        r
    }

    /// The verified core of [`AuthnVerifier::verify`]: verify against the
    /// given instant. The length is checked first; then garbage collection
    /// runs; then the three candidate buckets are tried in priority order,
    /// and the first valid one decides between acceptance and replay.
    pub fn verify_at_time(&mut self, bytes: &[u8], signer: &PublicKey, now: Timestamp) -> (r:
        Result<(), AuthnSignatureError>)
        requires
            old(self).wf(),
            signer.wf(),
        ensures
            final(self).wf(),
            final(self).spec_audience() == old(self).spec_audience(),
            compact_verify_transition(
                old(self).cache(),
                final(self).cache(),
                old(self).spec_audience(),
                bytes@,
                signer@,
                now@,
                r,
            ),
    {
        if bytes.len() != 96 {
            return Err(AuthnSignatureError::InvalidLength(bytes.len()));
        }
        self.gc(&now);
        let sig = Signature::from_bytes(copy_range(bytes, 0, 64));
        let hash = copy_range(bytes, 64, 96);
        let now_micros = now.into_inner();
        let bucket_now = now_micros / TIME_INTERVAL;
        let past = if now_micros >= TIME_INTERVAL {
            now_micros - TIME_INTERVAL
        } else {
            0
        };
        let future = if now_micros <= u64::MAX - TIME_INTERVAL {
            now_micros + TIME_INTERVAL
        } else {
            u64::MAX
        };
        let bucket_past = past / TIME_INTERVAL;
        let bucket_future = future / TIME_INTERVAL;
        match self.try_bucket(bucket_now, &sig, signer, &hash) {
            Ok(()) => {
                return Ok(());
            },
            Err(AuthnSignatureError::AlreadyUsed) => {
                return Err(AuthnSignatureError::AlreadyUsed);
            },
            Err(_) => {},
        }
        match self.try_bucket(bucket_past, &sig, signer, &hash) {
            Ok(()) => {
                return Ok(());
            },
            Err(AuthnSignatureError::AlreadyUsed) => {
                return Err(AuthnSignatureError::AlreadyUsed);
            },
            Err(_) => {},
        }
        self.try_bucket(bucket_future, &sig, signer, &hash)
    }

    /// One candidate bucket: check the signature over this bucket's
    /// pre-image; when it is valid, either report a replay or record the
    /// key and accept.
    fn try_bucket(
        &mut self,
        bucket: u64,
        sig: &Signature,
        signer: &PublicKey,
        hash: &Vec<u8>,
    ) -> (r: Result<(), AuthnSignatureError>)
        requires
            old(self).wf(),
            signer.wf(),
            sig.wf(),
            hash@.len() == 32,
        ensures
            final(self).wf(),
            final(self).spec_audience() == old(self).spec_audience(),
            ({
                let valid = sig_ok(
                    signer@,
                    spec_compact_signable(bucket, signer@, old(self).spec_audience(), hash@),
                    sig@,
                );
                let key = spec_compact_key(bucket, hash@);
                if !valid {
                    r == Err::<(), AuthnSignatureError>(AuthnSignatureError::InvalidSignature)
                        && final(self).cache() == old(self).cache()
                } else if old(self).cache().contains(key) {
                    r == Err::<(), AuthnSignatureError>(AuthnSignatureError::AlreadyUsed)
                        && final(self).cache() == old(self).cache()
                } else {
                    r == Ok::<(), AuthnSignatureError>(()) && final(self).cache().to_multiset()
                        == old(self).cache().to_multiset().insert(key)
                }
            }),
    {
        let pre_image = signable(bucket, signer, &self.audience, hash);
        if signer.verify(pre_image.as_slice(), sig) {
            let key = compact_cache_key(bucket, hash);
            if self.inner.contains(&key) {
                Err(AuthnSignatureError::AlreadyUsed)
            } else {
                self.inner.insert(key);
                Ok(())
            }
        } else {
            Err(AuthnSignatureError::InvalidSignature)
        }
    }

    /// Remove all entries older than two time intervals in the past.
    fn gc(&mut self, now: &Timestamp)
        requires
            old(self).wf(),
        ensures
            final(self).wf(),
            final(self).audience == old(self).audience,
            final(self).cache() == evicted(old(self).cache(), gc_threshold(now@)),
    {
        let micros = now.into_inner();
        let bucket = micros / TIME_INTERVAL;
        let threshold = if bucket >= 2 {
            bucket - 2
        } else {
            0
        };
        self.inner.evict_below(threshold);
    }
}

/// Moving one whole interval moves the bucket by exactly one.
proof fn lemma_bucket_shift(now: u64)
    ensures
        now >= TIME_INTERVAL ==> bucket_of((now - TIME_INTERVAL) as u64) == bucket_of(now) - 1,
        now + TIME_INTERVAL <= u64::MAX ==> bucket_of((now + TIME_INTERVAL) as u64) == bucket_of(
            now,
        ) + 1,
{
    let i = TIME_INTERVAL as int;
    let q = bucket_of(now) as int;
    let r = now as int % i;
    vstd::arithmetic::div_mod::lemma_fundamental_div_mod(now as int, i);
    if now >= TIME_INTERVAL {
        assert(q >= 1) by {
            if q == 0 {
                assert(now == r);
            }
            vstd::arithmetic::div_mod::lemma_div_pos_is_pos(now as int, i);
        }
        assert((now - TIME_INTERVAL) as int == i * (q - 1) + r);
        vstd::arithmetic::div_mod::lemma_div_multiples_vanish_fancy(q - 1, r, i);
    }
    if now + TIME_INTERVAL <= u64::MAX {
        assert((now + TIME_INTERVAL) as int == i * (q + 1) + r);
        vstd::arithmetic::div_mod::lemma_div_multiples_vanish_fancy(q + 1, r, i);
    }
}

/// Every candidate bucket survives garbage collection at the same instant:
/// each is at most one interval from the present bucket, and the threshold
/// sits two whole intervals behind it.
proof fn lemma_candidates_retained(now: u64)
    ensures
        bucket_of(now) >= gc_threshold(now),
        bucket_of(past_candidate(now)) >= gc_threshold(now),
        bucket_of(future_candidate(now)) >= gc_threshold(now),
{
    lemma_bucket_shift(now);
    vstd::arithmetic::div_mod::lemma_div_is_ordered(
        now as int,
        future_candidate(now) as int,
        TIME_INTERVAL as int,
    );
    if now < TIME_INTERVAL {
        vstd::arithmetic::div_mod::lemma_div_pos_is_pos(past_candidate(now) as int, TIME_INTERVAL as int);
    }
}

/// Replay: the same 96-byte payload verified twice against the same signer
/// at the same instant succeeds at most once — the second call reports
/// `AlreadyUsed` and records nothing.
pub proof fn lemma_compact_replay(
    pre: Seq<CacheKey>,
    mid: Seq<CacheKey>,
    post: Seq<CacheKey>,
    audience: Seq<u8>,
    bytes: Seq<u8>,
    signer: Seq<u8>,
    now: u64,
    second: Result<(), AuthnSignatureError>,
)
    requires
        compact_verify_transition(pre, mid, audience, bytes, signer, now, Ok(())),
        compact_verify_transition(mid, post, audience, bytes, signer, now, second),
    ensures
        second == Err::<(), AuthnSignatureError>(AuthnSignatureError::AlreadyUsed),
        post == evicted(mid, gc_threshold(now)),
{
    let sig = bytes.subrange(0, 64);
    let hash = bytes.subrange(64, 96);
    let b = first_valid_bucket(audience, signer, sig, hash, now)->Some_0;
    let key = spec_compact_key(b, hash);
    crate::replay::lemma_no_lost_entries(pre, mid, gc_threshold(now), key);
    lemma_candidates_retained(now);
    assert(key.w0 == b && b >= gc_threshold(now));
    crate::replay::lemma_evicted_membership(mid, gc_threshold(now), key);
}

/// Clock-skew tolerance: a signature built for the bucket of `build_time`
/// still finds a valid candidate bucket when checked at any instant within
/// one whole interval of `build_time`, on either side.
pub proof fn lemma_clock_skew_window(
    audience: Seq<u8>,
    signer: Seq<u8>,
    sig: Seq<u8>,
    hash: Seq<u8>,
    build_time: u64,
    check_time: u64,
)
    requires
        sig_ok(
            signer,
            spec_compact_signable(bucket_of(build_time), signer, audience, hash),
            sig,
        ),
        build_time <= check_time ==> check_time - build_time <= TIME_INTERVAL,
        check_time <= build_time ==> build_time - check_time <= TIME_INTERVAL,
    ensures
        first_valid_bucket(audience, signer, sig, hash, check_time) is Some,
{
    let i = TIME_INTERVAL as int;
    let q = bucket_of(check_time);
    let bb = bucket_of(build_time);
    lemma_bucket_shift(check_time);
    if build_time <= check_time {
        vstd::arithmetic::div_mod::lemma_div_is_ordered(
            build_time as int,
            check_time as int,
            i,
        );
        vstd::arithmetic::div_mod::lemma_div_is_ordered(
            past_candidate(check_time) as int,
            build_time as int,
            i,
        );
        assert(bucket_of(past_candidate(check_time)) <= bb <= q);
        if check_time >= TIME_INTERVAL {
            assert(bucket_of(past_candidate(check_time)) == q - 1);
        } else {
            vstd::arithmetic::div_mod::lemma_div_pos_is_pos(build_time as int, i);
            vstd::arithmetic::div_mod::lemma_basic_div(build_time as int, i);
            vstd::arithmetic::div_mod::lemma_basic_div(past_candidate(check_time) as int, i);
        }
        assert(bb == q || bb == bucket_of(past_candidate(check_time)));
    } else {
        vstd::arithmetic::div_mod::lemma_div_is_ordered(
            check_time as int,
            build_time as int,
            i,
        );
        vstd::arithmetic::div_mod::lemma_div_is_ordered(
            build_time as int,
            future_candidate(check_time) as int,
            i,
        );
        assert(q <= bb <= bucket_of(future_candidate(check_time)));
        if check_time + TIME_INTERVAL <= u64::MAX {
            assert(bucket_of(future_candidate(check_time)) == q + 1);
        }
        assert(bb == q || bb == bucket_of(future_candidate(check_time)));
    }
}

} // verus!
