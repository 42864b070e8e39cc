//! The structured credential: a versioned token carrying audience,
//! timestamp, subject, signature and scopes, its canonical wire format, and
//! the verifier that owns the token-path replay cache.
//!
//! The wire format is byte-exact: `version(1B) || audience(32B) ||
//! timestamp(8B BE) || subject(32B) || signature(64B) || scopes`, where the
//! scope list is a count followed by length-prefixed UTF-8 strings, every
//! integer a canonical variable-length integer. Decoding and re-encoding
//! reproduce the same bytes, so the signable pre-image can be recomputed
//! from decoded fields.

use crate::crypto::{pk_of, sig_of, sig_ok, Keypair, PublicKey, Signature};
use crate::replay::{evicted, sorted, CacheKey, ReplayCache};
use crate::timestamp::{
    expired, fresh, gc_threshold, too_far_in_the_future, Timestamp, TIME_INTERVAL,
    TIMESTAMP_WINDOW,
};
use crate::wire::{
    be8, copy_range, dec_varint, enc_varint, from_be, push_be8, push_range, push_varint,
    read_be8, read_varint,
};
use vstd::arithmetic::power::pow;
use vstd::prelude::*;
use vstd::utf8::{decode_utf8, encode_utf8, valid_utf8};

verus! {

/// The one token version this crate builds and accepts. Version 0: the
/// signer is implicitly the subject.
pub const CURRENT_VERSION: u8 = 0;

/// The mathematical content of a token.
pub struct TokenView {
    pub version: u8,
    pub audience: Seq<u8>,
    pub timestamp: u64,
    pub subject: Seq<u8>,
    pub signature: Seq<u8>,
    pub scopes: Seq<Seq<char>>,
}

/// The canonical encoding of one scope: its UTF-8 length, then its UTF-8
/// bytes.
pub open spec fn enc_scope(s: Seq<char>) -> Seq<u8> {
    enc_varint(encode_utf8(s).len()) + encode_utf8(s)
}

/// The scopes one after another, without the leading count.
pub open spec fn enc_scope_list(ss: Seq<Seq<char>>) -> Seq<u8>
    decreases ss.len(),
{
    if ss.len() == 0 {
        Seq::empty()
    } else {
        enc_scope(ss[0]) + enc_scope_list(ss.drop_first())
    }
}

/// The canonical encoding of a scope list: the count, then each scope.
pub open spec fn enc_scopes(ss: Seq<Seq<char>>) -> Seq<u8> {
    enc_varint(ss.len()) + enc_scope_list(ss)
}

/// The deterministic pre-image the token signature covers.
pub open spec fn spec_signable(audience: Seq<u8>, ts: u64, scopes: Seq<Seq<char>>) -> Seq<u8> {
    seq![CURRENT_VERSION] + audience + be8(ts) + enc_scopes(scopes)
}

/// The serialized token.
pub open spec fn spec_serialize(t: TokenView) -> Seq<u8> {
    seq![t.version] + t.audience + be8(t.timestamp) + t.subject + t.signature + enc_scopes(
        t.scopes,
    )
}

/// Parses `n` scopes from the front of `s`, yielding them and the bytes
/// consumed. Rejects truncation, non-canonical lengths and invalid UTF-8.
pub open spec fn parse_scope_list(s: Seq<u8>, n: nat) -> Option<(Seq<Seq<char>>, int)>
    decreases n,
{
    if n == 0 {
        Some((Seq::empty(), 0))
    } else {
        match dec_varint(s) {
            None => None,
            Some((len, used)) => if len + used > s.len() {
                None
            } else {
                let content = s.subrange(used, used + len);
                if !valid_utf8(content) {
                    None
                } else {
                    match parse_scope_list(s.skip(used + len), (n - 1) as nat) {
                        None => None,
                        Some((rest, c)) => Some(
                            (seq![decode_utf8(content)] + rest, used + len + c),
                        ),
                    }
                }
            },
        }
    }
}

/// Parses a whole serialized token; `None` on any malformation, a version
/// byte other than the current one, or trailing bytes.
pub open spec fn spec_parse(bytes: Seq<u8>) -> Option<TokenView> {
    if bytes.len() < 138 {
        None
    } else if bytes[0] != CURRENT_VERSION {
        None
    } else {
        let rest = bytes.skip(137);
        match dec_varint(rest) {
            None => None,
            Some((n, used)) => match parse_scope_list(rest.skip(used), n) {
                None => None,
                Some((scopes, c)) => if used + c == rest.len() {
                    Some(
                        TokenView {
                            version: CURRENT_VERSION,
                            audience: bytes.subrange(1, 33),
                            timestamp: from_be(bytes.subrange(33, 41)) as u64,
                            subject: bytes.subrange(41, 73),
                            signature: bytes.subrange(73, 137),
                            scopes: scopes,
                        },
                    )
                } else {
                    None
                },
            },
        }
    }
}

/// Why a token was rejected.
#[derive(Debug, PartialEq, Eq)]
pub enum Error {
    /// The leading version byte exceeds the supported maximum.
    UnknownVersion,
    /// The decoded audience is not the verifier's: expected, then got.
    InvalidAudience(PublicKey, PublicKey),
    /// The timestamp is more than the tolerated window ahead of now.
    TooFarInTheFuture,
    /// The timestamp is more than the tolerated window behind now.
    Expired,
    /// The signature does not validate over the recomputed pre-image.
    InvalidSignature,
    /// The bytes are not a well-formed serialized token.
    Decode,
}

/// A signed, time-bounded credential with explicit scopes.
#[derive(Debug, PartialEq)]
pub struct AuthToken {
    /// Version of the token. Version 0: the signer is implicitly the
    /// subject.
    pub version: u8,
    /// The party meant to verify this token.
    pub audience: PublicKey,
    /// When the token was signed.
    pub timestamp: Timestamp,
    /// The owner of the resources the token gives access to.
    pub subject: PublicKey,
    /// Signature over the signable pre-image, by the subject.
    pub signature: Signature,
    /// Opaque permission strings.
    pub scopes: Vec<String>,
}

impl View for AuthToken {
    type V = TokenView;

    open spec fn view(&self) -> TokenView {
        TokenView {
            version: self.version,
            audience: self.audience@,
            timestamp: self.timestamp@,
            subject: self.subject@,
            signature: self.signature@,
            scopes: self.scopes.deep_view(),
        }
    }
}

/// Structural well-formedness of a token view.
pub open spec fn wf_view(t: TokenView) -> bool {
    &&& t.version == CURRENT_VERSION
    &&& t.audience.len() == 32
    &&& t.subject.len() == 32
    &&& t.signature.len() == 64
}

impl AuthToken {
    pub open spec fn wf(self) -> bool {
        wf_view(self@)
    }

    /// A token signed now by `signer` for `audience`.
    pub fn new(signer: &Keypair, audience: &PublicKey, scopes: Vec<String>) -> (r: AuthToken)
        requires
            signer.wf(),
            audience.wf(),
        ensures
            r.wf(),
            r@.audience == audience@,
            r@.subject == pk_of(signer.seed()),
            r@.scopes == scopes.deep_view(),
            r@.signature == sig_of(
                signer.seed(),
                spec_signable(audience@, r@.timestamp, scopes.deep_view()),
            ),
            sig_ok(r@.subject, spec_signable(r@.audience, r@.timestamp, r@.scopes), r@.signature),
    {
        let timestamp = Timestamp::now();
        AuthToken::new_at(signer, audience, scopes, timestamp)
    }

    /// A token signed at the given instant; the verified core of [`AuthToken::new`].
    pub fn new_at(
        signer: &Keypair,
        audience: &PublicKey,
        scopes: Vec<String>,
        timestamp: Timestamp,
    ) -> (r: AuthToken)
        requires
            signer.wf(),
            audience.wf(),
        ensures
            r.wf(),
            r@.audience == audience@,
            r@.timestamp == timestamp@,
            r@.subject == pk_of(signer.seed()),
            r@.scopes == scopes.deep_view(),
            r@.signature == sig_of(
                signer.seed(),
                spec_signable(audience@, timestamp@, scopes.deep_view()),
            ),
            sig_ok(r@.subject, spec_signable(r@.audience, r@.timestamp, r@.scopes), r@.signature),
    {
        let pre_image = AuthToken::signable(audience, &timestamp, &scopes);
        let signature = signer.sign(pre_image.as_slice());
        AuthToken {
            version: CURRENT_VERSION,
            subject: signer.public_key(),
            audience: audience.to_owned_key(),
            timestamp,
            scopes,
            signature,
        }
    }

    /// The deterministic byte sequence the signature covers.
    pub fn signable(audience: &PublicKey, timestamp: &Timestamp, scopes: &Vec<String>) -> (r:
        Vec<u8>)
        ensures
            r@ == spec_signable(audience@, timestamp@, scopes.deep_view()),
    {
        let mut out: Vec<u8> = Vec::new();
        out.push(CURRENT_VERSION);
        let audience_bytes = audience.as_bytes();
        push_range(&mut out, audience_bytes.as_slice(), 0, audience_bytes.len());
        push_be8(&mut out, timestamp.into_inner());
        proof {
            assert(audience@.subrange(0, audience@.len() as int) =~= audience@);
            assert(out@ =~= seq![CURRENT_VERSION] + audience@ + be8(timestamp@));
        }
        push_scopes(&mut out, scopes);
        proof {
            assert((seq![CURRENT_VERSION] + audience@ + be8(timestamp@)) + enc_scopes(
                scopes.deep_view(),
            ) =~= spec_signable(audience@, timestamp@, scopes.deep_view()));
        }
        out
    }

    /// The 40-byte replay key: subject, then the big-endian timestamp.
    /// It is unique on the assumption that a subject never issues two
    /// tokens with the same timestamp.
    pub fn id(&self) -> (r: Vec<u8>)
        requires
            self.wf(),
        ensures
            r@ == self@.subject + be8(self@.timestamp),
            r@.len() == 40,
    {
        let mut out: Vec<u8> = Vec::new();
        let subject_bytes = self.subject.as_bytes();
        push_range(&mut out, subject_bytes.as_slice(), 0, subject_bytes.len());
        push_be8(&mut out, self.timestamp.into_inner());
        proof {
            assert(self.subject@.subrange(0, self.subject@.len() as int) =~= self.subject@);
            crate::wire::lemma_be_bytes_n_len(self@.timestamp as nat, 8);
        }
        out
    }

    /// The canonical serialization of this token.
    pub fn serialize(&self) -> (r: Result<Vec<u8>, Error>)
        requires
            self.wf(),
        ensures
            r matches Ok(bytes) && bytes@ == spec_serialize(self@),
    {
        let mut out: Vec<u8> = Vec::new();
        out.push(self.version);
        let audience_bytes = self.audience.as_bytes();
        push_range(&mut out, audience_bytes.as_slice(), 0, audience_bytes.len());
        push_be8(&mut out, self.timestamp.into_inner());
        let subject_bytes = self.subject.as_bytes();
        push_range(&mut out, subject_bytes.as_slice(), 0, subject_bytes.len());
        let signature_bytes = self.signature.as_bytes();
        push_range(&mut out, signature_bytes.as_slice(), 0, signature_bytes.len());
        proof {
            assert(self.audience@.subrange(0, self.audience@.len() as int) =~= self.audience@);
            assert(self.subject@.subrange(0, self.subject@.len() as int) =~= self.subject@);
            assert(self.signature@.subrange(0, self.signature@.len() as int) =~= self.signature@);
            assert(out@ =~= seq![self@.version] + self@.audience + be8(self@.timestamp)
                + self@.subject + self@.signature);
        }
        push_scopes(&mut out, &self.scopes);
        proof {
            assert((seq![self@.version] + self@.audience + be8(self@.timestamp) + self@.subject
                + self@.signature) + enc_scopes(self@.scopes) =~= spec_serialize(self@));
        }
        Ok(out)
    }
}

impl PublicKey {
    /// A fresh key equal to this one.
    pub fn to_owned_key(&self) -> (r: PublicKey)
        requires
            self.wf(),
        ensures
            r@ == self@,
            r.wf(),
    {
        PublicKey::from_bytes(self.to_bytes())
    }
}

/// Appending one scope extends the encoding by that scope's bytes.
proof fn lemma_enc_scope_list_push(ss: Seq<Seq<char>>, s: Seq<char>)
    ensures
        enc_scope_list(ss.push(s)) == enc_scope_list(ss) + enc_scope(s),
    decreases ss.len(),
{
    if ss.len() == 0 {
        let p = ss.push(s);
        assert(p[0] == s);
        assert(p.drop_first() =~= ss);
        assert(enc_scope_list(p) == enc_scope(s) + enc_scope_list(ss));
        assert(enc_scope(s) + enc_scope_list(ss) =~= enc_scope_list(ss) + enc_scope(s));
    } else {
        assert(ss.push(s).drop_first() =~= ss.drop_first().push(s));
        assert(ss.push(s)[0] == ss[0]);
        lemma_enc_scope_list_push(ss.drop_first(), s);
        assert(enc_scope_list(ss.push(s)) == enc_scope(ss[0]) + (enc_scope_list(ss.drop_first())
            + enc_scope(s)));
        assert(enc_scope(ss[0]) + (enc_scope_list(ss.drop_first()) + enc_scope(s)) =~= (enc_scope(
            ss[0],
        ) + enc_scope_list(ss.drop_first())) + enc_scope(s));
    }
}

/// Appends the canonical scope-list encoding: the count, then each scope.
fn push_scopes(out: &mut Vec<u8>, scopes: &Vec<String>)
    ensures
        final(out)@ == old(out)@ + enc_scopes(scopes.deep_view()),
{
    let ghost orig = out@;
    let n = scopes.len();
    push_varint(out, n as u64);
    let mut i: usize = 0;
    proof {
        assert(scopes.deep_view().take(0) =~= Seq::<Seq<char>>::empty());
        assert(out@ =~= orig + enc_varint(scopes.deep_view().len()) + enc_scope_list(
            scopes.deep_view().take(0),
        ));
    }
    while i < n
        invariant
            i <= n == scopes@.len(),
            out@ == orig + enc_varint(scopes.deep_view().len()) + enc_scope_list(
                scopes.deep_view().take(i as int),
            ),
        decreases n - i,
    {
        let ghost pre = out@;
        let scope = &scopes[i];
        let scope_bytes = scope.as_str().as_bytes();
        push_varint(out, scope_bytes.len() as u64);
        push_range(out, scope_bytes, 0, scope_bytes.len());
        proof {
            let sv = scopes.deep_view()[i as int];
            assert(scope@ == sv);
            assert(scope_bytes@ == encode_utf8(sv));
            assert(scope_bytes@.subrange(0, scope_bytes@.len() as int) =~= scope_bytes@);
            assert(out@ =~= pre + enc_scope(sv));
            lemma_enc_scope_list_push(scopes.deep_view().take(i as int), sv);
            assert(scopes.deep_view().take(i + 1) =~= scopes.deep_view().take(i as int).push(sv));
            assert(out@ =~= orig + enc_varint(scopes.deep_view().len()) + enc_scope_list(
                scopes.deep_view().take(i + 1),
            ));
        }
        i = i + 1;
    }
    proof {
        assert(scopes.deep_view().take(n as int) =~= scopes.deep_view());
        assert(out@ =~= orig + enc_scopes(scopes.deep_view()));
    }
}

/// Relies on `String::from_utf8`: succeeds exactly on valid UTF-8 and
/// preserves the bytes.
#[verifier::external_body]
fn bytes_to_string(bytes: Vec<u8>) -> (r: Option<String>)
    ensures
        match r {
            Some(s) => valid_utf8(bytes@) && encode_utf8(s@) == bytes@,
            None => !valid_utf8(bytes@),
        },
{
    String::from_utf8(bytes).ok()
}

/// More scopes than bytes can never parse: each scope takes at least one
/// byte.
proof fn lemma_parse_scope_list_too_many(s: Seq<u8>, n: nat)
    requires
        n > s.len(),
    ensures
        parse_scope_list(s, n) is None,
    decreases n,
{
    if dec_varint(s) is Some {
        let (len, used) = dec_varint(s)->Some_0;
        crate::wire::lemma_dec_varint_used(s);
        if len + used <= s.len() && valid_utf8(s.subrange(used, used + len)) {
            lemma_parse_scope_list_too_many(s.skip(used + len), (n - 1) as nat);
        }
    }
}

/// Parses a serialized token, exactly as [`spec_parse`] describes.
#[verifier::loop_isolation(false)]
fn parse_token(bytes: &[u8]) -> (r: Option<AuthToken>)
    ensures
        match r {
            Some(t) => spec_parse(bytes@) == Some(t@) && t.wf(),
            None => spec_parse(bytes@) is None,
        },
{
    let n = bytes.len();
    if n < 138 {
        return None;
    }
    if bytes[0] != CURRENT_VERSION {
        return None;
    }
    let audience = PublicKey::from_bytes(copy_range(bytes, 1, 33));
    let ts = read_be8(bytes, 33);
    let timestamp = Timestamp::from_micros(ts);
    let subject = PublicKey::from_bytes(copy_range(bytes, 41, 73));
    let signature = Signature::from_bytes(copy_range(bytes, 73, 137));
    let ghost rest = bytes@.skip(137);
    proof {
        assert(rest =~= bytes@.subrange(137, n as int));
    }
    let (count, start) = match read_varint(bytes, 137) {
        None => {
            proof {
                if dec_varint(rest) is Some {
                    let (v, u) = dec_varint(rest)->Some_0;
                    assert(v > u64::MAX);
                    crate::wire::lemma_dec_varint_used(rest);
                    assert(rest.skip(u).len() <= n <= usize::MAX);
                    lemma_parse_scope_list_too_many(rest.skip(u), v);
                }
            }
            return None;
        },
        Some(x) => x,
    };
    let ghost used0 = start - 137;
    proof {
        crate::wire::lemma_dec_varint_used(rest);
        assert(dec_varint(rest) == Some::<(nat, int)>((count as nat, used0 as int)));
        assert(rest.skip(used0 as int) =~= bytes@.subrange(start as int, n as int));
    }
    let mut scopes: Vec<String> = Vec::new();
    let mut pos: usize = start;
    let mut i: u64 = 0;
    proof {
        assert(scopes.deep_view() =~= Seq::<Seq<char>>::empty());
        if parse_scope_list(bytes@.subrange(start as int, n as int), count as nat) is Some {
            let (first_scopes, _c) = parse_scope_list(
                bytes@.subrange(start as int, n as int),
                count as nat,
            )->Some_0;
            assert(scopes.deep_view() + first_scopes =~= first_scopes);
        }
    }
    while i < count
        invariant
            i <= count,
            137 <= start <= pos <= n == bytes@.len(),
            scopes.deep_view().len() == i,
            ({
                let m = parse_scope_list(
                    bytes@.subrange(pos as int, n as int),
                    (count - i) as nat,
                );
                let full = parse_scope_list(
                    bytes@.subrange(start as int, n as int),
                    count as nat,
                );
                match m {
                    None => full is None,
                    Some((rest_scopes, c)) => full == Some::<(Seq<Seq<char>>, int)>(
                        (scopes.deep_view() + rest_scopes, (pos - start) + c),
                    ),
                }
            }),
        decreases count - i,
    {
        let ghost cur = bytes@.subrange(pos as int, n as int);
        let ghost m_count = (count - i) as nat;
        let (slen, next) = match read_varint(bytes, pos) {
            None => {
                proof {
                    if dec_varint(cur) is Some {
                        let (v, _u) = dec_varint(cur)->Some_0;
                        crate::wire::lemma_dec_varint_used(cur);
                        assert(v > u64::MAX);
                        assert(cur.len() <= usize::MAX <= u64::MAX);
                    }
                    assert(parse_scope_list(cur, m_count) is None);
                }
                return None;
            },
            Some(x) => x,
        };
        proof {
            crate::wire::lemma_dec_varint_used(cur);
        }
        if slen > (n - next) as u64 {
            proof {
                assert(parse_scope_list(cur, m_count) is None);
            }
            return None;
        }
        let content = copy_range(bytes, next, next + slen as usize);
        proof {
            let used = next - pos;
            assert(cur.subrange(used as int, used + slen) =~= bytes@.subrange(
                next as int,
                next + slen,
            ));
        }
        let s = match bytes_to_string(content) {
            None => {
                proof {
                    assert(parse_scope_list(cur, m_count) is None);
                }
                return None;
            },
            Some(s) => s,
        };
        let ghost pre_scopes = scopes.deep_view();
        scopes.push(s);
        proof {
            vstd::utf8::encode_utf8_decode_utf8(s@);
            let used = next - pos;
            let new_pos = next + slen as usize;
            assert(cur.skip(used + slen as int) =~= bytes@.subrange(new_pos as int, n as int));
            assert(scopes.deep_view() =~= pre_scopes.push(s@));
            let m2 = parse_scope_list(
                bytes@.subrange(new_pos as int, n as int),
                (count - i - 1) as nat,
            );
            if m2 is Some {
                let (rest2, c2) = m2->Some_0;
                assert(parse_scope_list(cur, m_count) == Some::<(Seq<Seq<char>>, int)>(
                    (seq![s@] + rest2, used + slen + c2),
                ));
                assert(pre_scopes + (seq![s@] + rest2) =~= pre_scopes.push(s@) + rest2);
            }
        }
        pos = next + slen as usize;
        i = i + 1;
    }
    if pos != n {
        return None;
    }
    let token = AuthToken {
        version: CURRENT_VERSION,
        audience,
        timestamp,
        subject,
        signature,
        scopes,
    };
    proof {
        assert(parse_scope_list(bytes@.subrange(pos as int, n as int), 0) == Some::<(
            Seq<Seq<char>>,
            int,
        )>((Seq::empty(), 0)));
        assert(token@.scopes + Seq::<Seq<char>>::empty() =~= token@.scopes);
        crate::wire::lemma_from_be_bound(bytes@.subrange(33, 41));
        assert(spec_parse(bytes@) == Some(token@));
    }
    Some(token)
}

/// Parsing a scope-list encoding recovers the scopes, whatever follows.
proof fn lemma_parse_enc_scope_list(ss: Seq<Seq<char>>, rest: Seq<u8>)
    ensures
        parse_scope_list(enc_scope_list(ss) + rest, ss.len()) == Some::<(Seq<Seq<char>>, int)>(
            (ss, enc_scope_list(ss).len() as int),
        ),
    decreases ss.len(),
{
    if ss.len() == 0 {
        assert(ss =~= Seq::<Seq<char>>::empty());
    } else {
        let s0 = ss[0];
        let bytes0 = encode_utf8(s0);
        let blen = bytes0.len();
        let tail_enc = enc_scope_list(ss.drop_first()) + rest;
        let whole = enc_scope_list(ss) + rest;
        assert(whole =~= enc_varint(blen) + (bytes0 + tail_enc));
        crate::wire::lemma_dec_enc_varint(blen, bytes0 + tail_enc);
        let used = enc_varint(blen).len() as int;
        assert(dec_varint(whole) == Some::<(nat, int)>((blen, used)));
        assert(whole.subrange(used, used + blen) =~= bytes0);
        vstd::utf8::encode_utf8_valid_utf8(s0);
        vstd::utf8::encode_utf8_decode_utf8(s0);
        assert(whole.skip(used + blen as int) =~= tail_enc);
        lemma_parse_enc_scope_list(ss.drop_first(), rest);
        assert(seq![s0] + ss.drop_first() =~= ss);
        assert(enc_scope_list(ss) =~= enc_scope(s0) + enc_scope_list(ss.drop_first()));
    }
}

/// Round trip: parsing the serialization of a well-formed token yields the
/// token back.
pub proof fn lemma_parse_serialize(t: TokenView)
    requires
        wf_view(t),
    ensures
        spec_parse(spec_serialize(t)) == Some(t),
{
    let bytes = spec_serialize(t);
    let scopes_enc = enc_scopes(t.scopes);
    crate::wire::lemma_enc_varint_len(t.scopes.len());
    crate::wire::lemma_be_bytes_n_len(t.timestamp as nat, 8);
    assert(bytes.len() == 137 + scopes_enc.len());
    assert(bytes[0] == t.version);
    assert(bytes.subrange(1, 33) =~= t.audience);
    assert(bytes.subrange(33, 41) =~= be8(t.timestamp));
    assert(bytes.subrange(41, 73) =~= t.subject);
    assert(bytes.subrange(73, 137) =~= t.signature);
    assert(bytes.skip(137) =~= scopes_enc);
    assert(pow(256, 8) == 0x1_0000_0000_0000_0000) by {
        reveal_with_fuel(pow, 9);
    }
    crate::wire::lemma_from_be_be_bytes_n(t.timestamp as nat, 8);
    crate::wire::lemma_dec_enc_varint(t.scopes.len(), enc_scope_list(t.scopes));
    assert(scopes_enc =~= enc_varint(t.scopes.len()) + enc_scope_list(t.scopes));
    let used = enc_varint(t.scopes.len()).len() as int;
    assert(dec_varint(scopes_enc) == Some::<(nat, int)>((t.scopes.len(), used)));
    lemma_parse_enc_scope_list(t.scopes, Seq::empty());
    assert(enc_scope_list(t.scopes) + Seq::<u8>::empty() =~= enc_scope_list(t.scopes));
    assert(scopes_enc.skip(used) =~= enc_scope_list(t.scopes));
    assert(used + enc_scope_list(t.scopes).len() == scopes_enc.len());
}

impl AuthToken {
    /// Decodes and validates a serialized token for `audience` at the
    /// instant `now`: version byte, then structure, then audience, then
    /// freshness, then the signature over the recomputed pre-image.
    pub fn verify_at(audience: &PublicKey, bytes: &[u8], now: Timestamp) -> (r: Result<
        AuthToken,
        Error,
    >)
        requires
            audience.wf(),
        ensures
            token_decision(audience@, bytes@, now@, r),
    {
        if bytes.len() == 0 {
            return Err(Error::Decode);
        }
        if bytes[0] > CURRENT_VERSION {
            return Err(Error::UnknownVersion);
        }
        let token = match parse_token(bytes) {
            None => {
                return Err(Error::Decode);
            },
            Some(t) => t,
        };
        if !token.audience.equals(audience) {
            return Err(
                Error::InvalidAudience(audience.to_owned_key(), token.audience.to_owned_key()),
            );
        }
        let ts = token.timestamp.into_inner();
        let now_micros = now.into_inner();
        if ts > now_micros && ts - now_micros > TIMESTAMP_WINDOW {
            return Err(Error::TooFarInTheFuture);
        }
        if now_micros > ts && now_micros - ts > TIMESTAMP_WINDOW {
            return Err(Error::Expired);
        }
        let pre_image = AuthToken::signable(&token.audience, &token.timestamp, &token.scopes);
        if !token.subject.verify(pre_image.as_slice(), &token.signature) {
            return Err(Error::InvalidSignature);
        }
        Ok(token)
    }
}

/// What a token verification returns, as a function of the verifier's
/// audience, the wire bytes, and the present instant. Exactly one case
/// applies to any input.
pub open spec fn token_decision(
    audience: Seq<u8>,
    bytes: Seq<u8>,
    now: u64,
    r: Result<AuthToken, Error>,
) -> bool {
    match r {
        Ok(t) => {
            &&& spec_parse(bytes) == Some(t@)
            &&& wf_view(t@)
            &&& t@.audience == audience
            &&& fresh(t@.timestamp, now)
            &&& sig_ok(t@.subject, spec_signable(t@.audience, t@.timestamp, t@.scopes), t@.signature)
        },
        Err(e) => match e {
            Error::UnknownVersion => bytes.len() > 0 && bytes[0] > CURRENT_VERSION,
            Error::Decode => (bytes.len() == 0 || bytes[0] <= CURRENT_VERSION) && spec_parse(
                bytes,
            ) is None,
            Error::InvalidAudience(expected, got) => {
                &&& spec_parse(bytes) matches Some(t)
                &&& t.audience != audience
                &&& expected@ == audience
                &&& got@ == t.audience
            },
            Error::TooFarInTheFuture => {
                &&& spec_parse(bytes) matches Some(t)
                &&& t.audience == audience
                &&& too_far_in_the_future(t.timestamp, now)
            },
            Error::Expired => {
                &&& spec_parse(bytes) matches Some(t)
                &&& t.audience == audience
                &&& expired(t.timestamp, now)
            },
            Error::InvalidSignature => {
                &&& spec_parse(bytes) matches Some(t)
                &&& t.audience == audience
                &&& fresh(t.timestamp, now)
                &&& !sig_ok(t.subject, spec_signable(t.audience, t.timestamp, t.scopes), t.signature)
            },
        },
    }
}

/// The replay key of a token: its subject's four words, then the timestamp.
pub open spec fn spec_token_key(t: TokenView) -> CacheKey {
    CacheKey {
        w0: from_be(t.subject.subrange(0, 8)) as u64,
        w1: from_be(t.subject.subrange(8, 16)) as u64,
        w2: from_be(t.subject.subrange(16, 24)) as u64,
        w3: from_be(t.subject.subrange(24, 32)) as u64,
        w4: t.timestamp,
    }
}

/// The whole effect of one token verification: the decision, and the cache
/// first garbage-collected, then extended by the token's key exactly when
/// the token was accepted.
pub open spec fn token_verify_transition(
    pre: Seq<CacheKey>,
    post: Seq<CacheKey>,
    audience: Seq<u8>,
    bytes: Seq<u8>,
    now: u64,
    r: Result<AuthToken, Error>,
) -> bool {
    let g = evicted(pre, gc_threshold(now));
    &&& token_decision(audience, bytes, now, r)
    &&& match r {
        Ok(t) => sorted(post) && post.to_multiset() == g.to_multiset().insert(spec_token_key(t@)),
        Err(_) => post == g,
    }
}

fn token_cache_key(token: &AuthToken) -> (r: CacheKey)
    requires
        token.wf(),
    ensures
        r == spec_token_key(token@),
{
    let subject_bytes = token.subject.as_bytes();
    let s = subject_bytes.as_slice();
    proof {
        assert(pow(256, 8) == 0x1_0000_0000_0000_0000) by {
            reveal_with_fuel(pow, 9);
        }
        crate::wire::lemma_from_be_bound(token@.subject.subrange(0, 8));
        crate::wire::lemma_from_be_bound(token@.subject.subrange(8, 16));
        crate::wire::lemma_from_be_bound(token@.subject.subrange(16, 24));
        crate::wire::lemma_from_be_bound(token@.subject.subrange(24, 32));
    }
    CacheKey {
        w0: read_be8(s, 0),
        w1: read_be8(s, 8),
        w2: read_be8(s, 16),
        w3: read_be8(s, 24),
        w4: token.timestamp.into_inner(),
    }
}

/// Verifies serialized tokens for one audience; owns the token-path replay
/// cache. Accepted token ids are recorded unconditionally: a repeated id is
/// inserted beside its duplicate, not rejected.
#[derive(Debug)]
pub struct AuthVerifier {
    audience: PublicKey,
    seen: ReplayCache,
}

impl AuthVerifier {
    /// The audience this verifier accepts tokens for.
    pub closed spec fn spec_audience(self) -> Seq<u8> {
        self.audience@
    }

    /// The recorded replay keys, in sorted order.
    pub closed spec fn cache(self) -> Seq<CacheKey> {
        self.seen@
    }

    pub open spec fn wf(self) -> bool {
        self.spec_audience().len() == 32 && sorted(self.cache())
    }

    pub fn new(audience: PublicKey) -> (r: AuthVerifier)
        requires
            audience.wf(),
        ensures
            r.wf(),
            r.spec_audience() == audience@,
            r.cache() == Seq::<CacheKey>::empty(),
    {
        AuthVerifier { audience, seen: ReplayCache::new() }
    }

    /// Verify `bytes` at the present instant.
    pub fn verify(&mut self, bytes: &[u8]) -> (r: Result<AuthToken, Error>)
        requires
            old(self).wf(),
        ensures
            final(self).wf(),
            final(self).spec_audience() == old(self).spec_audience(),
            exists|now: u64|
                token_verify_transition(
                    old(self).cache(),
                    final(self).cache(),
                    old(self).spec_audience(),
                    bytes@,
                    now,
                    r,
                ),
    {
        let now = Timestamp::now();
        let ghost pre = self.cache();
        let r = self.verify_at(bytes, now);
        proof {
            assert(token_verify_transition(
                pre,
                self.cache(),
                self.spec_audience(),
                bytes@,
                now@,
                r,
            ));
        }
        r
    }

    /// The verified core of [`AuthVerifier::verify`]: verify against the
    /// given instant. Garbage collection runs first; the token's id is
    /// recorded exactly when the token is accepted.
    pub fn verify_at(&mut self, bytes: &[u8], now: Timestamp) -> (r: Result<AuthToken, Error>)
        requires
            old(self).wf(),
        ensures
            final(self).wf(),
            final(self).spec_audience() == old(self).spec_audience(),
            token_verify_transition(
                old(self).cache(),
                final(self).cache(),
                old(self).spec_audience(),
                bytes@,
                now@,
                r,
            ),
    {
        self.gc(&now);
        match AuthToken::verify_at(&self.audience, bytes, now) {
            Ok(token) => {
                let key = token_cache_key(&token);
                self.seen.insert(key);
                Ok(token)
            },
            Err(e) => Err(e),
        }
    }

    /// Remove all entries older than two time intervals in the past.
    fn gc(&mut self, now: &Timestamp)
        requires
            old(self).wf(),
        ensures
            final(self).wf(),
            final(self).audience == old(self).audience,
            final(self).cache() == evicted(old(self).cache(), gc_threshold(now@)),
    {
        let micros = now.into_inner();
        let bucket = micros / TIME_INTERVAL;
        let threshold = if bucket >= 2 {
            bucket - 2
        } else {
            0
        };
        self.seen.evict_below(threshold);
    }
}

/// Round trip: a token built by the signer, verified within its window and
/// against its own audience, is accepted and returned field for field.
pub proof fn lemma_token_round_trip(
    t: TokenView,
    audience: Seq<u8>,
    bytes: Seq<u8>,
    now: u64,
    r: Result<AuthToken, Error>,
)
    requires
        wf_view(t),
        t.audience == audience,
        fresh(t.timestamp, now),
        sig_ok(t.subject, spec_signable(t.audience, t.timestamp, t.scopes), t.signature),
        bytes == spec_serialize(t),
        token_decision(audience, bytes, now, r),
    ensures
        r matches Ok(accepted) && accepted@ == t,
{
    lemma_parse_serialize(t);
    assert(bytes[0] == t.version);
}

/// Audience binding: a well-formed token carrying a different audience is
/// rejected as `InvalidAudience` — never `InvalidSignature` — whatever its
/// freshness or signature.
pub proof fn lemma_audience_binding(
    t: TokenView,
    verifier_audience: Seq<u8>,
    bytes: Seq<u8>,
    now: u64,
    r: Result<AuthToken, Error>,
)
    requires
        wf_view(t),
        t.audience != verifier_audience,
        bytes == spec_serialize(t),
        token_decision(verifier_audience, bytes, now, r),
    ensures
        r matches Err(e) && e matches Error::InvalidAudience(expected, got) && expected@
            == verifier_audience && got@ == t.audience,
{
    lemma_parse_serialize(t);
    assert(bytes[0] == t.version);
}

} // verus!
