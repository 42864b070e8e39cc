//! Byte-level building blocks of the wire formats: fixed-width big-endian
//! integers and variable-length integers with a canonical (minimal)
//! encoding, so that decoding followed by re-encoding reproduces the input
//! bytes exactly.

use vstd::arithmetic::div_mod::{lemma_div_multiples_vanish_fancy, lemma_fundamental_div_mod};
use vstd::arithmetic::power::{lemma_pow_adds, lemma_pow_positive, pow};
use vstd::prelude::*;

verus! {

/// `x` written in `n` base-256 digits, most significant first. Digits above
/// the `n`-th are cut off.
pub open spec fn be_bytes_n(x: nat, n: nat) -> Seq<u8>
    decreases n,
{
    if n == 0 {
        Seq::empty()
    } else {
        be_bytes_n(x / 256, (n - 1) as nat).push((x % 256) as u8)
    }
}

/// The 8-byte big-endian encoding of a 64-bit integer.
pub open spec fn be8(x: u64) -> Seq<u8> {
    be_bytes_n(x as nat, 8)
}

/// The integer read from big-endian digits.
pub open spec fn from_be(s: Seq<u8>) -> nat
    decreases s.len(),
{
    if s.len() == 0 {
        0
    } else {
        (from_be(s.drop_last()) * 256 + s.last()) as nat
    }
}

pub proof fn lemma_be_bytes_n_len(x: nat, n: nat)
    ensures
        be_bytes_n(x, n).len() == n,
    decreases n,
{
    if n > 0 {
        lemma_be_bytes_n_len(x / 256, (n - 1) as nat);
    }
}

/// Reading back the digits of `x` recovers `x`, provided `x` fits in `n`
/// digits.
pub proof fn lemma_from_be_be_bytes_n(x: nat, n: nat)
    requires
        x < pow(256, n),
    ensures
        from_be(be_bytes_n(x, n)) == x,
    decreases n,
{
    if n == 0 {
        assert(pow(256, 0) == 1) by {
            vstd::arithmetic::power::lemma_pow0(256);
        }
    } else {
        lemma_be_bytes_n_len(x / 256, (n - 1) as nat);
        assert(x / 256 < pow(256, (n - 1) as nat)) by {
            lemma_pow_positive(256, (n - 1) as nat);
            assert(pow(256, n) == 256 * pow(256, (n - 1) as nat)) by {
                lemma_pow_adds(256, 1, (n - 1) as nat);
                vstd::arithmetic::power::lemma_pow1(256);
            }
            assert(x < 256 * pow(256, (n - 1) as nat));
            vstd::arithmetic::div_mod::lemma_multiply_divide_lt(
                x as int,
                256,
                pow(256, (n - 1) as nat),
            );
        }
        lemma_from_be_be_bytes_n(x / 256, (n - 1) as nat);
        let s = be_bytes_n(x, n);
        assert(s.drop_last() == be_bytes_n(x / 256, (n - 1) as nat));
        lemma_fundamental_div_mod(x as int, 256);
    }
}

/// Every integer read from `n` digits is below `256^n`.
pub proof fn lemma_from_be_bound(s: Seq<u8>)
    ensures
        from_be(s) < pow(256, s.len()),
    decreases s.len(),
{
    if s.len() == 0 {
        vstd::arithmetic::power::lemma_pow0(256);
    } else {
        let init = s.drop_last();
        lemma_from_be_bound(init);
        assert(pow(256, s.len()) == pow(256, init.len()) * 256) by {
            lemma_pow_adds(256, init.len(), 1);
            vstd::arithmetic::power::lemma_pow1(256);
        }
        assert(from_be(init) * 256 + s.last() < pow(256, init.len()) * 256) by {
            assert(from_be(init) + 1 <= pow(256, init.len()));
            assert((from_be(init) + 1) * 256 <= pow(256, init.len()) * 256) by {
                vstd::arithmetic::mul::lemma_mul_inequality(
                    (from_be(init) + 1) as int,
                    pow(256, init.len()),
                    256,
                );
            }
            assert(from_be(init) * 256 + 256 == (from_be(init) + 1) * 256) by {
                vstd::arithmetic::mul::lemma_mul_is_distributive_add_other_way(
                    256,
                    from_be(init) as int,
                    1,
                );
            }
        }
    }
}

/// Appends the 8-byte big-endian encoding of `x`.
pub fn push_be8(out: &mut Vec<u8>, x: u64)
    ensures
        final(out)@ == old(out)@ + be8(x),
{
    let ghost orig = out@;
    let mut digits: Vec<u8> = Vec::new();
    let mut rest: u64 = x;
    let mut k: usize = 0;
    while k < 8
        invariant
            k <= 8,
            digits@.len() == k,
            be8(x) == be_bytes_n(rest as nat, (8 - k) as nat) + digits@.reverse(),
        decreases 8 - k,
    {
        let ghost pre_digits = digits@;
        let d: u8 = (rest % 256) as u8;
        digits.push(d);
        rest = rest / 256;
        proof {
            assert(digits@.reverse() =~= seq![d] + pre_digits.reverse());
            let m = (8 - k) as nat;
            assert(be_bytes_n(rest as nat, (m - 1) as nat).push(d) + pre_digits.reverse()
                =~= be_bytes_n(rest as nat, (m - 1) as nat) + (seq![d] + pre_digits.reverse()));
        }
        k = k + 1;
    }
    let mut i: usize = 0;
    while i < 8
        invariant
            i <= 8,
            digits@.len() == 8,
            be8(x) == digits@.reverse(),
            out@ == orig + digits@.reverse().take(i as int),
        decreases 8 - i,
    {
        out.push(digits[8 - 1 - i]);
        proof {
            assert(digits@.reverse().take(i + 1) =~= digits@.reverse().take(i as int).push(
                digits@[7 - i as int],
            ));
            assert(out@ =~= orig + digits@.reverse().take(i + 1));
        }
        i = i + 1;
    }
    proof {
        assert(digits@.reverse().take(8) =~= digits@.reverse());
    }
}

/// Reads the 8-byte big-endian integer at `offset`.
pub fn read_be8(v: &[u8], offset: usize) -> (r: u64)
    requires
        offset + 8 <= v@.len(),
    ensures
        r as nat == from_be(v@.subrange(offset as int, offset + 8)),
{
    let n = v.len();
    let mut acc: u64 = 0;
    let mut i: usize = 0;
    proof {
        vstd::arithmetic::power::lemma_pow0(256);
        assert(v@.subrange(offset as int, offset as int) =~= Seq::<u8>::empty());
    }
    while i < 8
        invariant
            i <= 8,
            offset + 8 <= n == v@.len(),
            acc as nat == from_be(v@.subrange(offset as int, offset + i)),
            acc < pow(256, i as nat),
        decreases 8 - i,
    {
        proof {
            let taken = v@.subrange(offset as int, offset + i);
            lemma_pow_adds(256, i as nat, 1);
            vstd::arithmetic::power::lemma_pow1(256);
            assert(pow(256, (i + 1) as nat) == pow(256, i as nat) * 256);
            assert(acc * 256 + 255 < pow(256, i as nat) * 256) by {
                assert(acc + 1 <= pow(256, i as nat));
                vstd::arithmetic::mul::lemma_mul_inequality(
                    acc + 1,
                    pow(256, i as nat),
                    256,
                );
                vstd::arithmetic::mul::lemma_mul_is_distributive_add_other_way(
                    256,
                    acc as int,
                    1,
                );
            }
            assert(pow(256, 8) == 0x1_0000_0000_0000_0000) by {
                reveal_with_fuel(pow, 9);
            }
            vstd::arithmetic::power::lemma_pow_increases(256, (i + 1) as nat, 8);
        }
        let b = v[offset + i];
        let ghost pre = v@.subrange(offset as int, offset + i);
        acc = acc * 256 + (b as u64);
        proof {
            let cur = v@.subrange(offset as int, offset + i + 1);
            assert(cur.drop_last() =~= pre);
            assert(cur.last() == b);
        }
        i = i + 1;
    }
    acc
}

/// A variable-length integer: seven value bits per byte, least significant
/// group first, the high bit marking continuation. The encoding is minimal:
/// the final byte is never zero unless it is the only byte.
pub open spec fn enc_varint(x: nat) -> Seq<u8>
    decreases x,
{
    if x < 128 {
        seq![x as u8]
    } else {
        seq![(128 + x % 128) as u8] + enc_varint(x / 128)
    }
}

/// Decodes a variable-length integer from the front of `s`, returning the
/// value and the number of bytes consumed; `None` on truncation or a
/// non-minimal encoding.
pub open spec fn dec_varint(s: Seq<u8>) -> Option<(nat, int)>
    decreases s.len(),
{
    if s.len() == 0 {
        None
    } else if s[0] < 128 {
        Some((s[0] as nat, 1))
    } else {
        match dec_varint(s.drop_first()) {
            None => None,
            Some((v, used)) => if v == 0 {
                None
            } else {
                Some((((s[0] - 128) + 128 * v) as nat, used + 1))
            },
        }
    }
}

pub proof fn lemma_enc_varint_len(x: nat)
    ensures
        1 <= enc_varint(x).len(),
    decreases x,
{
    if x >= 128 {
        lemma_enc_varint_len(x / 128);
    }
}

/// Round trip: decoding an encoding yields the value and consumes exactly
/// the encoded bytes, for any trailing bytes.
pub proof fn lemma_dec_enc_varint(x: nat, rest: Seq<u8>)
    ensures
        dec_varint(enc_varint(x) + rest) == Some::<(nat, int)>((x, enc_varint(x).len() as int)),
    decreases x,
{
    let s = enc_varint(x) + rest;
    if x < 128 {
        assert(s[0] == x as u8);
    } else {
        lemma_dec_enc_varint(x / 128, rest);
        assert(s.drop_first() =~= enc_varint(x / 128) + rest);
        assert(x / 128 > 0) by {
            assert(x >= 128);
        }
        assert(s[0] == (128 + x % 128) as u8);
        lemma_fundamental_div_mod(x as int, 128);
    }
}

/// Canonical form: the bytes a successful decode consumed are exactly the
/// encoding of the decoded value.
pub proof fn lemma_enc_dec_varint(s: Seq<u8>)
    requires
        dec_varint(s) is Some,
    ensures
        ({
            let (v, used) = dec_varint(s)->Some_0;
            &&& 1 <= used <= s.len()
            &&& enc_varint(v) == s.subrange(0, used)
        }),
    decreases s.len(),
{
    let (v, used) = dec_varint(s)->Some_0;
    if s[0] < 128 {
        assert(enc_varint(v) =~= s.subrange(0, 1));
    } else {
        let tail = s.drop_first();
        lemma_enc_dec_varint(tail);
        let (v2, used2) = dec_varint(tail)->Some_0;
        assert(v == (s[0] - 128) + 128 * v2);
        assert(v / 128 == v2 && v % 128 == (s[0] - 128)) by {
            lemma_fundamental_div_mod(v as int, 128);
            lemma_div_multiples_vanish_fancy(v2 as int, (s[0] - 128) as int, 128);
            assert((v2 * 128 + (s[0] - 128)) % 128 == (s[0] - 128) as int % 128) by {
                vstd::arithmetic::div_mod::lemma_mod_multiples_vanish(
                    v2 as int,
                    (s[0] - 128) as int,
                    128,
                );
            }
            vstd::arithmetic::div_mod::lemma_small_mod((s[0] - 128) as nat, 128);
        }
        assert(v >= 128) by {
            assert(v2 >= 1);
            assert(128 * v2 >= 128) by {
                vstd::arithmetic::mul::lemma_mul_inequality(1, v2 as int, 128);
            }
        }
        assert(enc_varint(v) == seq![s[0]] + enc_varint(v2));
        assert(tail.subrange(0, used2) =~= s.subrange(1, used2 + 1));
        assert(enc_varint(v) =~= s.subrange(0, used));
    }
}

/// A decoded varint consumes at least one byte and no more than the input.
pub proof fn lemma_dec_varint_used(s: Seq<u8>)
    requires
        dec_varint(s) is Some,
    ensures
        1 <= dec_varint(s)->Some_0.1 <= s.len(),
    decreases s.len(),
{
    if s.len() > 0 && s[0] >= 128 && dec_varint(s.drop_first()) is Some {
        lemma_dec_varint_used(s.drop_first());
    }
}

/// Appends the canonical variable-length encoding of `x`.
pub fn push_varint(out: &mut Vec<u8>, x: u64)
    ensures
        final(out)@ == old(out)@ + enc_varint(x as nat),
{
    let ghost orig = out@;
    let mut rest: u64 = x;
    while rest >= 128
        invariant
            orig + enc_varint(x as nat) == out@ + enc_varint(rest as nat),
        decreases rest,
    {
        let ghost pre = out@;
        out.push((128 + (rest % 128)) as u8);
        proof {
            assert(pre + (seq![(128 + (rest as nat) % 128) as u8] + enc_varint(
                (rest as nat) / 128,
            )) =~= out@ + enc_varint((rest as nat) / 128));
        }
        rest = rest / 128;
    }
    out.push(rest as u8);
    proof {
        assert(out@ =~= orig + enc_varint(x as nat));
    }
}

/// Decodes the variable-length integer at `pos`, if it is well formed,
/// minimal, and fits in 64 bits; returns the value and the following
/// position.
pub fn read_varint(v: &[u8], pos: usize) -> (r: Option<(u64, usize)>)
    requires
        pos <= v@.len(),
    ensures
        ({
            let tail = v@.subrange(pos as int, v@.len() as int);
            match r {
                Some((x, next)) => {
                    &&& dec_varint(tail) matches Some((val, used))
                    &&& x as nat == val
                    &&& pos + used == next
                    &&& next <= v@.len()
                },
                None => dec_varint(tail) matches Some((val, _)) ==> val > u64::MAX,
            }
        }),
    decreases v@.len() - pos,
{
    let ghost tail = v@.subrange(pos as int, v@.len() as int);
    if pos == v.len() {
        return None;
    }
    let b = v[pos];
    if b < 128 {
        assert(tail[0] == b);
        return Some((b as u64, pos + 1));
    }
    let rec = read_varint(v, pos + 1);
    proof {
        assert(tail.drop_first() =~= v@.subrange(pos + 1, v@.len() as int));
        if dec_varint(tail.drop_first()) is Some {
            lemma_dec_varint_used(tail.drop_first());
        }
    }
    match rec {
        None => {
            proof {
                if dec_varint(tail) is Some {
                    let (val, _used) = dec_varint(tail)->Some_0;
                    let (v2, _) = dec_varint(tail.drop_first())->Some_0;
                    assert(val == (b - 128) + 128 * v2);
                    assert(v2 <= 128 * v2) by {
                        vstd::arithmetic::mul::lemma_mul_inequality(1, 128, v2 as int);
                        vstd::arithmetic::mul::lemma_mul_is_commutative(128, v2 as int);
                    }
                }
            }
            None
        },
        Some((hi, next)) => {
            if hi == 0 {
                return None;
            }
            let low: u64 = (b - 128) as u64;
            if hi <= (u64::MAX - low) / 128 {
                let val = low + 128 * hi;
                proof {
                    let (v2, used2) = dec_varint(tail.drop_first())->Some_0;
                    assert(v2 == hi as nat);
                    assert(dec_varint(tail) == Some::<(nat, int)>((
                        ((b - 128) + 128 * v2) as nat,
                        used2 + 1,
                    )));
                }
                Some((val, next))
            } else {
                proof {
                    let (v2, _) = dec_varint(tail.drop_first())->Some_0;
                    assert(v2 == hi as nat);
                    assert(hi > (u64::MAX - low) / 128);
                    assert(128 * (hi as int) + low > u64::MAX) by {
                        let q = ((u64::MAX - low) / 128) as int;
                        lemma_fundamental_div_mod((u64::MAX - low) as int, 128);
                        assert(hi as int >= q + 1);
                        vstd::arithmetic::mul::lemma_mul_inequality(
                            q + 1,
                            hi as int,
                            128,
                        );
                        vstd::arithmetic::mul::lemma_mul_is_commutative(q + 1, 128);
                        vstd::arithmetic::mul::lemma_mul_is_commutative(hi as int, 128);
                        vstd::arithmetic::mul::lemma_mul_is_distributive_add(128, q, 1);
                    }
                }
                None
            }
        },
    }
}

/// Appends `v[from..to]`.
pub fn push_range(out: &mut Vec<u8>, v: &[u8], from: usize, to: usize)
    requires
        from <= to <= v@.len(),
    ensures
        final(out)@ == old(out)@ + v@.subrange(from as int, to as int),
{
    let ghost orig = out@;
    let mut i: usize = from;
    while i < to
        invariant
            from <= i <= to <= v@.len(),
            out@ == orig + v@.subrange(from as int, i as int),
        decreases to - i,
    {
        out.push(v[i]);
        proof {
            assert(v@.subrange(from as int, i + 1) =~= v@.subrange(from as int, i as int).push(
                v@[i as int],
            ));
            assert(out@ =~= orig + v@.subrange(from as int, i + 1));
        }
        i = i + 1;
    }
}

/// Copies `v[from..to]` into a fresh vector.
pub fn copy_range(v: &[u8], from: usize, to: usize) -> (r: Vec<u8>)
    requires
        from <= to <= v@.len(),
    ensures
        r@ == v@.subrange(from as int, to as int),
{
    let mut out: Vec<u8> = Vec::new();
    push_range(&mut out, v, from, to);
    out
}

} // verus!
