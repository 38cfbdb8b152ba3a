//! Fixed-width 256-bit unsigned words.
//!
//! Hashed keys addressing the tree's key space and root-hash digests are
//! 256-bit values. This module holds them as four 64-bit limbs, least
//! significant first, and provides exactly the arithmetic the chunking
//! scheme needs: addition with carry, multiplication by a 64-bit factor,
//! and division of the largest word by a 64-bit divisor.

use vstd::prelude::*;
use vstd::arithmetic::div_mod::lemma_fundamental_div_mod;
use vstd::arithmetic::div_mod::lemma_fundamental_div_mod_converse;
use vstd::arithmetic::mul::lemma_mul_inequality;
use vstd::arithmetic::mul::lemma_mul_is_distributive_add_other_way;
use vstd::arithmetic::mul::lemma_mul_is_distributive_sub_other_way;
use vstd::arithmetic::mul::lemma_mul_is_commutative;

verus! {

/// 2^64, the weight of the second limb.
pub open spec fn p64() -> int {
    0x1_0000_0000_0000_0000int
}

/// 2^128, the weight of the third limb.
pub open spec fn p128() -> int {
    0x1_0000_0000_0000_0000_0000_0000_0000_0000int
}

/// 2^192, the weight of the fourth limb.
pub open spec fn p192() -> int {
    0x1_0000_0000_0000_0000_0000_0000_0000_0000_0000_0000_0000_0000int
}

/// 2^256, one past the largest representable word.
pub open spec fn p256() -> int {
    0x1_0000_0000_0000_0000_0000_0000_0000_0000_0000_0000_0000_0000_0000_0000_0000_0000int
}

/// A 256-bit unsigned integer, stored as four 64-bit limbs with `w0` least
/// significant. Its order as a number is the order of the big-endian byte
/// representation used by the source store.
#[derive(Clone, Copy, Debug, PartialEq, Eq, Structural)]
pub struct U256 {
    pub w0: u64,
    pub w1: u64,
    pub w2: u64,
    pub w3: u64,
}

/// Rearranges a double product: `(a * b) * c == (a * c) * b`.
proof fn lemma_mul_rearrange(a: int, b: int, c: int)
    by (nonlinear_arith)
    ensures
        (a * b) * c == (a * c) * b,
{
}

impl U256 {
    /// The mathematical value of the word.
    pub open spec fn as_int(self) -> int {
        self.w0 + self.w1 * p64() + self.w2 * p128() + self.w3 * p192()
    }

    /// Every word lies in `[0, 2^256)`.
    pub proof fn lemma_bounds(self)
        ensures
            0 <= self.as_int() < p256(),
    {
    }

    /// Two words with the same value have the same limbs.
    pub proof fn lemma_value_injective(a: U256, b: U256)
        requires
            a.as_int() == b.as_int(),
        ensures
            a == b,
    {
        Self::lemma_limb_decomposition(a);
        Self::lemma_limb_decomposition(b);
        let ha = a.w1 + a.w2 * p64() + a.w3 * p128();
        let hb = b.w1 + b.w2 * p64() + b.w3 * p128();
        assert(ha == hb);
        lemma_fundamental_div_mod_converse(ha, p64(), a.w2 + a.w3 * p64(), a.w1 as int);
        lemma_fundamental_div_mod_converse(hb, p64(), b.w2 + b.w3 * p64(), b.w1 as int);
        let hha = a.w2 + a.w3 * p64();
        let hhb = b.w2 + b.w3 * p64();
        assert(hha == hhb);
        lemma_fundamental_div_mod_converse(hha, p64(), a.w3 as int, a.w2 as int);
        lemma_fundamental_div_mod_converse(hhb, p64(), b.w3 as int, b.w2 as int);
    }

    /// The least limb is the value modulo 2^64; the rest is the quotient.
    proof fn lemma_limb_decomposition(x: U256)
        ensures
            x.as_int() % p64() == x.w0,
            x.as_int() / p64() == x.w1 + x.w2 * p64() + x.w3 * p128(),
    {
        let high = x.w1 + x.w2 * p64() + x.w3 * p128();
        assert(x.as_int() == high * p64() + x.w0);
        lemma_fundamental_div_mod_converse(x.as_int(), p64(), high, x.w0 as int);
    }

    /// The zero word.
    pub fn zero() -> (r: U256)
        ensures
            r.as_int() == 0,
    {
        U256 { w0: 0, w1: 0, w2: 0, w3: 0 }
    }

    /// The largest word, `2^256 - 1`.
    pub fn max_value() -> (r: U256)
        ensures
            r.as_int() == p256() - 1,
    {
        U256 { w0: u64::MAX, w1: u64::MAX, w2: u64::MAX, w3: u64::MAX }
    }

    /// Embeds a 64-bit value.
    pub fn from_u64(v: u64) -> (r: U256)
        ensures
            r.as_int() == v,
    {
        U256 { w0: v, w1: 0, w2: 0, w3: 0 }
    }

    /// Reads a word from its 32-byte big-endian representation.
    pub fn from_be_bytes(b: &[u8]) -> (r: U256)
        requires
            b@.len() == 32,
        ensures
            r.as_int() == be_bytes_spec(b@),
    {
        let w3 = word_from_be(b, 0);
        let w2 = word_from_be(b, 8);
        let w1 = word_from_be(b, 16);
        let w0 = word_from_be(b, 24);
        U256 { w0, w1, w2, w3 }
    }

    /// Adds two words; the flag reports wrap-around past 2^256.
    pub fn add_with_carry(a: &U256, b: &U256) -> (r: (U256, bool))
        ensures
            r.0.as_int() + (if r.1 { p256() } else { 0 }) == a.as_int() + b.as_int(),
    {
        let (r0, c0) = add_step(a.w0, b.w0, 0);
        let (r1, c1) = add_step(a.w1, b.w1, c0);
        let (r2, c2) = add_step(a.w2, b.w2, c1);
        let (r3, c3) = add_step(a.w3, b.w3, c2);
        let sum = U256 { w0: r0, w1: r1, w2: r2, w3: r3 };
        proof {
            assert(sum.as_int() + c3 * p256() == a.as_int() + b.as_int());
        }
        (sum, c3 == 1)
    }

    /// Multiplies a word by a 64-bit factor; the second component is the
    /// overflow limb, so that `result + overflow * 2^256` is the exact
    /// product.
    pub fn mul_u64(a: &U256, m: u64) -> (r: (U256, u64))
        ensures
            r.0.as_int() + r.1 * p256() == a.as_int() * m,
    {
        let (r0, c0) = mul_step(a.w0, m, 0);
        let (r1, c1) = mul_step(a.w1, m, c0);
        let (r2, c2) = mul_step(a.w2, m, c1);
        let (r3, c3) = mul_step(a.w3, m, c2);
        let prod = U256 { w0: r0, w1: r1, w2: r2, w3: r3 };
        proof {
            let mi = m as int;
            assert(a.as_int() * mi == (a.w0 + a.w1 * p64() + a.w2 * p128()) * mi
                + (a.w3 * p192()) * mi) by {
                lemma_mul_is_distributive_add_other_way(
                    mi, a.w0 + a.w1 * p64() + a.w2 * p128(), a.w3 * p192());
            };
            assert((a.w0 + a.w1 * p64() + a.w2 * p128()) * mi
                == (a.w0 + a.w1 * p64()) * mi + (a.w2 * p128()) * mi) by {
                lemma_mul_is_distributive_add_other_way(
                    mi, a.w0 + a.w1 * p64(), a.w2 * p128());
            };
            assert((a.w0 + a.w1 * p64()) * mi == a.w0 * mi + (a.w1 * p64()) * mi) by {
                lemma_mul_is_distributive_add_other_way(mi, a.w0 as int, a.w1 * p64());
            };
            assert((a.w1 * p64()) * mi == (a.w1 * mi) * p64()) by {
                lemma_mul_rearrange(a.w1 as int, p64(), mi);
            };
            assert((a.w2 * p128()) * mi == (a.w2 * mi) * p128()) by {
                lemma_mul_rearrange(a.w2 as int, p128(), mi);
            };
            assert((a.w3 * p192()) * mi == (a.w3 * mi) * p192()) by {
                lemma_mul_rearrange(a.w3 as int, p192(), mi);
            };
            assert(prod.as_int() + c3 * p256() == a.as_int() * mi);
        }
        (prod, c3)
    }

    /// Divides the largest word, `2^256 - 1`, by a nonzero 64-bit divisor,
    /// returning the quotient.
    pub fn div_max_by(n: u64) -> (r: U256)
        requires
            n >= 1,
        ensures
            r.as_int() == (p256() - 1) / (n as int),
    {
        let l: u64 = u64::MAX;
        let (q3, r3) = div_step(0, l, n);
        let (q2, r2) = div_step(r3, l, n);
        let (q1, r1) = div_step(r2, l, n);
        let (q0, r0) = div_step(r1, l, n);
        let q = U256 { w0: q0, w1: q1, w2: q2, w3: q3 };
        proof {
            let ni = n as int;
            assert(q.as_int() * ni == (q0 + q1 * p64() + q2 * p128()) * ni
                + (q3 * p192()) * ni) by {
                lemma_mul_is_distributive_add_other_way(
                    ni, q0 + q1 * p64() + q2 * p128(), q3 * p192());
            };
            assert((q0 + q1 * p64() + q2 * p128()) * ni
                == (q0 + q1 * p64()) * ni + (q2 * p128()) * ni) by {
                lemma_mul_is_distributive_add_other_way(ni, q0 + q1 * p64(), q2 * p128());
            };
            assert((q0 + q1 * p64()) * ni == q0 * ni + (q1 * p64()) * ni) by {
                lemma_mul_is_distributive_add_other_way(ni, q0 as int, q1 * p64());
            };
            assert((q1 * p64()) * ni == (q1 * ni) * p64()) by {
                lemma_mul_rearrange(q1 as int, p64(), ni);
            };
            assert((q2 * p128()) * ni == (q2 * ni) * p128()) by {
                lemma_mul_rearrange(q2 as int, p128(), ni);
            };
            assert((q3 * p192()) * ni == (q3 * ni) * p192()) by {
                lemma_mul_rearrange(q3 as int, p192(), ni);
            };
            assert(q.as_int() * ni + r0 == p256() - 1);
            lemma_fundamental_div_mod_converse(p256() - 1, ni, q.as_int(), r0 as int);
        }
        q
    }
}

/// Splits a 128-bit value into a low and a high 64-bit limb.
fn split_u128(x: u128) -> (r: (u64, u64))
    ensures
        r.0 + r.1 * p64() == x,
{
    let low_wide: u128 = x % 0x1_0000_0000_0000_0000u128;
    let high_wide: u128 = x / 0x1_0000_0000_0000_0000u128;
    proof {
        lemma_fundamental_div_mod(x as int, p64());
        assert(low_wide < 0x1_0000_0000_0000_0000u128);
        assert(high_wide < 0x1_0000_0000_0000_0000u128) by {
            if high_wide >= 0x1_0000_0000_0000_0000u128 {
                lemma_mul_inequality(p64(), high_wide as int, p64());
            }
        };
    }
    (low_wide as u64, high_wide as u64)
}

/// One limb of the addition carry chain: splits `x + y + c` at 2^64.
fn add_step(x: u64, y: u64, c: u64) -> (r: (u64, u64))
    requires
        c <= 1,
    ensures
        r.0 + r.1 * p64() == x + y + c,
        r.1 <= 1,
{
    let (low, high) = split_u128(x as u128 + y as u128 + c as u128);
    proof {
        assert(high <= 1);
    }
    (low, high)
}

/// One limb of the multiplication carry chain: splits `w * m + c` at 2^64.
fn mul_step(w: u64, m: u64, c: u64) -> (r: (u64, u64))
    ensures
        r.0 + r.1 * p64() == w * m + c,
{
    proof {
        lemma_mul_inequality(w as int, p64() - 1, m as int);
        lemma_mul_is_distributive_sub_other_way(m as int, p64(), 1);
        lemma_mul_is_commutative(p64(), m as int);
        assert((p64() - 1) * m <= p64() * 0xffff_ffff_ffff_ffffint - m);
    }
    let (low, high) = split_u128(w as u128 * m as u128 + c as u128);
    (low, high)
}

/// One step of schoolbook long division: divides `rem * 2^64 + limb` by `n`.
fn div_step(rem: u64, limb: u64, n: u64) -> (r: (u64, u64))
    requires
        0 < n,
        rem < n,
    ensures
        r.0 * n + r.1 == rem * p64() + limb,
        r.1 < n,
{
    let cur: u128 = (rem as u128) * 0x1_0000_0000_0000_0000u128 + (limb as u128);
    let q_wide: u128 = cur / (n as u128);
    let r_wide: u128 = cur % (n as u128);
    proof {
        lemma_fundamental_div_mod(cur as int, n as int);
        assert(r_wide < n);
        assert(q_wide < 0x1_0000_0000_0000_0000u128) by {
            assert(cur < n * p64()) by {
                assert(rem * p64() <= (n - 1) * p64()) by {
                    lemma_mul_inequality(rem as int, n - 1, p64());
                };
                assert((n - 1) * p64() == n * p64() - p64()) by {
                    lemma_mul_is_distributive_sub_other_way(p64(), n as int, 1);
                };
            };
            if q_wide >= 0x1_0000_0000_0000_0000u128 {
                lemma_mul_inequality(p64(), q_wide as int, n as int);
                lemma_mul_is_commutative(q_wide as int, n as int);
            }
        };
        lemma_mul_is_commutative(q_wide as int, n as int);
        assert(q_wide * n == cur - r_wide);
    }
    (q_wide as u64, r_wide as u64)
}

/// Big-endian value of eight bytes of `b` starting at `off`.
pub open spec fn be_word_spec(b: Seq<u8>, off: int) -> int {
    ((((((b[off] * 256 + b[off + 1]) * 256 + b[off + 2]) * 256 + b[off + 3]) * 256 + b[off + 4])
        * 256 + b[off + 5]) * 256 + b[off + 6]) * 256 + b[off + 7]
}

/// Big-endian value of a 32-byte representation.
pub open spec fn be_bytes_spec(b: Seq<u8>) -> int {
    be_word_spec(b, 0) * p192() + be_word_spec(b, 8) * p128() + be_word_spec(b, 16) * p64()
        + be_word_spec(b, 24)
}

/// Reads one big-endian 64-bit word out of a byte slice.
fn word_from_be(b: &[u8], off: usize) -> (w: u64)
    requires
        off + 8 <= b@.len(),
    ensures
        w == be_word_spec(b@, off as int),
{
    let mut w: u64 = b[off] as u64;
    w = w * 256 + (b[off + 1] as u64);
    w = w * 256 + (b[off + 2] as u64);
    w = w * 256 + (b[off + 3] as u64);
    w = w * 256 + (b[off + 4] as u64);
    w = w * 256 + (b[off + 5] as u64);
    w = w * 256 + (b[off + 6] as u64);
    w = w * 256 + (b[off + 7] as u64);
    w
}

} // verus!
