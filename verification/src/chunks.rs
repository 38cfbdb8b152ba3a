//! Deterministic chunking of the 256-bit hashed-key space.
//!
//! Recovery splits the key space into inclusive ranges so that chunks can
//! be recovered in parallel and, after an interruption, resumed: the first
//! key of each deterministic chunk identifies whether that chunk has been
//! folded into the tree already. For that protocol to be sound, the
//! partition must be a pure function of the chunk count, gap-free and
//! order-preserving, which is exactly what this module proves.

use vstd::prelude::*;
use vstd::arithmetic::div_mod::lemma_fundamental_div_mod;
use vstd::arithmetic::div_mod::lemma_fundamental_div_mod_converse;
use vstd::arithmetic::div_mod::lemma_div_is_ordered_by_denominator;
use vstd::arithmetic::div_mod::lemma_mod_division_less_than_divisor;
use vstd::arithmetic::mul::lemma_mul_inequality;
use vstd::arithmetic::mul::lemma_mul_is_commutative;
use crate::u256::U256;
use crate::u256::p64;
use crate::u256::p256;

verus! {

/// An inclusive range `[start, end]` of hashed keys; the unit of parallel
/// recovery work.
#[derive(Clone, Copy, Debug, PartialEq, Eq, Structural)]
pub struct ChunkRange {
    pub start: U256,
    pub end: U256,
}

/// Width of every chunk but possibly the last: the key-space size
/// `2^256`, divided by the chunk count and rounded up.
pub open spec fn stride_spec(n: int) -> int {
    (p256() - 1) / n + 1
}

/// Where chunk `i` of `n` begins.
pub open spec fn chunk_start_spec(n: int, i: int) -> int {
    stride_spec(n) * i
}

/// Where chunk `i` of `n` ends: one short of the next start, clamped to
/// the top of the key space.
pub open spec fn chunk_end_spec(n: int, i: int) -> int {
    if chunk_start_spec(n, i) + stride_spec(n) <= p256() {
        chunk_start_spec(n, i) + stride_spec(n) - 1
    } else {
        p256() - 1
    }
}

/// `c` is chunk `i` of an `n`-way partition.
pub open spec fn chunk_matches(c: ChunkRange, n: int, i: int) -> bool {
    c.start.as_int() == chunk_start_spec(n, i) && c.end.as_int() == chunk_end_spec(n, i)
}

/// `r` is the full `n`-way partition of the key space.
pub open spec fn is_chunk_ranges(r: Seq<ChunkRange>, n: int) -> bool {
    &&& r.len() == n
    &&& forall|i: int| 0 <= i < n ==> #[trigger] chunk_matches(r[i], n, i)
}

/// Bounds on the stride that the partition proofs lean on: the chunks
/// cover the key space (`stride * n` reaches `2^256`) and every start but
/// the very first leaves room below the top of the key space.
pub proof fn lemma_stride_facts(n: int)
    requires
        1 <= n < p64(),
    ensures
        1 <= stride_spec(n),
        n >= 2 ==> stride_spec(n) < p256(),
        stride_spec(n) * n >= p256(),
        stride_spec(n) * (n - 1) <= p256() - 2,
{
    let x = p256() - 1;
    let q = x / n;
    let r = x % n;
    lemma_fundamental_div_mod(x, n);
    lemma_mod_division_less_than_divisor(x, n);
    lemma_div_is_ordered_by_denominator(x, n, p64());
    lemma_fundamental_div_mod_converse(x, p64(), crate::u256::p192() - 1, p64() - 1);
    assert(q >= crate::u256::p192() - 1);
    assert((q + 1) * n == q * n + n) by (nonlinear_arith);
    assert((q + 1) * (n - 1) == q * n + n - q - 1) by (nonlinear_arith);
    assert(q * n == n * q) by {
        lemma_mul_is_commutative(q, n);
    };
    assert(stride_spec(n) * n >= p256());
    assert(stride_spec(n) * (n - 1) <= p256() - 2);
    if n >= 2 {
        assert(2 * q <= n * q) by {
            lemma_mul_inequality(2, n, q);
        };
    }
}

/// Splits the key space into `count` contiguous chunks.
///
/// The partition is a pure function of `count`: the ranges are fully
/// determined by the specification functions, so a recovery resumed after
/// a restart with the same `count` sees the identical chunk list.
pub fn hashed_key_ranges(count: u64) -> (r: Vec<ChunkRange>)
    requires
        count >= 1,
    ensures
        is_chunk_ranges(r@, count as int),
{
    let ghost n: int = count as int;
    if count == 1 {
        let mut out: Vec<ChunkRange> = Vec::new();
        out.push(ChunkRange { start: U256::zero(), end: U256::max_value() });
        proof {
            lemma_fundamental_div_mod_converse(p256() - 1, 1, p256() - 1, 0);
            assert(chunk_matches(out@[0], 1, 0));
        }
        return out;
    }
    let floor_q = U256::div_max_by(count);
    let one = U256::from_u64(1);
    let (stride, carry) = U256::add_with_carry(&floor_q, &one);
    proof {
        lemma_stride_facts(n);
        stride.lemma_bounds();
        assert(!carry);
        assert(stride.as_int() == stride_spec(n));
    }
    let mut out: Vec<ChunkRange> = Vec::new();
    let mut i: u64 = 0;
    while i < count
        invariant
            2 <= count,
            i <= count,
            n == count as int,
            stride.as_int() == stride_spec(n),
            floor_q.as_int() == stride_spec(n) - 1,
            out@.len() == i,
            forall|j: int| 0 <= j < i ==> #[trigger] chunk_matches(out@[j], n, j),
        decreases count - i,
    {
        let (start, mc) = U256::mul_u64(&stride, i);
        proof {
            lemma_stride_facts(n);
            lemma_mul_inequality(i as int, n - 1, stride.as_int());
            lemma_mul_is_commutative(i as int, stride.as_int());
            lemma_mul_is_commutative(n - 1, stride.as_int());
            start.lemma_bounds();
            assert(mc == 0) by {
                if mc >= 1 {
                    lemma_mul_inequality(1, mc as int, p256());
                }
            };
            assert(start.as_int() == chunk_start_spec(n, i as int));
        }
        let (end_sum, ac) = U256::add_with_carry(&start, &floor_q);
        let end = if ac {
            U256::max_value()
        } else {
            end_sum
        };
        proof {
            end_sum.lemma_bounds();
            assert(chunk_matches(ChunkRange { start, end }, n, i as int));
        }
        out.push(ChunkRange { start, end });
        i = i + 1;
    }
    out
}

/// Law: the partition tiles the key space. The first chunk starts at `0`,
/// the last ends at `2^256 - 1`, every chunk is non-empty, and each chunk
/// begins exactly one key after its predecessor ends — no gaps, no
/// overlap.
pub proof fn lemma_chunk_partition(r: Seq<ChunkRange>, n: int)
    requires
        1 <= n < p64(),
        is_chunk_ranges(r, n),
    ensures
        r.len() == n,
        r[0].start.as_int() == 0,
        r[n - 1].end.as_int() == p256() - 1,
        forall|i: int| 0 <= i < n ==> #[trigger] r[i].start.as_int() <= r[i].end.as_int(),
        forall|i: int| 0 <= i < n - 1 ==> r[i + 1].start.as_int() == (#[trigger]
        r[i].end.as_int()) + 1,
{
    lemma_stride_facts(n);
    let s = stride_spec(n);
    assert(chunk_matches(r[0], n, 0));
    assert(chunk_matches(r[n - 1], n, n - 1));
    assert(s * (n - 1) + s == s * n) by (nonlinear_arith);
    assert(r[n - 1].end.as_int() == p256() - 1);
    assert forall|i: int| 0 <= i < n implies #[trigger] r[i].start.as_int()
        <= r[i].end.as_int() by {
        assert(chunk_matches(r[i], n, i));
        lemma_chunk_start_in_range(n, i);
    }
    assert forall|i: int| 0 <= i < n - 1 implies r[i + 1].start.as_int() == (#[trigger]
    r[i].end.as_int()) + 1 by {
        assert(chunk_matches(r[i], n, i));
        assert(chunk_matches(r[i + 1], n, i + 1));
        assert(s * (i + 1) == s * i + s) by (nonlinear_arith);
        lemma_chunk_start_in_range(n, i + 1);
    }
}

/// Every chunk start lies inside the key space, with room for at least
/// one key in the chunk.
proof fn lemma_chunk_start_in_range(n: int, i: int)
    requires
        1 <= n < p64(),
        0 <= i < n,
    ensures
        0 <= chunk_start_spec(n, i) <= p256() - 2,
        i >= 1 ==> chunk_start_spec(n, i) >= 1,
{
    lemma_stride_facts(n);
    let s = stride_spec(n);
    lemma_mul_inequality(i, n - 1, s);
    lemma_mul_is_commutative(i, s);
    lemma_mul_is_commutative(n - 1, s);
    if i == 0 {
        assert(s * 0 == 0);
    } else {
        lemma_mul_inequality(1, i, s);
        lemma_mul_is_commutative(1, s);
        assert(s * i >= s * 1);
        assert(s * 1 == s);
        vstd::arithmetic::mul::lemma_mul_nonnegative(s, i);
    }
}

/// Law: chunks do not overlap. An earlier chunk ends strictly below
/// where a later chunk begins, so no hashed key belongs to two chunks.
pub proof fn lemma_chunks_disjoint(r: Seq<ChunkRange>, n: int, i: int, j: int)
    requires
        1 <= n < p64(),
        is_chunk_ranges(r, n),
        0 <= i < j < n,
    ensures
        r[i].end.as_int() < r[j].start.as_int(),
{
    lemma_stride_facts(n);
    let s = stride_spec(n);
    assert(chunk_matches(r[i], n, i));
    assert(chunk_matches(r[j], n, j));
    lemma_chunk_start_in_range(n, i + 1);
    assert(s * (i + 1) == s * i + s) by (nonlinear_arith);
    lemma_mul_inequality(i + 1, j, s);
    lemma_mul_is_commutative(i + 1, s);
    lemma_mul_is_commutative(j, s);
}

/// Law: the chunk scheme is deterministic. Any two range lists that both
/// satisfy the partition specification for the same chunk count are
/// identical, limb for limb.
pub proof fn lemma_chunk_scheme_deterministic(a: Seq<ChunkRange>, b: Seq<ChunkRange>, n: int)
    requires
        1 <= n,
        is_chunk_ranges(a, n),
        is_chunk_ranges(b, n),
    ensures
        a == b,
{
    assert forall|i: int| 0 <= i < n implies a[i] == b[i] by {
        assert(chunk_matches(a[i], n, i));
        assert(chunk_matches(b[i], n, i));
        U256::lemma_value_injective(a[i].start, b[i].start);
        U256::lemma_value_injective(a[i].end, b[i].end);
    }
    assert(a =~= b);
}

} // verus!
