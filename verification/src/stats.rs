//! Summary statistics over the collected trial results, in exact fixed-point
//! arithmetic: mean, sample standard deviation and standard error of the mean,
//! each scaled by ten thousand so the reported four decimal places are exact
//! integer values. The sample variance is the exact rational
//! `(n * sum of squares - square of sum) / (n * (n - 1))`, which is the usual
//! sample variance about the exact mean; the square roots are rounded to the
//! nearest integer in the scaled domain.

use vstd::arithmetic::div_mod::lemma_div_is_ordered;
use vstd::arithmetic::div_mod::lemma_div_multiples_vanish;
use vstd::prelude::*;

use crate::errors::SimError;

verus! {

/// The summary over one collection of trial results, each figure scaled by
/// ten thousand (four fixed decimal places).
#[derive(Clone, Copy, Debug, PartialEq, Eq, Structural)]
pub struct AggregateStatistics {
    pub mean_e4: u64,
    pub std_dev_e4: u64,
    pub std_err_e4: u64,
}

/// The sum of a sequence of trial results.
pub open spec fn seq_sum(s: Seq<u16>) -> int
    decreases s.len(),
{
    if s.len() == 0 {
        0
    } else {
        seq_sum(s.drop_last()) + s.last()
    }
}

/// The sum of the squares of a sequence of trial results.
pub open spec fn seq_sum_sq(s: Seq<u16>) -> int
    decreases s.len(),
{
    if s.len() == 0 {
        0
    } else {
        seq_sum_sq(s.drop_last()) + s.last() * s.last()
    }
}

/// `a / b` rounded to the nearest integer, halves up.
pub open spec fn div_round(a: int, b: int) -> int
    recommends
        b > 0,
{
    (2 * a + b) / (2 * b)
}

/// `r` is the integer nearest to the square root of `x`: `x` lies within the
/// half-open band `(r^2 - r, r^2 + r]` around `r^2` (with zero for zero).
/// Exactly one `r` satisfies this for each non-negative `x`, since integer
/// `x` never falls on a half boundary.
pub open spec fn is_sqrt_round(r: int, x: int) -> bool {
    &&& 0 <= r
    &&& (r * r - r < x || (r == 0 && x == 0))
    &&& x <= r * r + r
}

/// What the aggregator promises of its figures: the mean is the scaled sum
/// over the count rounded to nearest; the standard deviation is the rounded
/// square root of the scaled exact sample variance
/// `(n * sum_sq - sum^2) / (n * (n - 1))`; the standard error is the same
/// with the variance further divided by `n`. A single result has no spread,
/// so both spread figures are zero.
pub open spec fn stats_ok(rs: Seq<u16>, st: AggregateStatistics) -> bool {
    let n = rs.len() as int;
    let sum = seq_sum(rs);
    let num = n * seq_sum_sq(rs) - sum * sum;
    &&& st.mean_e4 == div_round(10000 * sum, n)
    &&& (n == 1 ==> st.std_dev_e4 == 0 && st.std_err_e4 == 0)
    &&& (n >= 2 ==> is_sqrt_round(st.std_dev_e4 as int, (100000000 * num) / (n * (n - 1)))
        && is_sqrt_round(st.std_err_e4 as int, (100000000 * num) / (n * n * (n - 1))))
}

/// Extending a prefix by one element adds that element to the sum and its
/// square to the sum of squares.
proof fn lemma_sums_take_succ(s: Seq<u16>, i: int)
    requires
        0 <= i < s.len(),
    ensures
        seq_sum(s.take(i + 1)) == seq_sum(s.take(i)) + s[i],
        seq_sum_sq(s.take(i + 1)) == seq_sum_sq(s.take(i)) + s[i] * s[i],
{
    assert(s.take(i + 1).drop_last() =~= s.take(i));
}

/// Both sums are non-negative and grow at most by the largest result (or its
/// square) per element.
proof fn lemma_sums_bounded(s: Seq<u16>)
    ensures
        0 <= seq_sum(s) <= s.len() * 65535,
        0 <= seq_sum_sq(s) <= s.len() * 4294836225,
    decreases s.len(),
{
    if s.len() > 0 {
        lemma_sums_bounded(s.drop_last());
        let x = s.last() as int;
        assert(x * x <= 4294836225) by (nonlinear_arith)
            requires
                0 <= x <= 65535,
        ;
    }
}

/// Twice a sum times any value is at most the sum of squares plus one square
/// of that value per element: summing `2 * a * y <= a * a + y * y` over the
/// elements.
proof fn lemma_sum_cross(s: Seq<u16>, y: int)
    ensures
        2 * seq_sum(s) * y <= seq_sum_sq(s) + s.len() * y * y,
    decreases s.len(),
{
    if s.len() == 0 {
        assert(2 * seq_sum(s) * y == 0 && s.len() * y * y == 0) by (nonlinear_arith)
            requires
                seq_sum(s) == 0,
                s.len() == 0,
        ;
    } else {
        let s0 = s.drop_last();
        let x = s.last() as int;
        lemma_sum_cross(s0, y);
        assert(2 * seq_sum(s) * y <= seq_sum_sq(s) + s.len() * y * y) by (nonlinear_arith)
            requires
                seq_sum(s) == seq_sum(s0) + x,
                seq_sum_sq(s) == seq_sum_sq(s0) + x * x,
                s.len() == s0.len() + 1,
                2 * seq_sum(s0) * y <= seq_sum_sq(s0) + s0.len() * y * y,
        ;
    }
}

/// The square of a sum is at most the count times the sum of squares, so the
/// sample-variance numerator `n * sum_sq - sum^2` is never negative.
proof fn lemma_square_sum_le(s: Seq<u16>)
    ensures
        seq_sum(s) * seq_sum(s) <= s.len() * seq_sum_sq(s),
    decreases s.len(),
{
    if s.len() == 0 {
        assert(seq_sum(s) * seq_sum(s) == 0 && s.len() * seq_sum_sq(s) == 0) by (
        nonlinear_arith)
            requires
                seq_sum(s) == 0,
                s.len() == 0,
        ;
    } else {
        let s0 = s.drop_last();
        let y = s.last() as int;
        lemma_square_sum_le(s0);
        lemma_sum_cross(s0, y);
        lemma_sums_bounded(s0);
        assert(seq_sum(s) * seq_sum(s) <= s.len() * seq_sum_sq(s)) by (nonlinear_arith)
            requires
                seq_sum(s) == seq_sum(s0) + y,
                seq_sum_sq(s) == seq_sum_sq(s0) + y * y,
                s.len() == s0.len() + 1,
                seq_sum(s0) * seq_sum(s0) <= s0.len() * seq_sum_sq(s0),
                2 * seq_sum(s0) * y <= seq_sum_sq(s0) + s0.len() * y * y,
                0 <= seq_sum_sq(s0),
        ;
    }
}

/// Removing one element takes exactly its contribution out of both sums.
proof fn lemma_sums_remove(s: Seq<u16>, j: int)
    requires
        0 <= j < s.len(),
    ensures
        seq_sum(s.remove(j)) == seq_sum(s) - s[j],
        seq_sum_sq(s.remove(j)) == seq_sum_sq(s) - s[j] * s[j],
    decreases s.len(),
{
    if j == s.len() - 1 {
        assert(s.remove(j) =~= s.drop_last());
    } else {
        assert(s.remove(j).drop_last() =~= s.drop_last().remove(j));
        assert(s.remove(j).last() == s.last());
        lemma_sums_remove(s.drop_last(), j);
    }
}

/// Two collections holding the same results the same number of times have the
/// same sum and the same sum of squares, whatever their order.
pub proof fn lemma_sums_permutation(s1: Seq<u16>, s2: Seq<u16>)
    requires
        s1.to_multiset() == s2.to_multiset(),
    ensures
        seq_sum(s1) == seq_sum(s2),
        seq_sum_sq(s1) == seq_sum_sq(s2),
    decreases s1.len(),
{
    s1.to_multiset_ensures();
    s2.to_multiset_ensures();
    if s1.len() == 0 {
        assert(s2.len() == 0);
    } else {
        let x = s1.last();
        let s0 = s1.drop_last();
        s0.to_multiset_ensures();
        assert(s0.push(x) =~= s1);
        assert(s1.to_multiset() =~= s0.to_multiset().insert(x));
        assert(s1.contains(x));
        assert(s2.to_multiset().count(x) > 0);
        assert(s2.contains(x));
        let j = choose|j: int| 0 <= j < s2.len() && s2[j] == x;
        assert(s2.remove(j).to_multiset() =~= s2.to_multiset().remove(x));
        assert(s0.to_multiset() =~= s2.remove(j).to_multiset());
        lemma_sums_permutation(s0, s2.remove(j));
        lemma_sums_remove(s2, j);
    }
}

/// The aggregator's figures are invariant to the order in which the trial
/// results were collected: a summary correct for one collection is correct
/// for any reordering of it.
pub proof fn lemma_stats_order_invariant(s1: Seq<u16>, s2: Seq<u16>, st: AggregateStatistics)
    requires
        s1.to_multiset() == s2.to_multiset(),
        stats_ok(s1, st),
    ensures
        stats_ok(s2, st),
{
    s1.to_multiset_ensures();
    s2.to_multiset_ensures();
    assert(s1.len() == s2.len());
    lemma_sums_permutation(s1, s2);
}

/// A quotient of a bounded numerator is bounded by the co-factor.
proof fn lemma_div_le(a: int, b: int, k: int)
    requires
        b >= 1,
        0 <= a,
        a <= b * k,
    ensures
        a / b <= k,
{
    lemma_div_is_ordered(a, b * k, b);
    lemma_div_multiples_vanish(k, b);
}

/// The integer square root of `x`, rounded to the nearest integer (halves
/// up), by binary search on the floor square root.
fn sqrt_round(x: u128) -> (r: u64)
    requires
        x < 0x10000000000000000000000000000000u128,
    ensures
        is_sqrt_round(r as int, x as int),
{
    let mut lo: u128 = 0;
    let mut hi: u128 = 0xffffffffffffffffu128;
    while lo < hi
        invariant
            lo <= hi,
            hi <= 0xffffffffffffffffu128,
            lo * lo <= x,
            (hi + 1) * (hi + 1) > x,
        decreases hi - lo,
    {
        let half: u128 = (hi - lo + 1) / 2;
        let mid: u128 = lo + half;
        proof {
            assert(mid * mid < 0x100000000000000000000000000000000) by (nonlinear_arith)
                requires
                    mid <= 0xffffffffffffffffu128,
            ;
        }
        let sq: u128 = mid * mid;
        if sq <= x {
            lo = mid;
        } else {
            hi = mid - 1;
        }
    }
    let r0: u128 = lo;
    proof {
        assert(r0 < 0x8000000000000000u128) by (nonlinear_arith)
            requires
                r0 * r0 <= x,
                x < 0x10000000000000000000000000000000u128,
        ;
    }
    let r: u128 = if x - r0 * r0 > r0 {
        r0 + 1
    } else {
        r0
    };
    proof {
        assert(is_sqrt_round(r as int, x as int)) by (nonlinear_arith)
            requires
                r0 * r0 <= x,
                (r0 + 1) * (r0 + 1) > x,
                r == if x - r0 * r0 > r0 {
                    r0 + 1
                } else {
                    r0 as int
                },
        ;
    }
    r as u64
}

/// Compute mean, sample standard deviation and standard error of the mean
/// over the collected run totals, in exact fixed-point arithmetic. Fails with
/// `EmptySample` exactly when there are no results, since the standard error
/// is undefined there; every non-empty collection succeeds. The length bound
/// keeps the exact scaled integer arithmetic within machine words.
pub fn aggregate(results: &Vec<u16>) -> (r: Result<AggregateStatistics, SimError>)
    requires
        results@.len() <= 0xffffffffu64,
    ensures
        r is Err <==> results@.len() == 0,
        r matches Err(e) ==> e == SimError::EmptySample,
        r matches Ok(st) ==> stats_ok(results@, st),
{
    let n: usize = results.len();
    if n == 0 {
        return Err(SimError::EmptySample);
    }
    let mut sum: u64 = 0;
    let mut ssq: u64 = 0;
    let mut i: usize = 0;
    while i < n
        invariant
            n == results@.len(),
            n <= 0xffffffffu64,
            i <= n,
            sum == seq_sum(results@.take(i as int)),
            ssq == seq_sum_sq(results@.take(i as int)),
            sum <= i * 65535,
            ssq <= i * 4294836225,
        decreases n - i,
    {
        proof {
            lemma_sums_take_succ(results@, i as int);
            let x = results@[i as int] as int;
            assert(x * x <= 4294836225) by (nonlinear_arith)
                requires
                    0 <= x <= 65535,
            ;
        }
        let x = results[i];
        sum = sum + x as u64;
        ssq = ssq + (x as u64) * (x as u64);
        i = i + 1;
    }
    proof {
        assert(results@.take(n as int) =~= results@);
    }
    let num_mean: u128 = 20000u128 * (sum as u128) + (n as u128);
    let mean128: u128 = num_mean / (2 * (n as u128));
    proof {
        assert(20000 * seq_sum(results@) <= (n as int) * 1310700000) by (nonlinear_arith)
            requires
                seq_sum(results@) <= (n as int) * 65535,
        ;
        assert((n as int) * 1310700000 + n <= (2 * (n as int)) * 655350001) by (nonlinear_arith);
        lemma_div_le(num_mean as int, 2 * (n as int), 655350001);
    }
    let mean_e4: u64 = mean128 as u64;
    if n == 1 {
        return Ok(AggregateStatistics { mean_e4, std_dev_e4: 0, std_err_e4: 0 });
    }
    let nn: u128 = n as u128;
    proof {
        lemma_square_sum_le(results@);
        assert(nn * (ssq as u128) <= 0x100000000u128 * 0xffffffffffffffffu128) by (
        nonlinear_arith)
            requires
                nn <= 0x100000000u128,
                ssq <= 0xffffffffffffffffu64,
        ;
        assert((sum as u128) * (sum as u128) <= 0xffffffffffffffffu128 * 0xffffffffffffffffu128)
            by (nonlinear_arith)
            requires
                sum <= 0xffffffffffffffffu64,
        ;
    }
    let num: u128 = nn * (ssq as u128) - (sum as u128) * (sum as u128);
    proof {
        assert(2 <= nn * (nn - 1) && nn * nn <= 0x10000000000000000u128 && nn * (nn - 1) <= nn
            * nn * (nn - 1) && nn * nn * (nn - 1) < 0x1000000000000000000000000u128) by (
        nonlinear_arith)
            requires
                2 <= nn <= 0x100000000u128,
        ;
        assert(100000000u128 * num < 0x10000000000000000000000000000000u128) by (nonlinear_arith)
            requires
                num <= 0x100000000u128 * 0xffffffffffffffffu128,
        ;
    }
    let den_sd: u128 = nn * (nn - 1);
    let den_se: u128 = nn * nn * (nn - 1);
    let scaled: u128 = 100000000u128 * num;
    proof {
        assert((den_sd as int) * (scaled as int) >= scaled as int) by (nonlinear_arith)
            requires
                den_sd >= 2,
                scaled >= 0,
        ;
        assert((den_se as int) * (scaled as int) >= scaled as int) by (nonlinear_arith)
            requires
                den_se >= 2,
                scaled >= 0,
        ;
        lemma_div_le(scaled as int, den_sd as int, scaled as int);
        lemma_div_le(scaled as int, den_se as int, scaled as int);
    }
    let t_sd: u128 = scaled / den_sd;
    let t_se: u128 = scaled / den_se;
    let std_dev_e4: u64 = sqrt_round(t_sd);
    let std_err_e4: u64 = sqrt_round(t_se);
    Ok(AggregateStatistics { mean_e4, std_dev_e4, std_err_e4 })
}

} // verus!
