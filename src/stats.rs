//! Exact statistics over samples held as integers.
//!
//! Comparisons against "mean plus k standard deviations" are decided without
//! division or square roots: for `n` samples with sum `S` and sum of squares
//! `Q`, the population deviation is `sqrt(n*Q - S*S) / n`, so for `k >= 0`
//! the test `x > S/n + k*sigma` holds exactly when `d = n*x - S` is positive
//! and `d*d > k*k*(n*Q - S*S)`. Factors `k` are given in tenths.
use vstd::prelude::*;

use crate::error::Error;
use crate::wide::{add_wide, base128, gt_wide, mul_wide, zero_wide, U256};

verus! {

/// Largest sample value the statistics take (2^80).
pub const SAMPLE_CEILING: u128 = 0x1_0000_0000_0000_0000_0000;

/// Largest value whose sums the statistics can form.
pub const WIDE_CEILING: u128 = 0x10_0000_0000_0000_0000_0000_0000;

/// Largest number of samples the statistics accept.
pub const MAX_SAMPLES: usize = 4096;

pub open spec fn sum(s: Seq<u128>) -> int
    decreases s.len(),
{
    if s.len() == 0 {
        0
    } else {
        sum(s.drop_last()) + s.last()
    }
}

pub open spec fn sum_sq(s: Seq<u128>) -> int
    decreases s.len(),
{
    if s.len() == 0 {
        0
    } else {
        sum_sq(s.drop_last()) + s.last() * s.last()
    }
}

/// How many samples are at most `v`.
pub open spec fn count_le(s: Seq<u128>, v: int) -> int
    decreases s.len(),
{
    if s.len() == 0 {
        0
    } else {
        count_le(s.drop_last(), v) + if s.last() <= v {
            1int
        } else {
            0
        }
    }
}

/// How many samples are below `v`.
pub open spec fn count_lt(s: Seq<u128>, v: int) -> int
    decreases s.len(),
{
    if s.len() == 0 {
        0
    } else {
        count_lt(s.drop_last(), v) + if s.last() < v {
            1int
        } else {
            0
        }
    }
}

/// `v` is the sample at position `k` once the samples are sorted.
pub open spec fn is_rank(s: Seq<u128>, k: int, v: u128) -> bool {
    &&& s.contains(v)
    &&& count_lt(s, v as int) <= k
    &&& k < count_le(s, v as int)
}

/// `v` is the sample at position `len / 2` once the samples are sorted.
pub open spec fn is_median(s: Seq<u128>, v: u128) -> bool {
    is_rank(s, s.len() as int / 2, v)
}

/// The sample at position `len / 2` of the sorted samples.
pub open spec fn median(s: Seq<u128>) -> u128 {
    choose|v: u128| is_median(s, v)
}

/// Every sample is within the ceiling and there are not too many of them.
pub open spec fn samples_in_range(s: Seq<u128>) -> bool {
    &&& s.len() <= MAX_SAMPLES
    &&& forall|i: int| 0 <= i < s.len() ==> s[i] <= SAMPLE_CEILING
}

/// `x` lies more than `tenths / 10` population standard deviations above
/// the mean of `s`.
pub open spec fn above_band(s: Seq<u128>, x: int, tenths: int) -> bool {
    let n = s.len() as int;
    let d = n * x - sum(s);
    d > 0 && 100 * (d * d) > tenths * tenths * (n * sum_sq(s) - sum(s) * sum(s))
}

/// `x` lies more than `tenths / 10` population standard deviations below
/// the mean of `s`.
pub open spec fn below_band(s: Seq<u128>, x: int, tenths: int) -> bool {
    let n = s.len() as int;
    let e = sum(s) - n * x;
    e > 0 && 100 * (e * e) > tenths * tenths * (n * sum_sq(s) - sum(s) * sum(s))
}

/// The sum of `s`.
pub fn sum_of(s: &Vec<u128>) -> (r: u128)
    requires
        s@.len() <= MAX_SAMPLES,
        forall|i: int| 0 <= i < s@.len() ==> s@[i] <= WIDE_CEILING,
    ensures
        r == sum(s@),
{
    let mut total: u128 = 0;
    let mut i: usize = 0;
    while i < s.len()
        invariant
            s@.len() <= MAX_SAMPLES,
            forall|j: int| 0 <= j < s@.len() ==> s@[j] <= WIDE_CEILING,
            i <= s@.len(),
            total == sum(s@.subrange(0, i as int)),
        decreases s@.len() - i,
    {
        let prefix = Ghost(s@.subrange(0, i as int + 1));
        proof {
            assert(prefix@.drop_last() =~= s@.subrange(0, i as int));
            assert forall|j: int| 0 <= j < prefix@.len() implies prefix@[j] <= WIDE_CEILING by {
                assert(prefix@[j] == s@[j]);
            }
            lemma_sum_le(prefix@, WIDE_CEILING as int);
            assert(prefix@.len() * WIDE_CEILING <= MAX_SAMPLES * WIDE_CEILING) by (nonlinear_arith)
                requires
                    prefix@.len() <= MAX_SAMPLES,
            ;
        }
        total = total + s[i];
        i = i + 1;
    }
    assert(s@.subrange(0, s@.len() as int) =~= s@);
    total
}

/// A sum of values at most `b` is at most `len * b`.
pub proof fn lemma_sum_le(s: Seq<u128>, b: int)
    requires
        forall|i: int| 0 <= i < s.len() ==> s[i] <= b,
    ensures
        0 <= sum(s) <= s.len() * b,
    decreases s.len(),
{
    if s.len() > 0 {
        let t = s.drop_last();
        assert forall|i: int| 0 <= i < t.len() implies t[i] <= b by {
            assert(t[i] == s[i]);
        }
        lemma_sum_le(t, b);
        assert(s[s.len() - 1] <= b);
        assert(s.len() * b == t.len() * b + b) by (nonlinear_arith)
            requires
                s.len() == t.len() + 1,
        ;
    }
}

/// `tenths * tenths * n * sum_sq(s)`, exactly.
fn scaled_square_sum(s: &Vec<u128>, n: u128, tenths: u16) -> (r: U256)
    requires
        samples_in_range(s@),
        n <= MAX_SAMPLES,
    ensures
        r.value() == tenths * tenths * n * sum_sq(s@),
{
    let t: u128 = tenths as u128;
    let mut acc = zero_wide();
    let mut i: usize = 0;
    while i < s.len()
        invariant
            samples_in_range(s@),
            n <= MAX_SAMPLES,
            t == tenths,
            i <= s@.len(),
            acc.value() == t * t * n * sum_sq(s@.subrange(0, i as int)),
            acc.value() <= i * 0x1_0000_0000_0000_0000_0000_0000_0000_0000_0000_0000_0000_0000_0000,
        decreases s@.len() - i,
    {
        let x = s[i];
        proof {
            assert(x <= SAMPLE_CEILING);
            assert(t * x <= 0x1_0000_0000_0000_0000_0000_0000) by (nonlinear_arith)
                requires t <= 0xFFFF, x <= SAMPLE_CEILING, SAMPLE_CEILING == 0x1_0000_0000_0000_0000_0000;
            assert(n * (t * x) <= 0x1000_0000_0000_0000_0000_0000_0000) by (nonlinear_arith)
                requires n <= 4096, t * x <= 0x1_0000_0000_0000_0000_0000_0000, t * x >= 0;
        }
        let tx: u128 = t * x;
        let term = mul_wide(tx, n * tx);
        proof {
            assert(tx * (n * tx) <= 0x1_0000_0000_0000_0000_0000_0000_0000_0000_0000_0000_0000_0000_0000)
                by (nonlinear_arith)
                requires
                    tx <= 0x1_0000_0000_0000_0000_0000_0000,
                    n * tx <= 0x1000_0000_0000_0000_0000_0000_0000,
                    tx >= 0,
            ;
            assert(base128() * base128() > (i + 1) * 0x1_0000_0000_0000_0000_0000_0000_0000_0000_0000_0000_0000_0000_0000)
                by (nonlinear_arith)
                requires i < 4096, base128() == 0x1_0000_0000_0000_0000 * 0x1_0000_0000_0000_0000;
            assert(s@.subrange(0, i + 1).drop_last() =~= s@.subrange(0, i as int));
            assert(t * t * n * (sum_sq(s@.subrange(0, i as int)) + x * x) == t * t * n * sum_sq(
                s@.subrange(0, i as int),
            ) + tx * (n * tx)) by (nonlinear_arith)
                requires
                    tx == t * x,
            ;
        }
        acc = add_wide(acc, term);
        i = i + 1;
    }
    assert(s@.subrange(0, s@.len() as int) =~= s@);
    acc
}

/// Decides `100 * d * d > tenths * tenths * (n * sum_sq(s) - total * total)`
/// for `total == sum(s)`.
fn spread_exceeded(s: &Vec<u128>, n: u128, total: u128, d: u128, tenths: u16) -> (r: bool)
    requires
        samples_in_range(s@),
        n == s@.len(),
        total == sum(s@),
        d <= MAX_SAMPLES * SAMPLE_CEILING,
    ensures
        r == (100 * (d * d) > tenths * tenths * (n * sum_sq(s@) - total * total)),
{
    let t: u128 = tenths as u128;
    proof {
        lemma_sum_le(s@, SAMPLE_CEILING as int);
        assert(s@.len() * SAMPLE_CEILING <= MAX_SAMPLES * SAMPLE_CEILING) by (nonlinear_arith)
            requires
                s@.len() <= MAX_SAMPLES,
        ;
        assert(t * total <= 0xFFFF * (MAX_SAMPLES * SAMPLE_CEILING)) by (nonlinear_arith)
            requires
                t <= 0xFFFF,
                total <= MAX_SAMPLES * SAMPLE_CEILING,
                total >= 0,
        ;
    }
    proof {
        let c = MAX_SAMPLES * SAMPLE_CEILING;
        assert(d * (100 * d) + (t * total) * (t * total) < base128() * base128()) by (
        nonlinear_arith)
            requires
                d <= c,
                d >= 0,
                t * total <= 0xFFFF * c,
                t * total >= 0,
                c == 4096 * 0x1_0000_0000_0000_0000_0000,
                base128() == 0x1_0000_0000_0000_0000 * 0x1_0000_0000_0000_0000,
        ;
    }
    let lhs = add_wide(mul_wide(d, 100 * d), mul_wide(t * total, t * total));
    let rhs = scaled_square_sum(s, n, tenths);
    proof {
        assert(tenths * tenths * (n * sum_sq(s@) - total * total) == tenths * tenths * n * sum_sq(
            s@,
        ) - (t * total) * (t * total)) by (nonlinear_arith)
            requires
                t == tenths,
        ;
        assert(100 * (d * d) == d * (100 * d)) by (nonlinear_arith);
    }
    gt_wide(lhs, rhs)
}

/// Whether `x` lies more than `tenths / 10` population standard deviations
/// above the mean of `s`. A deviation needs two samples at least
/// (`InsufficientData`).
pub fn exceeds_band(s: &Vec<u128>, x: u128, tenths: u16) -> (r: Result<bool, Error>)
    requires
        samples_in_range(s@),
        x <= SAMPLE_CEILING,
    ensures
        s@.len() < 2 ==> r == Err::<bool, Error>(Error::InsufficientData),
        s@.len() >= 2 ==> r == Ok::<bool, Error>(above_band(s@, x as int, tenths as int)),
{
    if s.len() < 2 {
        return Err(Error::InsufficientData);
    }
    proof {
        assert(SAMPLE_CEILING <= WIDE_CEILING);
        lemma_sum_le(s@, SAMPLE_CEILING as int);
        assert(s@.len() * SAMPLE_CEILING <= MAX_SAMPLES * SAMPLE_CEILING) by (nonlinear_arith)
            requires
                s@.len() <= MAX_SAMPLES,
        ;
        assert(s@.len() * x <= MAX_SAMPLES * SAMPLE_CEILING) by (nonlinear_arith)
            requires
                s@.len() <= MAX_SAMPLES,
                x <= SAMPLE_CEILING,
        ;
    }
    let total = sum_of(s);
    let n: u128 = s.len() as u128;
    let nx: u128 = n * x;
    if nx <= total {
        return Ok(false);
    }
    Ok(spread_exceeded(s, n, total, nx - total, tenths))
}

/// Whether `x` lies more than `tenths / 10` population standard deviations
/// below the mean of `s`. A deviation needs two samples at least
/// (`InsufficientData`).
pub fn falls_below_band(s: &Vec<u128>, x: u128, tenths: u16) -> (r: Result<bool, Error>)
    requires
        samples_in_range(s@),
        x <= SAMPLE_CEILING,
    ensures
        s@.len() < 2 ==> r == Err::<bool, Error>(Error::InsufficientData),
        s@.len() >= 2 ==> r == Ok::<bool, Error>(below_band(s@, x as int, tenths as int)),
{
    if s.len() < 2 {
        return Err(Error::InsufficientData);
    }
    proof {
        assert(SAMPLE_CEILING <= WIDE_CEILING);
        lemma_sum_le(s@, SAMPLE_CEILING as int);
        assert(s@.len() * SAMPLE_CEILING <= MAX_SAMPLES * SAMPLE_CEILING) by (nonlinear_arith)
            requires
                s@.len() <= MAX_SAMPLES,
        ;
        assert(s@.len() * x <= MAX_SAMPLES * SAMPLE_CEILING) by (nonlinear_arith)
            requires
                s@.len() <= MAX_SAMPLES,
                x <= SAMPLE_CEILING,
        ;
    }
    let total = sum_of(s);
    let n: u128 = s.len() as u128;
    let nx: u128 = n * x;
    if total <= nx {
        return Ok(false);
    }
    Ok(spread_exceeded(s, n, total, total - nx, tenths))
}

proof fn lemma_counts_monotone(s: Seq<u128>, v1: int, v2: int)
    ensures
        0 <= count_lt(s, v1) <= count_le(s, v1) <= s.len(),
        v1 <= v2 ==> count_lt(s, v1) <= count_lt(s, v2) && count_le(s, v1) <= count_le(s, v2),
        v1 < v2 ==> count_le(s, v1) <= count_lt(s, v2),
    decreases s.len(),
{
    if s.len() > 0 {
        lemma_counts_monotone(s.drop_last(), v1, v2);
    }
}

proof fn lemma_contains_prefix(s: Seq<u128>, v: u128)
    requires
        s.len() > 0,
        s.drop_last().contains(v),
    ensures
        s.contains(v),
{
    let j = choose|j: int| 0 <= j < s.drop_last().len() && s.drop_last()[j] == v;
    assert(s[j] == v);
}

/// Some sample stands at position `k` of the sorted samples.
proof fn lemma_rank_witness(s: Seq<u128>, k: int) -> (v: u128)
    requires
        0 <= k < s.len(),
    ensures
        is_rank(s, k, v),
    decreases s.len(),
{
    let t = s.drop_last();
    let a = s.last();
    assert(s[s.len() - 1] == a);
    assert(s.contains(a));
    if t.len() == 0 {
        assert(count_lt(t, a as int) == 0 && count_le(t, a as int) == 0);
        a
    } else if k < t.len() {
        let v = lemma_rank_witness(t, k);
        if a >= v {
            lemma_contains_prefix(s, v);
            v
        } else if k == 0 {
            lemma_counts_monotone(t, a as int, v as int);
            a
        } else {
            let w = lemma_rank_witness(t, k - 1);
            if a <= w {
                lemma_contains_prefix(s, w);
                w
            } else {
                lemma_counts_monotone(t, w as int, a as int);
                lemma_counts_monotone(t, a as int, v as int);
                a
            }
        }
    } else {
        let w = lemma_rank_witness(t, k - 1);
        if a <= w {
            lemma_contains_prefix(s, w);
            w
        } else {
            lemma_counts_monotone(t, w as int, a as int);
            lemma_counts_monotone(t, a as int, a as int);
            a
        }
    }
}

proof fn lemma_rank_unique(s: Seq<u128>, k: int, v1: u128, v2: u128)
    requires
        is_rank(s, k, v1),
        is_rank(s, k, v2),
    ensures
        v1 == v2,
{
    lemma_counts_monotone(s, v1 as int, v2 as int);
    lemma_counts_monotone(s, v2 as int, v1 as int);
}

/// How many samples are below `v` and how many are at most `v`.
fn rank_counts(s: &Vec<u128>, v: u128) -> (r: (usize, usize))
    ensures
        r.0 == count_lt(s@, v as int),
        r.1 == count_le(s@, v as int),
{
    let mut below: usize = 0;
    let mut at_most: usize = 0;
    let mut i: usize = 0;
    while i < s.len()
        invariant
            i <= s@.len(),
            below <= i,
            at_most <= i,
            below == count_lt(s@.subrange(0, i as int), v as int),
            at_most == count_le(s@.subrange(0, i as int), v as int),
        decreases s@.len() - i,
    {
        assert(s@.subrange(0, i as int + 1).drop_last() =~= s@.subrange(0, i as int));
        if s[i] < v {
            below = below + 1;
        }
        if s[i] <= v {
            at_most = at_most + 1;
        }
        i = i + 1;
    }
    assert(s@.subrange(0, s@.len() as int) =~= s@);
    (below, at_most)
}

/// The sample at position `len / 2` once the samples are sorted (the upper
/// median).
pub fn median_of(s: &Vec<u128>) -> (r: u128)
    requires
        s@.len() > 0,
    ensures
        is_median(s@, r),
        r == median(s@),
{
    let k: usize = s.len() / 2;
    let mut j: usize = 0;
    while j < s.len()
        invariant
            k == s@.len() / 2,
            j <= s@.len(),
            forall|i: int| 0 <= i < j ==> !is_rank(s@, k as int, #[trigger] s@[i]),
        decreases s@.len() - j,
    {
        let (below, at_most) = rank_counts(s, s[j]);
        if below <= k && k < at_most {
            proof {
                assert(s@[j as int] == s[j as int]);
                assert(s@.contains(s@[j as int]));
                let m = lemma_rank_witness(s@, k as int);
                assert(is_median(s@, m));
                lemma_rank_unique(s@, k as int, m, median(s@));
                lemma_rank_unique(s@, k as int, s@[j as int], median(s@));
            }
            return s[j];
        }
        j = j + 1;
    }
    proof {
        let m = lemma_rank_witness(s@, k as int);
        let i = choose|i: int| 0 <= i < s@.len() && s@[i] == m;
        assert(!is_rank(s@, k as int, s@[i]));
    }
    s[0]
}

} // verus!
