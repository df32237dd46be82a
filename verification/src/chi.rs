//! Pearson's chi-squared statistic against the uniform distribution over
//! `k` equal-width bins of `[a, b)`.

use vstd::prelude::*;
use crate::{Rat, StatError, valid_sample, sample_view, MAX_N, MAX_ABS};

verus! {

/// `x` falls in bin `i` of the `k` equal-width bins of `[a, b)`: with
/// real-number bounds this is `a + i*(b-a)/k <= x < a + (i+1)*(b-a)/k`;
/// multiplying through by `k > 0` gives this exact integer form. A value
/// exactly equal to `b` falls in no bin: every bin's upper boundary is
/// exclusive, the last one included — a known boundary quirk of this
/// statistic, kept deliberately rather than silently widened.
pub open spec fn in_bin(x: int, a: int, b: int, k: int, i: int) -> bool {
    k * x >= k * a + i * (b - a) && k * x < k * a + (i + 1) * (b - a)
}

/// How many elements of `s` fall in bin `i`.
pub open spec fn count_in_bin(s: Seq<int>, a: int, b: int, k: int, i: int) -> int
    decreases s.len(),
{
    if s.len() == 0 {
        0
    } else {
        count_in_bin(s.drop_last(), a, b, k, i) + if in_bin(s.last(), a, b, k, i) {
            1int
        } else {
            0int
        }
    }
}

/// Numerator of the chi-squared statistic over the first `j` bins: the sum
/// of `(k * observed_i - n)^2` where `n = s.len()`. Over the denominator
/// `n * k` this is the usual `sum((observed - n/k)^2 / (n/k))`, since the
/// expected count per bin under the uniform hypothesis is `n / k`.
pub open spec fn chi_num(s: Seq<int>, a: int, b: int, k: int, j: int) -> int
    decreases j,
{
    if j <= 0 {
        0
    } else {
        let d = k * count_in_bin(s, a, b, k, j - 1) - s.len();
        chi_num(s, a, b, k, j - 1) + d * d
    }
}

/// The chi-squared statistic of `sample` against the uniform distribution
/// on `[a, b)` split into `k` equal-width bins, as the exact rational
/// `chi_num / (n * k)`. Fails exactly when the sample is empty or `k` is
/// zero (both make the expected bin count zero).
pub fn chi_squared(sample: &Vec<i64>, a: i64, b: i64, k: u64) -> (r: Result<Rat, StatError>)
    requires
        valid_sample(sample@),
        -MAX_ABS <= a <= MAX_ABS,
        -MAX_ABS <= b <= MAX_ABS,
        k <= MAX_N,
    ensures
        r is Ok <==> (sample@.len() >= 1 && k >= 1),
        r is Err ==> r == Result::<Rat, StatError>::Err(StatError::InvalidArgument),
        r matches Ok(q) ==> {
            let vals = sample_view(sample@);
            q.num == chi_num(vals, a as int, b as int, k as int, k as int)
                && q.den == sample@.len() * k
                && q.num >= 0
                && q.den >= 1
        },
{
    if sample.len() == 0 || k == 0 {
        return Err(StatError::InvalidArgument);
    }
    let ghost vals = sample_view(sample@);
    let n = sample.len();
    let mut sum: i128 = 0;
    let mut i: u64 = 0;
    while i < k
        invariant
            0 <= i <= k,
            1 <= k <= MAX_N,
            1 <= n == sample@.len() <= MAX_N,
            -MAX_ABS <= a <= MAX_ABS,
            -MAX_ABS <= b <= MAX_ABS,
            valid_sample(sample@),
            vals == sample_view(sample@),
            sum == chi_num(vals, a as int, b as int, k as int, i as int),
            0 <= sum <= i * 1000000000000000000000000,
        decreases k - i,
    {
        let mut cnt: u64 = 0;
        let mut j: usize = 0;
        proof {
            assert(
                -3000000000000000000 <= (k as int) * (a as int)
                    && (k as int) * (a as int) <= 3000000000000000000
                    && -3000000000000000000 <= (i as int) * ((b as int) - (a as int))
                    && (i as int) * ((b as int) - (a as int)) <= 3000000000000000000
                    && -3000000000000000000 <= ((i as int) + 1) * ((b as int) - (a as int))
                    && ((i as int) + 1) * ((b as int) - (a as int)) <= 3000000000000000000
            ) by (nonlinear_arith)
                requires
                    -1000000000000 <= (a as int) && (a as int) <= 1000000000000,
                    -1000000000000 <= (b as int) && (b as int) <= 1000000000000,
                    0 <= (i as int) && (i as int) < 1000000,
                    1 <= (k as int) && (k as int) <= 1000000,
            ;
        }
        let ka = (k as i128) * (a as i128);
        let w = (b as i128) - (a as i128);
        let lo = ka + (i as i128) * w;
        let hi = ka + (i as i128 + 1) * w;
        while j < n
            invariant
                0 <= j <= n,
                n == sample@.len(),
                1 <= k <= MAX_N,
                0 <= i < k,
                valid_sample(sample@),
                vals == sample_view(sample@),
                0 <= cnt <= j,
                cnt == count_in_bin(vals.take(j as int), a as int, b as int, k as int, i as int),
                lo == (k as int) * (a as int) + (i as int) * ((b as int) - (a as int)),
                hi == (k as int) * (a as int) + ((i as int) + 1) * ((b as int) - (a as int)),
            decreases n - j,
        {
            proof {
                assert(vals.take(j + 1).drop_last() =~= vals.take(j as int));
                assert(-1000000000000 <= vals[j as int] <= 1000000000000);
                assert(
                    -1000000000000000000 <= (k as int) * vals[j as int]
                        && (k as int) * vals[j as int] <= 1000000000000000000
                ) by (nonlinear_arith)
                    requires
                        1 <= (k as int) && (k as int) <= 1000000,
                        -1000000000000 <= vals[j as int] <= 1000000000000,
                ;
            }
            let kx = (k as i128) * (sample[j] as i128);
            if kx >= lo && kx < hi {
                cnt = cnt + 1;
            }
            j = j + 1;
        }
        proof {
            assert(vals.take(n as int) =~= vals);
            let d = (k as int) * (cnt as int) - (n as int);
            assert(
                -1000000 <= d <= 1000000000000 && 0 <= d * d <= 1000000000000000000000000
            ) by (nonlinear_arith)
                requires
                    d == (k as int) * (cnt as int) - (n as int),
                    1 <= (k as int) && (k as int) <= 1000000,
                    0 <= (cnt as int) && (cnt as int) <= (n as int),
                    1 <= (n as int) && (n as int) <= 1000000,
            ;
        }
        let d = (k as i128) * (cnt as i128) - (n as i128);
        sum = sum + d * d;
        i = i + 1;
    }
    proof {
        assert(1 <= (n as int) * (k as int) <= 1000000000000) by (nonlinear_arith)
            requires
                1 <= (n as int) && (n as int) <= 1000000,
                1 <= (k as int) && (k as int) <= 1000000,
        ;
    }
    Ok(Rat { num: sum, den: (n as i128) * (k as i128) })
}

/// Law: the chi-squared statistic is zero exactly when every one of the
/// `k` bins holds exactly `n / k` sample values (so `k * observed == n`
/// for every bin), as on a sample laid out one value per equal slot.
pub proof fn lemma_chi_zero_iff_uniform(s: Seq<int>, a: int, b: int, k: int)
    requires
        k >= 1,
    ensures
        chi_num(s, a, b, k, k) == 0 <==> (forall|i: int|
            0 <= i < k ==> k * #[trigger] count_in_bin(s, a, b, k, i) == s.len()),
        chi_num(s, a, b, k, k) >= 0,
{
    lemma_chi_num_prefix(s, a, b, k, k);
}

/// The chi-squared numerator over the first `j` bins is non-negative, and
/// zero exactly when each of those bins holds exactly `n / k` values.
pub proof fn lemma_chi_num_prefix(s: Seq<int>, a: int, b: int, k: int, j: int)
    ensures
        chi_num(s, a, b, k, j) >= 0,
        chi_num(s, a, b, k, j) == 0 <==> (forall|i: int|
            0 <= i < j ==> k * #[trigger] count_in_bin(s, a, b, k, i) == s.len()),
    decreases j,
{
    if j > 0 {
        lemma_chi_num_prefix(s, a, b, k, j - 1);
        let d = k * count_in_bin(s, a, b, k, j - 1) - s.len();
        assert(d * d >= 0 && (d * d == 0 <==> d == 0)) by (nonlinear_arith);
    }
}

} // verus!
