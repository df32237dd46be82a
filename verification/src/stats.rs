//! Moment estimation: empirical mean and population variance of a sample,
//! as exact rationals over the sample's fixed-point values.

use vstd::prelude::*;
use crate::{Rat, StatError, valid_sample, sample_view, MAX_N, MAX_ABS};

verus! {

/// Sum of a sequence of integers.
pub open spec fn sum_seq(s: Seq<int>) -> int
    decreases s.len(),
{
    if s.len() == 0 {
        0
    } else {
        sum_seq(s.drop_last()) + s.last()
    }
}

/// Sum of the squares of a sequence of integers.
pub open spec fn sq_sum(s: Seq<int>) -> int
    decreases s.len(),
{
    if s.len() == 0 {
        0
    } else {
        sq_sum(s.drop_last()) + s.last() * s.last()
    }
}

/// Sum of the squared deviations `(m * s[i] - c)^2`. With `m` the length of
/// `s` and `c` its sum, this is `m^3` times the population variance of `s`.
pub open spec fn dev_sq_sum(s: Seq<int>, m: int, c: int) -> int
    decreases s.len(),
{
    if s.len() == 0 {
        0
    } else {
        dev_sq_sum(s.drop_last(), m, c) + (m * s.last() - c) * (m * s.last() - c)
    }
}

/// A sum over a bounded sequence is bounded by `len * bound`.
pub proof fn lemma_sum_seq_bound(s: Seq<int>, bound: int)
    requires
        bound >= 0,
        forall|i: int| 0 <= i < s.len() ==> -bound <= #[trigger] s[i] <= bound,
    ensures
        -bound * s.len() <= sum_seq(s) <= bound * s.len(),
    decreases s.len(),
{
    if s.len() > 0 {
        lemma_sum_seq_bound(s.drop_last(), bound);
        assert(-bound * s.len() <= sum_seq(s) <= bound * s.len()) by (nonlinear_arith)
            requires
                sum_seq(s) == sum_seq(s.drop_last()) + s.last(),
                -bound * (s.len() - 1) <= sum_seq(s.drop_last()) <= bound * (s.len() - 1),
                -bound <= s.last() <= bound,
                s.len() >= 1,
        ;
    }
}

/// A sum of squares over a bounded sequence is between 0 and `len * bound^2`.
pub proof fn lemma_sq_sum_bound(s: Seq<int>, bound: int)
    requires
        bound >= 0,
        forall|i: int| 0 <= i < s.len() ==> -bound <= #[trigger] s[i] <= bound,
    ensures
        0 <= sq_sum(s) <= bound * bound * s.len(),
    decreases s.len(),
{
    if s.len() > 0 {
        lemma_sq_sum_bound(s.drop_last(), bound);
        assert(0 <= sq_sum(s) <= bound * bound * s.len()) by (nonlinear_arith)
            requires
                sq_sum(s) == sq_sum(s.drop_last()) + s.last() * s.last(),
                0 <= sq_sum(s.drop_last()) <= bound * bound * (s.len() - 1),
                -bound <= s.last() <= bound,
                s.len() >= 1,
        ;
    }
}

/// The sum of a constant sequence is `len * v`.
pub proof fn lemma_sum_seq_constant(s: Seq<int>, v: int)
    requires
        forall|i: int| 0 <= i < s.len() ==> #[trigger] s[i] == v,
    ensures
        sum_seq(s) == s.len() * v,
    decreases s.len(),
{
    if s.len() > 0 {
        lemma_sum_seq_constant(s.drop_last(), v);
        let l = s.len() as int;
        assert(s.last() == v);
        assert((l - 1) * v + v == l * v) by (nonlinear_arith);
    }
}

/// The sum of squares of a constant sequence is `len * v^2`.
pub proof fn lemma_sq_sum_constant(s: Seq<int>, v: int)
    requires
        forall|i: int| 0 <= i < s.len() ==> #[trigger] s[i] == v,
    ensures
        sq_sum(s) == s.len() * (v * v),
    decreases s.len(),
{
    if s.len() > 0 {
        lemma_sq_sum_constant(s.drop_last(), v);
        let l = s.len() as int;
        assert(s.last() == v);
        assert((l - 1) * (v * v) + v * v == l * (v * v)) by (nonlinear_arith);
    }
}

/// Law: on a constant sample of value `v` (length at least 1), `mean`
/// returns the rational `(len * v) / len`, whose value is exactly `v`,
/// and the numerator that `variance` returns is exactly `0`: the variance
/// of a constant sample is `0`.
pub proof fn lemma_constant_sample_moments(s: Seq<int>, v: int)
    requires
        s.len() >= 1,
        forall|i: int| 0 <= i < s.len() ==> #[trigger] s[i] == v,
    ensures
        sum_seq(s) == s.len() * v,
        sum_seq(s) == (s.len() as int) * v,
        s.len() * sq_sum(s) - sum_seq(s) * sum_seq(s) == 0,
{
    lemma_sum_seq_constant(s, v);
    lemma_sq_sum_constant(s, v);
    let n = s.len() as int;
    assert(n * (n * (v * v)) - (n * v) * (n * v) == 0) by (nonlinear_arith);
}

/// Empirical mean of a sample, as the exact rational `sum / len`.
/// Fails exactly when the sample is empty.
pub fn mean(sample: &Vec<i64>) -> (r: Result<Rat, StatError>)
    ensures
        r is Ok <==> sample@.len() >= 1,
        r is Err ==> r == Result::<Rat, StatError>::Err(StatError::InvalidArgument),
        r matches Ok(q) ==> q.num == sum_seq(sample_view(sample@)) && q.den == sample@.len(),
{
    if sample.len() == 0 {
        return Err(StatError::InvalidArgument);
    }
    let ghost vals = sample_view(sample@);
    let mut total: i128 = 0;
    let mut i: usize = 0;
    while i < sample.len()
        invariant
            i <= sample@.len(),
            vals == sample_view(sample@),
            total == sum_seq(vals.take(i as int)),
            i64::MIN * i <= total <= i64::MAX * i,
        decreases sample@.len() - i,
    {
        proof {
            assert(vals.take(i + 1).drop_last() =~= vals.take(i as int));
        }
        total = total + sample[i] as i128;
        i = i + 1;
    }
    proof {
        assert(vals.take(sample@.len() as int) =~= vals);
    }
    Ok(Rat { num: total, den: sample.len() as i128 })
}

/// Population variance of a sample, as the exact rational
/// `(len * sum_of_squares - sum^2) / len^2`. By `lemma_dev_sq_sum` this
/// equals the average of the squared deviations from the mean. Fails
/// exactly when the sample is empty.
pub fn variance(sample: &Vec<i64>) -> (r: Result<Rat, StatError>)
    requires
        valid_sample(sample@),
    ensures
        r is Ok <==> sample@.len() >= 1,
        r is Err ==> r == Result::<Rat, StatError>::Err(StatError::InvalidArgument),
        r matches Ok(q) ==> {
            let vals = sample_view(sample@);
            let n = sample@.len() as int;
            q.num == n * sq_sum(vals) - sum_seq(vals) * sum_seq(vals)
                && q.den == n * n
                && n * q.num == dev_sq_sum(vals, n, sum_seq(vals))
        },
{
    if sample.len() == 0 {
        return Err(StatError::InvalidArgument);
    }
    let ghost vals = sample_view(sample@);
    let mut total: i128 = 0;
    let mut squares: i128 = 0;
    let mut i: usize = 0;
    while i < sample.len()
        invariant
            i <= sample@.len(),
            valid_sample(sample@),
            vals == sample_view(sample@),
            total == sum_seq(vals.take(i as int)),
            squares == sq_sum(vals.take(i as int)),
            -(MAX_ABS as int) * i <= total <= (MAX_ABS as int) * i,
            0 <= squares <= (MAX_ABS as int) * (MAX_ABS as int) * i,
        decreases sample@.len() - i,
    {
        proof {
            assert(vals.take(i + 1).drop_last() =~= vals.take(i as int));
            assert(-(MAX_ABS as int) <= vals[i as int] <= MAX_ABS as int);
            let xv = vals[i as int];
            let ii = i as int;
            assert(
                -1000000000000000000 <= total + xv <= 1000000000000000000
                    && -1000000000000 * (ii + 1) <= total + xv <= 1000000000000 * (ii + 1)
                    && 0 <= squares + xv * xv
                    && squares + xv * xv <= 1000000000000 * 1000000000000 * (ii + 1)
                    && squares + xv * xv <= 1000000000000000000000000000000
            ) by (nonlinear_arith)
                requires
                    -1000000000000 <= xv <= 1000000000000,
                    -1000000000000 * ii <= total <= 1000000000000 * ii,
                    0 <= squares <= 1000000000000 * 1000000000000 * ii,
                    0 <= ii < 1000000,
            ;
        }
        let x = sample[i] as i128;
        total = total + x;
        squares = squares + x * x;
        i = i + 1;
    }
    proof {
        assert(vals.take(sample@.len() as int) =~= vals);
        lemma_sum_seq_bound(vals, MAX_ABS as int);
        lemma_sq_sum_bound(vals, MAX_ABS as int);
    }
    let n = sample.len() as i128;
    proof {
        let nn = n as int;
        assert(
            0 <= squares <= 1000000000000000000000000000000
                && -1000000000000000000 <= total <= 1000000000000000000
        ) by (nonlinear_arith)
            requires
                1 <= nn <= 1000000,
                0 <= squares <= 1000000000000 * 1000000000000 * nn,
                -1000000000000 * nn <= total <= 1000000000000 * nn,
        ;
        assert(0 <= nn * squares <= 1000000000000000000000000000000000000) by (nonlinear_arith)
            requires
                1 <= nn <= 1000000,
                0 <= squares <= 1000000000000000000000000000000,
        ;
        assert(0 <= total * total <= 1000000000000000000000000000000000000) by (nonlinear_arith)
            requires
                -1000000000000000000 <= total <= 1000000000000000000,
        ;
        assert(0 < nn * nn <= 1000000000000) by (nonlinear_arith)
            requires
                1 <= nn <= 1000000,
        ;
        lemma_dev_sq_sum(vals, sample@.len() as int, sum_seq(vals));
    }
    Ok(Rat { num: n * squares - total * total, den: n * n })
}

/// Expanding the square: the sum of `(m * s[i] - c)^2` over `s` equals
/// `m^2 * sq_sum(s) - 2 * m * c * sum_seq(s) + len * c^2`. Instantiated
/// with `m == len` and `c == sum_seq(s)` it ties the variance numerator to
/// the sum of squared deviations from the mean.
pub proof fn lemma_dev_sq_expand(s: Seq<int>, m: int, c: int)
    ensures
        dev_sq_sum(s, m, c) == m * m * sq_sum(s) - 2 * m * c * sum_seq(s) + s.len() * c * c,
    decreases s.len(),
{
    if s.len() > 0 {
        lemma_dev_sq_expand(s.drop_last(), m, c);
        let d = dev_sq_sum(s.drop_last(), m, c);
        let q = sq_sum(s.drop_last());
        let t = sum_seq(s.drop_last());
        let x = s.last();
        let l = s.len() as int;
        assert(
            d + (m * x - c) * (m * x - c)
                == m * m * (q + x * x) - 2 * m * c * (t + x) + l * c * c
        ) by (nonlinear_arith)
            requires
                d == m * m * q - 2 * m * c * t + (l - 1) * c * c,
        ;
        assert(sum_seq(s) == t + x);
        assert(sq_sum(s) == q + x * x);
        assert(dev_sq_sum(s, m, c) == d + (m * x - c) * (m * x - c));
    }
}

/// The variance numerator `n * sq_sum - sum^2` (over denominator `n^2`) is
/// `1/n` of the sum of squared deviations `(n * s[i] - sum)^2` (over
/// denominator `n^2` as well after dividing by `n^2`): the returned rational
/// is exactly the average squared deviation from the mean.
pub proof fn lemma_dev_sq_sum(s: Seq<int>, n: int, c: int)
    requires
        n == s.len(),
        c == sum_seq(s),
    ensures
        dev_sq_sum(s, n, c) == n * (n * sq_sum(s) - c * c),
{
    lemma_dev_sq_expand(s, n, c);
    assert(n * n * sq_sum(s) - 2 * n * c * c + n * c * c == n * (n * sq_sum(s) - c * c))
        by (nonlinear_arith);
}

} // verus!
