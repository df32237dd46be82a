//! The whole experiment as one verified pipeline: parse the parameter
//! source, pick the bin count, draw the sample, estimate the moments,
//! compute the chi-squared statistic, and render the report.

use vstd::prelude::*;
use crate::{Rat, StatError, valid_sample, sample_view, MAX_N, MAX_ABS};
use crate::parse::{
    parse_params, params_valid, tokens_of, line1_of, line2_of, fixed_val, digits_val,
};
use crate::bins::{bin_count, bin_count_spec};
use crate::sampler::sample_uniform;
use crate::stats::{mean, variance, sum_seq, sq_sum, lemma_sum_seq_bound, lemma_sq_sum_bound};
use crate::chi::{chi_squared, chi_num};
use crate::report::{render_report, report_chars};

verus! {

/// The lower bound the source denotes, in micro-units.
pub open spec fn spec_a(s: Seq<u8>) -> int {
    fixed_val(tokens_of(line1_of(s))[0])
}

/// The upper bound the source denotes, in micro-units.
pub open spec fn spec_b(s: Seq<u8>) -> int {
    fixed_val(tokens_of(line1_of(s))[1])
}

/// The sample size the source denotes.
pub open spec fn spec_n(s: Seq<u8>) -> int {
    digits_val(tokens_of(line1_of(s))[2])
}

/// The number of theory-table entries the source denotes.
pub open spec fn spec_theory_len(s: Seq<u8>) -> int {
    tokens_of(line2_of(s)).len() as int
}

/// The critical value the report uses: the theory-table entry at index
/// `k - 1`, where `k` is the bin count for the source's sample size.
pub open spec fn spec_crit(s: Seq<u8>) -> int {
    fixed_val(tokens_of(line2_of(s))[bin_count_spec(spec_n(s)) - 1])
}

/// Looks up the theoretical chi-squared critical value for `k` degrees of
/// freedom: the table entry at index `k - 1`. Fails exactly when the table
/// has fewer than `k` entries.
pub fn lookup_critical(theory: &Vec<i64>, k: u64) -> (r: Result<i64, StatError>)
    requires
        k >= 1,
    ensures
        r is Ok <==> theory@.len() >= k,
        r is Err ==> r == Result::<i64, StatError>::Err(StatError::IndexOutOfRange),
        r matches Ok(v) ==> v == theory@[k - 1],
{
    if (theory.len() as u64) < k {
        Err(StatError::IndexOutOfRange)
    } else {
        Ok(theory[(k - 1) as usize])
    }
}

/// What the sampler may hand the pipeline for this source: exactly `n`
/// values, each in `[a, b)` (each equal to `a` when `a == b`).
pub open spec fn is_experiment_sample(s: Seq<u8>, sample: Seq<i64>) -> bool {
    let a = spec_a(s);
    let b = spec_b(s);
    sample.len() == spec_n(s) && (forall|i: int|
        0 <= i < sample.len() ==> a <= #[trigger] sample[i] <= b && (a < b ==> sample[i] < b) && (a
            == b ==> sample[i] == a))
}

/// The report text the pipeline produces for a given source and a given
/// drawn sample: every field is a function of those two alone.
pub open spec fn experiment_report(s: Seq<u8>, sample: Seq<i64>) -> Seq<char> {
    let a = spec_a(s);
    let b = spec_b(s);
    let n = spec_n(s);
    let k = bin_count_spec(n);
    let vals = sample_view(sample);
    report_chars(
        a,
        b,
        n,
        k,
        vals,
        sum_seq(vals),
        n,
        n * sq_sum(vals) - sum_seq(vals) * sum_seq(vals),
        n * n,
        spec_crit(s),
        chi_num(vals, a, b, k, k),
        n * k,
    )
}

/// Runs the whole experiment on a parameter source. A malformed source is
/// a `ParseError`; a sample size of zero or bounds with `a > b` are an
/// `InvalidArgument`; a theory table shorter than the bin count is an
/// `IndexOutOfRange`. On every other source the run succeeds, and the
/// report is `experiment_report` of the source and some sample of `n`
/// values from `[a, b)`; which sample is drawn is left open.
pub fn run_experiment(input: &[u8]) -> (r: Result<String, StatError>)
    ensures
        r == Result::<String, StatError>::Err(StatError::ParseError) <==> !params_valid(input@),
        params_valid(input@) && (spec_n(input@) == 0 || spec_a(input@) > spec_b(input@)) <==> r
            == Result::<String, StatError>::Err(StatError::InvalidArgument),
        params_valid(input@) && spec_n(input@) >= 1 && spec_a(input@) <= spec_b(input@) ==> (r
            is Ok <==> spec_theory_len(input@) >= bin_count_spec(spec_n(input@))),
        params_valid(input@) && spec_n(input@) >= 1 && spec_a(input@) <= spec_b(input@)
            && spec_theory_len(input@) < bin_count_spec(spec_n(input@)) ==> r == Result::<
            String,
            StatError,
        >::Err(StatError::IndexOutOfRange),
        r matches Ok(out) ==> exists|sample: Seq<i64>|
            #[trigger] is_experiment_sample(input@, sample) && out@ == experiment_report(
                input@,
                sample,
            ),
{
    let p = match parse_params(input) {
        Ok(p) => p,
        Err(_) => {
            return Err(StatError::ParseError);
        },
    };
    let k = match bin_count(p.n) {
        Ok(k) => k,
        Err(_) => {
            return Err(StatError::InvalidArgument);
        },
    };
    if p.a > p.b {
        return Err(StatError::InvalidArgument);
    }
    let sample = sample_uniform(p.a, p.b, p.n);
    let m = match mean(&sample) {
        Ok(m) => m,
        Err(_) => {
            return Err(StatError::InvalidArgument);
        },
    };
    let v = match variance(&sample) {
        Ok(v) => v,
        Err(_) => {
            return Err(StatError::InvalidArgument);
        },
    };
    let x = match chi_squared(&sample, p.a, p.b, k) {
        Ok(x) => x,
        Err(_) => {
            return Err(StatError::InvalidArgument);
        },
    };
    let crit = match lookup_critical(&p.theory, k) {
        Ok(c) => c,
        Err(_) => {
            return Err(StatError::IndexOutOfRange);
        },
    };
    proof {
        let vals = sample_view(sample@);
        lemma_sum_seq_bound(vals, MAX_ABS as int);
        lemma_sq_sum_bound(vals, MAX_ABS as int);
        assert(
            -1000000000000000000 <= sum_seq(vals) <= 1000000000000000000
                && 0 <= sq_sum(vals) <= 1000000000000000000000000000000
        ) by (nonlinear_arith)
            requires
                -1000000000000 * vals.len() <= sum_seq(vals) <= 1000000000000 * vals.len(),
                0 <= sq_sum(vals) <= 1000000000000 * 1000000000000 * vals.len(),
                vals.len() <= 1000000,
        ;
        assert(
            -1000000000000000000000000000000000000 <= (vals.len() as int) * sq_sum(vals) - sum_seq(
                vals,
            ) * sum_seq(vals) <= 1000000000000000000000000000000000000
        ) by (nonlinear_arith)
            requires
                -1000000000000000000 <= sum_seq(vals) <= 1000000000000000000,
                0 <= sq_sum(vals) <= 1000000000000000000000000000000,
                vals.len() <= 1000000,
        ;
        assert(1 <= (vals.len() as int) * (vals.len() as int) <= 1000000000000)
            by (nonlinear_arith)
            requires
                1 <= vals.len() <= 1000000,
        ;
    }
    let out = render_report(p.a, p.b, p.n, k, &sample, m, v, crit, x);
    proof {
        assert(is_experiment_sample(input@, sample@));
        assert(out@ == experiment_report(input@, sample@));
    }
    Ok(out)
}

} // verus!
