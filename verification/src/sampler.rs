//! Drawing a uniform synthetic sample from `[a, b)`.

use vstd::prelude::*;
use crate::{valid_sample, MAX_N, MAX_ABS};

verus! {

/// Relies on `rand::random_range` (the thread-local generator seeded from
/// process entropy): returns a value of the given range and panics only on
/// an empty range. Nothing is assumed about which value comes back.
#[verifier::external_body]
fn random_below(bound: u64) -> (r: u64)
    requires
        bound >= 1,
    ensures
        r < bound,
{
    rand::random_range(0..bound)
}

/// Draws `n` values independently and uniformly from the half-open
/// interval `[a, b)`, in fixed-point micro-units. Every returned value `x`
/// satisfies `a <= x < b`; the degenerate `a == b` is permitted and yields
/// a constant sample of value `a`. No reproducibility is promised: two
/// calls on the same arguments may return different samples.
pub fn sample_uniform(a: i64, b: i64, n: u64) -> (r: Vec<i64>)
    requires
        -MAX_ABS <= a <= b <= MAX_ABS,
        n <= MAX_N,
    ensures
        r@.len() == n,
        valid_sample(r@),
        forall|i: int|
            0 <= i < r@.len() ==> a <= #[trigger] r@[i] <= b && (a < b ==> r@[i] < b) && (a == b
                ==> r@[i] == a),
{
    let span = (b - a) as u64;
    let mut out: Vec<i64> = Vec::new();
    let mut i: u64 = 0;
    while i < n
        invariant
            0 <= i <= n,
            n <= MAX_N,
            -MAX_ABS <= a <= b <= MAX_ABS,
            span == b - a,
            out@.len() == i,
            forall|j: int|
                0 <= j < out@.len() ==> a <= #[trigger] out@[j] <= b && (a < b ==> out@[j] < b) && (
                a == b ==> out@[j] == a),
        decreases n - i,
    {
        if span == 0 {
            out.push(a);
        } else {
            let u = random_below(span);
            out.push(a + (u as i64));
        }
        i = i + 1;
    }
    proof {
        assert(valid_sample(out@)) by {
            assert(forall|j: int|
                0 <= j < out@.len() ==> -(MAX_ABS as int) <= #[trigger] crate::sample_view(
                    out@,
                )[j] <= MAX_ABS as int);
        }
    }
    out
}

} // verus!
