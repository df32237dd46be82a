//! Bin count selection by Sturges' rule.

use vstd::prelude::*;
use crate::{StatError, MAX_N};

verus! {

/// Sturges' bin count `ceil(1 + 3.322 * log10(n))` for `1 <= n <= MAX_N`.
///
/// The constant is exactly `1661/500`, so the result steps from `m - 1` to
/// `m` at the smallest `n` with `n^1661 > 10^(500*(m-2))`, that is at
/// `n = floor(10^(500*(m-2)/1661)) + 1`. The branch bounds below are those
/// exact crossover points; because `500/1661` is marginally smaller than
/// `log10(2)`, each lies at or just below a power of two.
pub open spec fn bin_count_spec(n: int) -> int {
    if n < 2 {
        1
    } else if n < 4 {
        3
    } else if n < 8 {
        4
    } else if n < 16 {
        5
    } else if n < 32 {
        6
    } else if n < 64 {
        7
    } else if n < 128 {
        8
    } else if n < 256 {
        9
    } else if n < 512 {
        10
    } else if n < 1024 {
        11
    } else if n < 2048 {
        12
    } else if n < 4096 {
        13
    } else if n < 8191 {
        14
    } else if n < 16381 {
        15
    } else if n < 32761 {
        16
    } else if n < 65521 {
        17
    } else if n < 131039 {
        18
    } else if n < 262074 {
        19
    } else if n < 524139 {
        20
    } else {
        21
    }
}

/// Number of histogram bins for a sample of size `n`, by Sturges' rule.
/// Fails exactly when `n` is zero (the formula is undefined there).
pub fn bin_count(n: u64) -> (r: Result<u64, StatError>)
    requires
        n <= MAX_N,
    ensures
        r is Ok <==> n >= 1,
        r is Err ==> r == Result::<u64, StatError>::Err(StatError::InvalidArgument),
        r matches Ok(k) ==> k == bin_count_spec(n as int) && 1 <= k <= 21,
{
    if n == 0 {
        Err(StatError::InvalidArgument)
    } else if n < 2 {
        Ok(1)
    } else if n < 4 {
        Ok(3)
    } else if n < 8 {
        Ok(4)
    } else if n < 16 {
        Ok(5)
    } else if n < 32 {
        Ok(6)
    } else if n < 64 {
        Ok(7)
    } else if n < 128 {
        Ok(8)
    } else if n < 256 {
        Ok(9)
    } else if n < 512 {
        Ok(10)
    } else if n < 1024 {
        Ok(11)
    } else if n < 2048 {
        Ok(12)
    } else if n < 4096 {
        Ok(13)
    } else if n < 8191 {
        Ok(14)
    } else if n < 16381 {
        Ok(15)
    } else if n < 32761 {
        Ok(16)
    } else if n < 65521 {
        Ok(17)
    } else if n < 131039 {
        Ok(18)
    } else if n < 262074 {
        Ok(19)
    } else if n < 524139 {
        Ok(20)
    } else {
        Ok(21)
    }
}

/// Law: the bin count is monotonically non-decreasing in the sample size,
/// and takes the exact Sturges values at representative sizes:
/// `bin_count(1) == 1`, `bin_count(10) == 5` (from `1 + 3.322 = 4.322`),
/// and `bin_count(100) == 8` (from `1 + 6.644 = 7.644`).
pub proof fn lemma_bin_count_monotone(n1: int, n2: int)
    requires
        1 <= n1 <= n2,
    ensures
        bin_count_spec(n1) <= bin_count_spec(n2),
        bin_count_spec(1) == 1,
        bin_count_spec(10) == 5,
        bin_count_spec(100) == 8,
        1 <= bin_count_spec(n1) <= 21,
{
}

} // verus!
