//! A verified uniform-distribution goodness-of-fit experiment: draw a
//! sample uniformly from `[a, b)`, estimate its mean and population
//! variance exactly, choose a histogram bin count by Sturges' rule,
//! compute Pearson's chi-squared statistic against the uniform hypothesis,
//! and render a text report.
//!
//! All values are exact: sample values and bounds are fixed-point numbers
//! in micro-units (`i64`, see [`SCALE`]), and every statistic is an exact
//! rational [`Rat`]. Only the raw random draw comes from outside, through
//! one trusted wrapper in [`sampler`].

use vstd::prelude::*;

pub mod stats;
pub mod bins;
pub mod chi;
pub mod sampler;
pub mod parse;
pub mod report;
pub mod pipeline;

verus! {

/// Largest sample size the library supports. The statistic computations
/// square sums over the sample, so the size is bounded to keep every
/// intermediate value inside `i128`.
pub const MAX_N: u64 = 1000000;

/// Sample values are fixed-point numbers in micro-units: a stored `i64`
/// value `v` stands for the real number `v / 1_000_000`. Magnitudes are
/// bounded so that sums of squares over a sample fit in `i128`.
pub const MAX_ABS: i64 = 1000000000000;

/// Number of micro-units per unit.
pub const SCALE: i64 = 1000000;

/// An exact rational number `num / den`, not necessarily in lowest terms.
#[derive(Clone, Copy, Debug, PartialEq, Eq, Structural)]
pub struct Rat {
    pub num: i128,
    pub den: i128,
}

/// The failures the library reports: a malformed parameter source, an
/// argument outside a function's domain, and a theory table shorter than
/// the bin count.
#[derive(Clone, Copy, Debug, PartialEq, Eq, Structural)]
pub enum StatError {
    ParseError,
    InvalidArgument,
    IndexOutOfRange,
}

/// Every element of `s` has magnitude at most `bound`.
pub open spec fn seq_bounded(s: Seq<int>, bound: int) -> bool {
    forall|i: int| 0 <= i < s.len() ==> -bound <= #[trigger] s[i] <= bound
}

/// The view of a sample as a sequence of mathematical integers.
pub open spec fn sample_view(s: Seq<i64>) -> Seq<int> {
    s.map_values(|x: i64| x as int)
}

/// A sample the library's statistics accept: bounded length and bounded
/// element magnitudes.
pub open spec fn valid_sample(s: Seq<i64>) -> bool {
    s.len() <= MAX_N && seq_bounded(sample_view(s), MAX_ABS as int)
}

} // verus!
