use uniform_chi::bins::bin_count;
use uniform_chi::chi::chi_squared;
use uniform_chi::sampler::sample_uniform;
use uniform_chi::stats::{mean, variance};
use uniform_chi::StatError;

#[test]
fn mean_of_constant_sample_is_the_constant() {
    // 5.0 in micro-units, four times: mean is 20/4 = 5.
    let sample = vec![5_000_000i64; 4];
    let m = mean(&sample).unwrap();
    assert_eq!(m.num, 20_000_000);
    assert_eq!(m.den, 4);
    assert_eq!(m.num, m.den * 5_000_000);
}

#[test]
fn variance_of_constant_sample_is_zero() {
    let sample = vec![-3_250_000i64; 7];
    let v = variance(&sample).unwrap();
    assert_eq!(v.num, 0);
    assert_eq!(v.den, 49);
}

#[test]
fn mean_and_variance_fail_on_empty_sample() {
    let sample: Vec<i64> = Vec::new();
    assert_eq!(mean(&sample), Err(StatError::InvalidArgument));
    assert_eq!(variance(&sample), Err(StatError::InvalidArgument));
}

#[test]
fn variance_of_two_points_is_exact() {
    // {0, 2} units: population variance is 1. In micro-units the returned
    // rational is (2 * (0 + 4e12) - (2e6)^2) / 4 = 4e12 / 4.
    let sample = vec![0i64, 2_000_000];
    let v = variance(&sample).unwrap();
    assert_eq!(v.num, 4_000_000_000_000);
    assert_eq!(v.den, 4);
}

#[test]
fn bin_count_matches_sturges_values() {
    assert_eq!(bin_count(1), Ok(1));
    assert_eq!(bin_count(2), Ok(3));
    assert_eq!(bin_count(10), Ok(5));
    assert_eq!(bin_count(100), Ok(8));
    assert_eq!(bin_count(8190), Ok(14));
    assert_eq!(bin_count(8191), Ok(15));
    assert_eq!(bin_count(1_000_000), Ok(21));
}

#[test]
fn bin_count_rejects_zero() {
    assert_eq!(bin_count(0), Err(StatError::InvalidArgument));
}

#[test]
fn bin_count_is_monotone_over_a_sweep() {
    let mut prev = 0u64;
    for n in 1..2000u64 {
        let k = bin_count(n).unwrap();
        assert!(k >= prev);
        prev = k;
    }
}

#[test]
fn chi_squared_is_zero_on_one_value_per_bin() {
    // k = 4 bins over [0, 4): one value centered in each bin.
    let sample = vec![500_000i64, 1_500_000, 2_500_000, 3_500_000];
    let x = chi_squared(&sample, 0, 4_000_000, 4).unwrap();
    assert_eq!(x.num, 0);
    assert_eq!(x.den, 16);
}

#[test]
fn chi_squared_on_skewed_sample_is_positive() {
    // All four values in the first of two bins: observed (4, 0), n = 4,
    // k = 2: numerator (2*4-4)^2 + (2*0-4)^2 = 32, denominator 8.
    let sample = vec![100_000i64, 200_000, 300_000, 400_000];
    let x = chi_squared(&sample, 0, 2_000_000, 2).unwrap();
    assert_eq!(x.num, 32);
    assert_eq!(x.den, 8);
}

#[test]
fn chi_squared_drops_values_equal_to_the_upper_bound() {
    // A value exactly at b falls in no bin: observed 0, numerator
    // (1*0 - 1)^2 = 1.
    let sample = vec![4_000_000i64];
    let x = chi_squared(&sample, 0, 4_000_000, 1).unwrap();
    assert_eq!(x.num, 1);
    assert_eq!(x.den, 1);
}

#[test]
fn chi_squared_fails_on_empty_sample_or_zero_bins() {
    let empty: Vec<i64> = Vec::new();
    assert_eq!(chi_squared(&empty, 0, 1_000_000, 2), Err(StatError::InvalidArgument));
    let sample = vec![1i64];
    assert_eq!(chi_squared(&sample, 0, 1_000_000, 0), Err(StatError::InvalidArgument));
}

#[test]
fn sampler_returns_n_values_inside_the_interval() {
    let a = -2_000_000i64;
    let b = 3_000_000i64;
    let sample = sample_uniform(a, b, 500);
    assert_eq!(sample.len(), 500);
    for x in &sample {
        assert!(a <= *x && *x < b);
    }
}

#[test]
fn sampler_with_equal_bounds_returns_the_constant() {
    let sample = sample_uniform(7_000_000, 7_000_000, 3);
    assert_eq!(sample, vec![7_000_000i64; 3]);
}

#[test]
fn sampler_with_zero_size_returns_empty() {
    let sample = sample_uniform(0, 1_000_000, 0);
    assert!(sample.is_empty());
}
