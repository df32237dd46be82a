use uniform_chi::parse::parse_params;
use uniform_chi::pipeline::{lookup_critical, run_experiment};
use uniform_chi::report::{fixed6_str, render_report};
use uniform_chi::{Rat, StatError};

#[test]
fn fixed_point_values_format_with_six_fraction_digits() {
    assert_eq!(fixed6_str(0), "0.000000");
    assert_eq!(fixed6_str(42), "0.000042");
    assert_eq!(fixed6_str(-1_234_567), "-1.234567");
    assert_eq!(fixed6_str(1_000_000_000_000), "1000000.000000");
}

#[test]
fn parse_reads_bounds_size_and_theory_table() {
    let p = parse_params(b"0 10 100\n1.1 2.2 3.3\n").unwrap();
    assert_eq!(p.a, 0);
    assert_eq!(p.b, 10_000_000);
    assert_eq!(p.n, 100);
    assert_eq!(p.theory, vec![1_100_000i64, 2_200_000, 3_300_000]);
}

#[test]
fn parse_accepts_signs_dots_and_extra_whitespace() {
    let p = parse_params(b"  -1.5\t+2.25 10 ignored\n .5 7. -0.1234567\n").unwrap();
    assert_eq!(p.a, -1_500_000);
    assert_eq!(p.b, 2_250_000);
    assert_eq!(p.n, 10);
    // fraction digits beyond the sixth are truncated toward zero
    assert_eq!(p.theory, vec![500_000i64, 7_000_000, -123_456]);
}

#[test]
fn parse_fails_without_a_second_line() {
    assert_eq!(parse_params(b""), Err(StatError::ParseError));
    assert_eq!(parse_params(b"1 2 3"), Err(StatError::ParseError));
}

#[test]
fn parse_fails_on_too_few_tokens() {
    assert_eq!(parse_params(b"1 2\n0.5\n"), Err(StatError::ParseError));
}

#[test]
fn parse_fails_on_malformed_numbers() {
    assert_eq!(parse_params(b"x 2 3\n1\n"), Err(StatError::ParseError));
    assert_eq!(parse_params(b"1 2 3.5\n1\n"), Err(StatError::ParseError));
    assert_eq!(parse_params(b"1 2 3\nfoo\n"), Err(StatError::ParseError));
    assert_eq!(parse_params(b"1 2 3\n1..2\n"), Err(StatError::ParseError));
}

#[test]
fn parse_fails_on_sign_or_dot_alone() {
    assert_eq!(parse_params(b"- 2 3\n1\n"), Err(StatError::ParseError));
    assert_eq!(parse_params(b"+ 2 3\n1\n"), Err(StatError::ParseError));
    assert_eq!(parse_params(b". 2 3\n1\n"), Err(StatError::ParseError));
    assert_eq!(parse_params(b"-. 2 3\n1\n"), Err(StatError::ParseError));
}

#[test]
fn parse_handles_windows_line_endings() {
    let p = parse_params(b"1 2 3\r\n0.5\r\n").unwrap();
    assert_eq!(p.a, 1_000_000);
    assert_eq!(p.b, 2_000_000);
    assert_eq!(p.n, 3);
    assert_eq!(p.theory, vec![500_000i64]);
}

#[test]
fn parse_ignores_lines_beyond_the_second() {
    let p = parse_params(b"1 2 3\n0.5\nthis line is ignored\n").unwrap();
    assert_eq!(p.theory, vec![500_000i64]);
}

#[test]
fn parse_fails_outside_the_numeric_domain() {
    // sample size above the supported maximum
    assert_eq!(parse_params(b"0 1 2000000\n1\n"), Err(StatError::ParseError));
    // bound above the fixed-point range
    assert_eq!(parse_params(b"2000000.5 1 3\n1\n"), Err(StatError::ParseError));
}

#[test]
fn lookup_critical_uses_index_k_minus_one() {
    let theory = vec![3_840_000i64, 5_990_000, 7_810_000];
    assert_eq!(lookup_critical(&theory, 2), Ok(5_990_000));
    assert_eq!(lookup_critical(&theory, 3), Ok(7_810_000));
    assert_eq!(lookup_critical(&theory, 4), Err(StatError::IndexOutOfRange));
}

#[test]
fn render_report_is_exact_and_deterministic() {
    let sample = vec![0i64, 500_000];
    let mean_e = Rat { num: 500_000, den: 2 };
    let var_e = Rat { num: 250_000_000_000, den: 4 };
    let chi = Rat { num: 1, den: 6 };
    let first = render_report(0, 1_000_000, 2, 3, &sample, mean_e, var_e, 3_840_000, chi);
    let second = render_report(0, 1_000_000, 2, 3, &sample, mean_e, var_e, 3_840_000, chi);
    assert_eq!(first, second);
    let expected = "Input parameters: a = 0.000000, b = 1.000000, N = 2\n\
                    Number of intervals: 3\n\
                    Generated sample: [0.000000, 0.500000]\n\
                    Theoretical mean: 1000000/2000000\n\
                    Empirical mean: 500000/2000000\n\
                    Theoretical variance: 1000000000000/12000000000000\n\
                    Empirical variance: 250000000000/4000000000000\n\
                    Significance level: 0.05\n\
                    Chi-squared (critical): 3.840000\n\
                    Chi-squared (empirical): 1/6\n";
    assert_eq!(first, expected);
}

#[test]
fn report_round_trips_through_bytes_unchanged() {
    let sample = vec![1_000_000i64];
    let mean_e = Rat { num: 1_000_000, den: 1 };
    let var_e = Rat { num: 0, den: 1 };
    let chi = Rat { num: 0, den: 1 };
    let report = render_report(0, 2_000_000, 1, 1, &sample, mean_e, var_e, 100_000, chi);
    let bytes = report.as_bytes().to_vec();
    let reread = String::from_utf8(bytes).unwrap();
    assert_eq!(reread, report);
}

#[test]
fn run_experiment_end_to_end() {
    let input = b"0 10 100\n1 2 3 4 5 6 7 8\n";
    let first = run_experiment(input).unwrap();
    assert!(first.contains("Input parameters: a = 0.000000, b = 10.000000, N = 100\n"));
    assert!(first.contains("Number of intervals: 8\n"));
    assert!(first.contains("Theoretical mean: 10000000/2000000\n"));
    assert!(first.contains("Chi-squared (critical): 8.000000\n"));
    assert!(first.contains("Chi-squared (empirical): "));
    // the statistic is a ratio of non-negative integers
    let chi_line = first.lines().last().unwrap();
    let chi_value = chi_line.strip_prefix("Chi-squared (empirical): ").unwrap();
    assert!(!chi_value.contains('-'));
    // a second run keeps the structure: same fields, same labels
    let second = run_experiment(input).unwrap();
    for label in [
        "Input parameters: ",
        "Number of intervals: ",
        "Generated sample: [",
        "Theoretical mean: ",
        "Empirical mean: ",
        "Theoretical variance: ",
        "Empirical variance: ",
        "Significance level: 0.05",
        "Chi-squared (critical): ",
        "Chi-squared (empirical): ",
    ] {
        assert!(first.contains(label));
        assert!(second.contains(label));
    }
    assert_eq!(first.lines().count(), second.lines().count());
}

#[test]
fn run_experiment_reports_each_failure() {
    assert_eq!(run_experiment(b"bad input\n1\n"), Err(StatError::ParseError));
    assert_eq!(run_experiment(b"0 1 0\n1\n"), Err(StatError::InvalidArgument));
    assert_eq!(run_experiment(b"5 2 10\n1 2 3 4 5\n"), Err(StatError::InvalidArgument));
    // bin count for n = 100 is 8, but only three critical values are given
    assert_eq!(run_experiment(b"0 10 100\n1 2 3\n"), Err(StatError::IndexOutOfRange));
}

#[test]
fn run_experiment_permits_equal_bounds() {
    // a == b yields a constant sample; one bin holds everything
    let out = run_experiment(b"2.5 2.5 4\n1 2 3 4 5\n").unwrap();
    assert!(out.contains("Generated sample: [2.500000, 2.500000, 2.500000, 2.500000]\n"));
    assert!(out.contains("Empirical mean: 10000000/4000000\n"));
    assert!(out.contains("Empirical variance: 0/16000000000000\n"));
}
