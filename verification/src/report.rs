//! The report writer: renders every input and computed statistic into a
//! deterministic text block, character-for-character pinned by the spec.

use vstd::prelude::*;
use crate::{Rat, valid_sample, sample_view, MAX_ABS};
use vstd::string::StringExecFns;

verus! {

/// The character for a single decimal digit.
pub open spec fn digit_char(d: int) -> char {
    if d == 0 {
        '0'
    } else if d == 1 {
        '1'
    } else if d == 2 {
        '2'
    } else if d == 3 {
        '3'
    } else if d == 4 {
        '4'
    } else if d == 5 {
        '5'
    } else if d == 6 {
        '6'
    } else if d == 7 {
        '7'
    } else if d == 8 {
        '8'
    } else {
        '9'
    }
}

/// Decimal digits of a non-negative number, most significant first.
pub open spec fn dec_str(n: nat) -> Seq<char>
    decreases n,
{
    if n < 10 {
        seq![digit_char(n as int)]
    } else {
        dec_str(n / 10).push(digit_char((n % 10) as int))
    }
}

/// A possibly negative number in decimal.
pub open spec fn int_str(v: int) -> Seq<char> {
    if v < 0 {
        seq!['-'] + dec_str((-v) as nat)
    } else {
        dec_str(v as nat)
    }
}

/// Exactly six digits, zero-padded: the fraction part of a fixed-point
/// value in micro-units.
pub open spec fn pad6_chars(f: int) -> Seq<char> {
    seq![
        digit_char(f / 100000 % 10),
        digit_char(f / 10000 % 10),
        digit_char(f / 1000 % 10),
        digit_char(f / 100 % 10),
        digit_char(f / 10 % 10),
        digit_char(f % 10),
    ]
}

/// A fixed-point micro-unit value as a signed decimal with six fraction
/// digits.
pub open spec fn fixed_str(v: int) -> Seq<char> {
    if v < 0 {
        seq!['-'] + fixed_mag_str(-v)
    } else {
        fixed_mag_str(v)
    }
}

/// Magnitude part of `fixed_str`.
pub open spec fn fixed_mag_str(m: int) -> Seq<char> {
    dec_str((m / 1000000) as nat) + seq!['.'] + pad6_chars(m % 1000000)
}

/// An exact rational as `numerator/denominator`.
pub open spec fn rat_str(num: int, den: int) -> Seq<char> {
    int_str(num) + seq!['/'] + int_str(den)
}

/// The sample values, comma-separated.
pub open spec fn items_str(s: Seq<int>) -> Seq<char>
    decreases s.len(),
{
    if s.len() == 0 {
        Seq::empty()
    } else if s.len() == 1 {
        fixed_str(s[0])
    } else {
        items_str(s.drop_last()) + seq![',', ' '] + fixed_str(s.last())
    }
}

/// A single decimal digit as text.
fn digit_str(d: u128) -> (r: &'static str)
    requires
        d < 10,
    ensures
        r@ == seq![digit_char(d as int)],
{
    proof {
        reveal_strlit("0");
        reveal_strlit("1");
        reveal_strlit("2");
        reveal_strlit("3");
        reveal_strlit("4");
        reveal_strlit("5");
        reveal_strlit("6");
        reveal_strlit("7");
        reveal_strlit("8");
        reveal_strlit("9");
    }
    if d == 0 {
        "0"
    } else if d == 1 {
        "1"
    } else if d == 2 {
        "2"
    } else if d == 3 {
        "3"
    } else if d == 4 {
        "4"
    } else if d == 5 {
        "5"
    } else if d == 6 {
        "6"
    } else if d == 7 {
        "7"
    } else if d == 8 {
        "8"
    } else {
        "9"
    }
}

/// A non-negative number in decimal.
fn u128_str(n: u128) -> (r: String)
    ensures
        r@ == dec_str(n as nat),
    decreases n,
{
    if n < 10 {
        String::from_str(digit_str(n))
    } else {
        let mut s = u128_str(n / 10);
        s.append(digit_str(n % 10));
        proof {
            assert(s@ =~= dec_str(n as nat));
        }
        s
    }
}

/// A signed number in decimal.
fn i128_str(v: i128) -> (r: String)
    requires
        v > i128::MIN,
    ensures
        r@ == int_str(v as int),
{
    if v < 0 {
        proof {
            reveal_strlit("-");
        }
        let mut s = String::from_str("-");
        let m = u128_str((-v) as u128);
        s.append(m.as_str());
        proof {
            assert(s@ =~= int_str(v as int));
        }
        s
    } else {
        u128_str(v as u128)
    }
}

/// Six zero-padded fraction digits.
fn pad6(f: u64) -> (r: String)
    requires
        f < 1000000,
    ensures
        r@ == pad6_chars(f as int),
{
    let mut s = String::from_str(digit_str(((f / 100000) % 10) as u128));
    s.append(digit_str(((f / 10000) % 10) as u128));
    s.append(digit_str(((f / 1000) % 10) as u128));
    s.append(digit_str(((f / 100) % 10) as u128));
    s.append(digit_str(((f / 10) % 10) as u128));
    s.append(digit_str((f % 10) as u128));
    proof {
        assert(s@ =~= pad6_chars(f as int));
    }
    s
}

/// A fixed-point micro-unit value as signed decimal text.
pub fn fixed6_str(v: i64) -> (r: String)
    requires
        -MAX_ABS <= v <= MAX_ABS,
    ensures
        r@ == fixed_str(v as int),
{
    let m: u64 = if v < 0 {
        (-v) as u64
    } else {
        v as u64
    };
    let mut s = if v < 0 {
        proof {
            reveal_strlit("-");
        }
        String::from_str("-")
    } else {
        String::new()
    };
    let whole = u128_str((m / 1000000) as u128);
    s.append(whole.as_str());
    proof {
        reveal_strlit(".");
    }
    s.append(".");
    let frac = pad6(m % 1000000);
    s.append(frac.as_str());
    proof {
        assert(s@ =~= fixed_str(v as int));
    }
    s
}

/// An exact rational as `numerator/denominator` text.
fn rat_text(num: i128, den: i128) -> (r: String)
    requires
        num > i128::MIN,
        den > i128::MIN,
    ensures
        r@ == rat_str(num as int, den as int),
{
    let mut s = i128_str(num);
    proof {
        reveal_strlit("/");
    }
    s.append("/");
    let d = i128_str(den);
    s.append(d.as_str());
    proof {
        assert(s@ =~= rat_str(num as int, den as int));
    }
    s
}

/// The comma-separated sample listing.
fn sample_items(sample: &Vec<i64>) -> (r: String)
    requires
        valid_sample(sample@),
    ensures
        r@ == items_str(sample_view(sample@)),
{
    let ghost vals = sample_view(sample@);
    if sample.len() == 0 {
        return String::new();
    }
    proof {
        assert(-(MAX_ABS as int) <= vals[0] <= MAX_ABS as int);
    }
    let mut s = fixed6_str(sample[0]);
    proof {
        assert(vals.take(1) =~= seq![vals[0]]);
        assert(s@ =~= items_str(vals.take(1)));
    }
    let mut i: usize = 1;
    while i < sample.len()
        invariant
            1 <= i <= sample@.len(),
            valid_sample(sample@),
            vals == sample_view(sample@),
            s@ == items_str(vals.take(i as int)),
        decreases sample@.len() - i,
    {
        proof {
            reveal_strlit(", ");
        }
        s.append(", ");
        proof {
            assert(-(MAX_ABS as int) <= vals[i as int] <= MAX_ABS as int);
        }
        let item = fixed6_str(sample[i]);
        s.append(item.as_str());
        proof {
            assert(vals.take(i + 1).drop_last() =~= vals.take(i as int));
            assert(s@ =~= items_str(vals.take(i + 1)));
        }
        i = i + 1;
    }
    proof {
        assert(vals.take(sample@.len() as int) =~= vals);
    }
    s
}

/// The full report text: input parameters, bin count, the raw sample, the
/// theoretical and empirical mean and variance, the fixed significance
/// level of the experiment design, and the critical and empirical
/// chi-squared values. Bounds `a`, `b` and the critical value print as
/// fixed-point decimals; the exact rational statistics print as
/// `numerator/denominator` in natural units.
pub open spec fn report_chars(
    a: int,
    b: int,
    n: int,
    k: int,
    s: Seq<int>,
    mean_num: int,
    mean_den: int,
    var_num: int,
    var_den: int,
    crit: int,
    chi_num: int,
    chi_den: int,
) -> Seq<char> {
    "Input parameters: a = "@ + fixed_str(a) + ", b = "@ + fixed_str(b) + ", N = "@ + dec_str(
        n as nat,
    ) + "\n"@ + "Number of intervals: "@ + dec_str(k as nat) + "\n"@ + "Generated sample: ["@
        + items_str(s) + "]\n"@ + "Theoretical mean: "@ + rat_str(a + b, 2000000) + "\n"@
        + "Empirical mean: "@ + rat_str(mean_num, mean_den * 1000000) + "\n"@
        + "Theoretical variance: "@ + rat_str((b - a) * (b - a), 12000000000000) + "\n"@
        + "Empirical variance: "@ + rat_str(var_num, var_den * 1000000000000) + "\n"@
        + "Significance level: 0.05\n"@ + "Chi-squared (critical): "@ + fixed_str(crit) + "\n"@
        + "Chi-squared (empirical): "@ + rat_str(chi_num, chi_den) + "\n"@
}

/// Renders the report for the given inputs and computed statistics. The
/// result is pinned character-for-character by `report_chars`: rendering
/// is deterministic, and rendering the same values twice gives the same
/// text.
pub fn render_report(
    a: i64,
    b: i64,
    n: u64,
    k: u64,
    sample: &Vec<i64>,
    mean_e: Rat,
    var_e: Rat,
    crit: i64,
    chi: Rat,
) -> (r: String)
    requires
        valid_sample(sample@),
        -MAX_ABS <= a <= MAX_ABS,
        -MAX_ABS <= b <= MAX_ABS,
        -MAX_ABS <= crit <= MAX_ABS,
        -1000000000000000000 <= mean_e.num <= 1000000000000000000,
        1 <= mean_e.den <= 1000000000000,
        -1000000000000000000000000000000000000 <= var_e.num
            <= 1000000000000000000000000000000000000,
        1 <= var_e.den <= 1000000000000,
        0 <= chi.num,
        1 <= chi.den,
    ensures
        r@ == report_chars(
            a as int,
            b as int,
            n as int,
            k as int,
            sample_view(sample@),
            mean_e.num as int,
            mean_e.den as int,
            var_e.num as int,
            var_e.den as int,
            crit as int,
            chi.num as int,
            chi.den as int,
        ),
{
    proof {
        reveal_strlit("\n");
    }
    let mut s = String::new();
    proof {
        reveal_strlit("Input parameters: a = ");
    }
    s.append("Input parameters: a = ");
    let fa = fixed6_str(a);
    s.append(fa.as_str());
    proof {
        reveal_strlit(", b = ");
    }
    s.append(", b = ");
    let fb = fixed6_str(b);
    s.append(fb.as_str());
    proof {
        reveal_strlit(", N = ");
    }
    s.append(", N = ");
    let fn_ = u128_str(n as u128);
    s.append(fn_.as_str());
    s.append("\n");
    proof {
        reveal_strlit("Number of intervals: ");
    }
    s.append("Number of intervals: ");
    let fk = u128_str(k as u128);
    s.append(fk.as_str());
    s.append("\n");
    proof {
        reveal_strlit("Generated sample: [");
        reveal_strlit("]\n");
    }
    s.append("Generated sample: [");
    let items = sample_items(sample);
    s.append(items.as_str());
    s.append("]\n");
    proof {
        reveal_strlit("Theoretical mean: ");
    }
    s.append("Theoretical mean: ");
    let mt = rat_text((a as i128) + (b as i128), 2000000);
    s.append(mt.as_str());
    s.append("\n");
    proof {
        reveal_strlit("Empirical mean: ");
    }
    s.append("Empirical mean: ");
    let me = rat_text(mean_e.num, mean_e.den * 1000000);
    s.append(me.as_str());
    s.append("\n");
    proof {
        reveal_strlit("Theoretical variance: ");
    }
    s.append("Theoretical variance: ");
    let w = (b as i128) - (a as i128);
    proof {
        assert(-4000000000000000000000000 <= w * w <= 4000000000000000000000000)
            by (nonlinear_arith)
            requires
                -2000000000000 <= w <= 2000000000000,
        ;
    }
    let vt = rat_text(w * w, 12000000000000);
    s.append(vt.as_str());
    s.append("\n");
    proof {
        reveal_strlit("Empirical variance: ");
    }
    s.append("Empirical variance: ");
    let ve = rat_text(var_e.num, var_e.den * 1000000000000);
    s.append(ve.as_str());
    s.append("\n");
    proof {
        reveal_strlit("Significance level: 0.05\n");
    }
    s.append("Significance level: 0.05\n");
    proof {
        reveal_strlit("Chi-squared (critical): ");
    }
    s.append("Chi-squared (critical): ");
    let fc = fixed6_str(crit);
    s.append(fc.as_str());
    s.append("\n");
    proof {
        reveal_strlit("Chi-squared (empirical): ");
    }
    s.append("Chi-squared (empirical): ");
    let fx = rat_text(chi.num, chi.den);
    s.append(fx.as_str());
    s.append("\n");
    proof {
        assert(s@ =~= report_chars(
            a as int,
            b as int,
            n as int,
            k as int,
            sample_view(sample@),
            mean_e.num as int,
            mean_e.den as int,
            var_e.num as int,
            var_e.den as int,
            crit as int,
            chi.num as int,
            chi.den as int,
        ));
    }
    s
}

} // verus!
