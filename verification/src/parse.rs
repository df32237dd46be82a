//! The parameter loader: parsing the two-line parameter source into bounds,
//! sample size and the theory table, over bytes handed in by the caller.

use vstd::prelude::*;
use crate::{StatError, MAX_N, MAX_ABS, SCALE};

verus! {

/// Whitespace inside a line: space, tab, carriage return.
pub open spec fn is_ws(c: u8) -> bool {
    c == 32 || c == 9 || c == 13
}

/// An ASCII decimal digit.
pub open spec fn is_digit(c: u8) -> bool {
    48 <= c <= 57
}

/// Index of the first occurrence of `c` in `s`, or `s.len()` if absent.
pub open spec fn find_byte(s: Seq<u8>, c: u8) -> int
    decreases s.len(),
{
    if s.len() == 0 {
        0
    } else if s[0] == c {
        0
    } else {
        1 + find_byte(s.drop_first(), c)
    }
}

/// `find_byte` returns the unique index bounded by the length such that
/// everything before it differs from `c` and, when inside the sequence,
/// the byte there is `c`.
pub proof fn lemma_find_byte(s: Seq<u8>, c: u8)
    ensures
        0 <= find_byte(s, c) <= s.len(),
        find_byte(s, c) < s.len() ==> s[find_byte(s, c)] == c,
        forall|j: int| 0 <= j < find_byte(s, c) ==> s[j] != c,
    decreases s.len(),
{
    if s.len() > 0 && s[0] != c {
        lemma_find_byte(s.drop_first(), c);
        assert forall|j: int| 0 <= j < find_byte(s, c) implies s[j] != c by {
            if j > 0 {
                assert(s[j] == s.drop_first()[j - 1]);
            }
        }
    }
}

/// The characterization above pins `find_byte` down: any index with those
/// properties is `find_byte(s, c)`.
pub proof fn lemma_find_byte_unique(s: Seq<u8>, c: u8, r: int)
    requires
        0 <= r <= s.len(),
        r < s.len() ==> s[r] == c,
        forall|j: int| 0 <= j < r ==> s[j] != c,
    ensures
        find_byte(s, c) == r,
    decreases s.len(),
{
    if s.len() > 0 && s[0] != c {
        lemma_find_byte_unique(s.drop_first(), c, r - 1);
    }
}

/// The tokens of `s` from position `i` on, given the partial token `cur`
/// read so far: maximal runs of non-whitespace bytes, in order.
pub open spec fn toks_from(s: Seq<u8>, i: int, cur: Seq<u8>) -> Seq<Seq<u8>>
    decreases s.len() - i,
{
    if i < 0 || i >= s.len() {
        if cur.len() > 0 {
            seq![cur]
        } else {
            Seq::empty()
        }
    } else if is_ws(s[i]) {
        (if cur.len() > 0 {
            seq![cur]
        } else {
            Seq::empty()
        }) + toks_from(s, i + 1, Seq::empty())
    } else {
        toks_from(s, i + 1, cur.push(s[i]))
    }
}

/// The whitespace-separated tokens of a line.
pub open spec fn tokens_of(s: Seq<u8>) -> Seq<Seq<u8>> {
    toks_from(s, 0, Seq::empty())
}

/// Splits a line into its whitespace-separated tokens.
pub fn tokenize(s: &[u8]) -> (r: Vec<Vec<u8>>)
    ensures
        r.deep_view() == tokens_of(s@),
{
    let mut out: Vec<Vec<u8>> = Vec::new();
    let mut cur: Vec<u8> = Vec::new();
    let mut i: usize = 0;
    while i < s.len()
        invariant
            0 <= i <= s@.len(),
            tokens_of(s@) == out.deep_view() + toks_from(s@, i as int, cur@),
        decreases s@.len() - i,
    {
        let ghost prev_out = out.deep_view();
        let ghost prev_cur = cur@;
        let b = s[i];
        if b == 32 || b == 9 || b == 13 {
            if cur.len() > 0 {
                out.push(cur);
                cur = Vec::new();
                proof {
                    assert(out.deep_view() =~~= prev_out.push(prev_cur));
                    assert(prev_out + (seq![prev_cur] + toks_from(s@, i + 1, Seq::empty()))
                        =~~= out.deep_view() + toks_from(s@, i + 1, cur@));
                }
            } else {
                proof {
                    assert(prev_cur =~~= Seq::<u8>::empty());
                    assert(prev_out + (Seq::<Seq<u8>>::empty() + toks_from(s@, i + 1, Seq::empty()))
                        =~~= prev_out + toks_from(s@, i + 1, Seq::<u8>::empty()));
                }
            }
        } else {
            cur.push(b);
            proof {
                assert(cur@ =~~= prev_cur.push(s@[i as int]));
                assert(toks_from(s@, i as int, prev_cur) == toks_from(
                    s@,
                    i + 1,
                    prev_cur.push(s@[i as int]),
                ));
            }
        }
        i = i + 1;
    }
    if cur.len() > 0 {
        let ghost prev_out = out.deep_view();
        let ghost prev_cur = cur@;
        out.push(cur);
        proof {
            assert(out.deep_view() =~~= prev_out.push(prev_cur));
            assert(prev_out + seq![prev_cur] =~~= out.deep_view());
        }
    } else {
        proof {
            assert(out.deep_view() + Seq::<Seq<u8>>::empty() =~~= out.deep_view());
        }
    }
    out
}

/// All bytes of `s` are decimal digits.
pub open spec fn all_digits(s: Seq<u8>) -> bool {
    forall|i: int| 0 <= i < s.len() ==> is_digit(#[trigger] s[i])
}

/// The number a sequence of decimal digits denotes, most significant first.
pub open spec fn digits_val(s: Seq<u8>) -> int
    decreases s.len(),
{
    if s.len() == 0 {
        0
    } else {
        digits_val(s.drop_last()) * 10 + (s.last() - 48)
    }
}

/// Powers of ten.
pub open spec fn pow10(e: nat) -> int
    decreases e,
{
    if e == 0 {
        1
    } else {
        10 * pow10((e - 1) as nat)
    }
}

/// A digit string's value is non-negative and below `10^len`.
pub proof fn lemma_digits_val_bounds(s: Seq<u8>)
    requires
        all_digits(s),
    ensures
        0 <= digits_val(s) < pow10(s.len()),
    decreases s.len(),
{
    if s.len() > 0 {
        lemma_digits_val_bounds(s.drop_last());
    }
}

/// Extending a digit string to the right never decreases its value.
pub proof fn lemma_digits_val_prefix(s: Seq<u8>, j: int)
    requires
        all_digits(s),
        0 <= j <= s.len(),
    ensures
        digits_val(s.take(j)) <= digits_val(s),
    decreases s.len(),
{
    if j == s.len() {
        assert(s.take(j) =~= s);
    } else if s.len() > 0 {
        assert(s.take(j) =~= s.drop_last().take(j));
        lemma_digits_val_prefix(s.drop_last(), j);
        lemma_digits_val_bounds(s.drop_last());
    }
}

/// A valid sample-size token: a non-empty run of digits whose value does
/// not exceed the largest supported sample size.
pub open spec fn count_tok_valid(s: Seq<u8>) -> bool {
    s.len() >= 1 && all_digits(s) && digits_val(s) <= MAX_N
}

/// Parses a sample-size token. Returns the denoted number exactly when the
/// token is a non-empty digit run denoting at most `MAX_N`.
pub fn parse_count(tok: &[u8]) -> (r: Option<u64>)
    ensures
        r is Some <==> count_tok_valid(tok@),
        r matches Some(v) ==> v == digits_val(tok@),
{
    if tok.len() == 0 {
        return None;
    }
    let mut acc: u64 = 0;
    let mut i: usize = 0;
    while i < tok.len()
        invariant
            0 <= i <= tok@.len(),
            forall|j: int| 0 <= j < i ==> is_digit(#[trigger] tok@[j]),
            acc == digits_val(tok@.take(i as int)),
            0 <= acc <= MAX_N,
        decreases tok@.len() - i,
    {
        let c = tok[i];
        if c < 48 || c > 57 {
            return None;
        }
        proof {
            assert(tok@.take(i + 1).drop_last() =~= tok@.take(i as int));
        }
        let next = acc * 10 + ((c - 48) as u64);
        if next > 1000000 {
            proof {
                if all_digits(tok@) {
                    lemma_digits_val_prefix(tok@, i + 1);
                }
            }
            return None;
        }
        acc = next;
        i = i + 1;
    }
    proof {
        assert(tok@.take(tok@.len() as int) =~= tok@);
    }
    Some(acc)
}

/// The token with a leading sign, if any, removed.
pub open spec fn tok_body(s: Seq<u8>) -> Seq<u8> {
    if s.len() >= 1 && (s[0] == 45 || s[0] == 43) {
        s.drop_first()
    } else {
        s
    }
}

/// The token carries a leading minus sign.
pub open spec fn tok_is_neg(s: Seq<u8>) -> bool {
    s.len() >= 1 && s[0] == 45
}

/// The digits before the decimal point (the whole body if there is none).
pub open spec fn int_digits(s: Seq<u8>) -> Seq<u8> {
    tok_body(s).take(find_byte(tok_body(s), 46))
}

/// The digits after the decimal point, empty if there is none.
pub open spec fn frac_digits(s: Seq<u8>) -> Seq<u8> {
    let t = tok_body(s);
    if find_byte(t, 46) < t.len() {
        t.skip(find_byte(t, 46) + 1)
    } else {
        Seq::empty()
    }
}

/// The fraction digits as a count of micro-units: the first six fraction
/// digits, zero-padded on the right to six places; digits beyond the sixth
/// are truncated (the value is rounded toward zero to micro precision).
pub open spec fn frac6_val(f: Seq<u8>) -> int {
    if f.len() >= 6 {
        digits_val(f.take(6))
    } else {
        digits_val(f) * pow10((6 - f.len()) as nat)
    }
}

/// Magnitude of a fixed-point token in micro-units.
pub open spec fn fixed_mag(s: Seq<u8>) -> int {
    digits_val(int_digits(s)) * (SCALE as int) + frac6_val(frac_digits(s))
}

/// A valid fixed-point token: an optional sign, then digits with at most
/// one decimal point and at least one digit in all, denoting a magnitude
/// of at most `MAX_ABS` micro-units. This is the loader's numeric domain:
/// exponent forms are not part of it.
pub open spec fn fixed_tok_valid(s: Seq<u8>) -> bool {
    all_digits(int_digits(s)) && all_digits(frac_digits(s)) && int_digits(s).len() + frac_digits(
        s,
    ).len() >= 1 && fixed_mag(s) <= MAX_ABS
}

/// The signed value a fixed-point token denotes, in micro-units.
pub open spec fn fixed_val(s: Seq<u8>) -> int {
    if tok_is_neg(s) {
        -fixed_mag(s)
    } else {
        fixed_mag(s)
    }
}

/// Powers of ten are positive, and they multiply by adding exponents.
pub proof fn lemma_pow10_add(a: nat, b: nat)
    ensures
        pow10(a) >= 1,
        pow10(b) >= 1,
        pow10(a + b) == pow10(a) * pow10(b),
    decreases a,
{
    if a == 0 {
        lemma_pow10_pos(b);
        assert(pow10(0 + b) == 1 * pow10(b));
    } else {
        lemma_pow10_add((a - 1) as nat, b);
        assert(pow10((a + b - 1) as nat) == pow10((a - 1) as nat) * pow10(b));
        assert(10 * (pow10((a - 1) as nat) * pow10(b)) == (10 * pow10((a - 1) as nat)) * pow10(b))
            by (nonlinear_arith);
    }
}

/// Powers of ten are positive.
pub proof fn lemma_pow10_pos(e: nat)
    ensures
        pow10(e) >= 1,
    decreases e,
{
    if e > 0 {
        lemma_pow10_pos((e - 1) as nat);
    }
}

/// The micro-unit count of a digit fraction is between 0 and 999999.
pub proof fn lemma_frac6_bounds(f: Seq<u8>)
    requires
        all_digits(f),
    ensures
        0 <= frac6_val(f) < 1000000,
{
    assert(pow10(0) == 1);
    assert(pow10(1) == 10);
    assert(pow10(2) == 100);
    assert(pow10(3) == 1000);
    assert(pow10(4) == 10000);
    assert(pow10(5) == 100000);
    assert(pow10(6) == 1000000);
    if f.len() >= 6 {
        assert(all_digits(f.take(6)));
        lemma_digits_val_bounds(f.take(6));
    } else {
        lemma_digits_val_bounds(f);
        let e = (6 - f.len()) as nat;
        lemma_pow10_add(f.len() as nat, e);
        assert(digits_val(f) * pow10(e) >= 0 && (digits_val(f) + 1) * pow10(e) <= pow10(
            f.len() as nat,
        ) * pow10(e)) by (nonlinear_arith)
            requires
                0 <= digits_val(f),
                digits_val(f) + 1 <= pow10(f.len() as nat),
                pow10(e) >= 1,
        ;
        assert(digits_val(f) * pow10(e) + pow10(e) == (digits_val(f) + 1) * pow10(e))
            by (nonlinear_arith);
    }
}

/// Parses a fixed-point token into signed micro-units. Returns the denoted
/// value exactly when the token is valid per `fixed_tok_valid`.
pub fn parse_fixed(tok: &[u8]) -> (r: Option<i64>)
    ensures
        r is Some <==> fixed_tok_valid(tok@),
        r matches Some(v) ==> v == fixed_val(tok@),
{
    let ghost body = tok_body(tok@);
    let mut start: usize = 0;
    let mut neg = false;
    if tok.len() >= 1 && (tok[0] == 45 || tok[0] == 43) {
        start = 1;
        neg = tok[0] == 45;
    }
    proof {
        assert(body =~= tok@.skip(start as int));
        assert(neg == tok_is_neg(tok@));
    }
    let mut acc: u64 = 0;
    let mut i: usize = start;
    while i < tok.len() && tok[i] != 46
        invariant
            start <= i <= tok@.len(),
            start <= 1,
            body == tok_body(tok@),
            body == tok@.skip(start as int),
            forall|j: int| 0 <= j < i - start ==> is_digit(#[trigger] body[j]) && body[j] != 46,
            acc == digits_val(body.take(i - start)),
            0 <= acc <= 1000000,
        decreases tok@.len() - i,
    {
        let c = tok[i];
        proof {
            assert(body[i - start] == c);
        }
        if c < 48 || c > 57 {
            proof {
                lemma_find_byte(body, 46);
                let fb = find_byte(body, 46);
                assert(fb > i - start);
                assert(!is_digit(int_digits(tok@)[i - start]));
            }
            return None;
        }
        proof {
            assert(body.take(i - start + 1).drop_last() =~= body.take(i - start));
        }
        let next = acc * 10 + ((c - 48) as u64);
        if next > 1000000 {
            proof {
                lemma_find_byte(body, 46);
                let fb = find_byte(body, 46);
                assert(fb > i - start);
                assert(int_digits(tok@).take(i - start + 1) =~= body.take(i - start + 1));
                if all_digits(int_digits(tok@)) && all_digits(frac_digits(tok@)) {
                    lemma_digits_val_prefix(int_digits(tok@), i - start + 1);
                    lemma_frac6_bounds(frac_digits(tok@));
                    assert(fixed_mag(tok@) > MAX_ABS);
                }
            }
            return None;
        }
        acc = next;
        i = i + 1;
    }
    let int_len = i - start;
    proof {
        if i == tok@.len() {
            lemma_find_byte_unique(body, 46, body.len() as int);
        } else {
            assert(body[i - start] == tok@[i as int]);
            lemma_find_byte_unique(body, 46, i - start);
        }
        assert(int_digits(tok@) =~= body.take(int_len as int));
    }
    let mut facc: u64 = 0;
    let mut cnt: u64 = 0;
    let mut fcount: usize = 0;
    let ghost frac = frac_digits(tok@);
    if i < tok.len() {
        i = i + 1;
        proof {
            assert(frac =~= body.skip(int_len + 1));
        }
        while i < tok.len()
            invariant
                start <= 1,
                start + 1 + int_len < i <= tok@.len() || (start + 1 + int_len <= i <= tok@.len()),
                i - start - int_len - 1 == fcount,
                0 <= fcount <= frac.len(),
                frac.len() == tok@.len() - start - int_len - 1,
                body == tok@.skip(start as int),
                frac == body.skip(int_len + 1),
                frac == frac_digits(tok@),
                forall|j: int| 0 <= j < fcount ==> is_digit(#[trigger] frac[j]),
                cnt == if fcount < 6 {
                    fcount as int
                } else {
                    6int
                },
                facc == digits_val(frac.take(cnt as int)),
                0 <= facc < 1000000,
            decreases tok@.len() - i,
        {
            let c = tok[i];
            proof {
                assert(frac[fcount as int] == c);
            }
            if c < 48 || c > 57 {
                proof {
                    assert(!is_digit(frac_digits(tok@)[fcount as int]));
                }
                return None;
            }
            if cnt < 6 {
                proof {
                    assert(frac.take(cnt + 1).drop_last() =~= frac.take(cnt as int));
                    assert(all_digits(frac.take(cnt + 1)));
                    lemma_digits_val_bounds(frac.take(cnt + 1));
                    assert(pow10(0) == 1);
                    assert(pow10(1) == 10);
                    assert(pow10(2) == 100);
                    assert(pow10(3) == 1000);
                    assert(pow10(4) == 10000);
                    assert(pow10(5) == 100000);
                    assert(pow10(6) == 1000000);
                    lemma_pow10_pos((6 - (cnt + 1)) as nat);
                    assert(pow10((cnt + 1) as nat) <= pow10(6)) by {
                        lemma_pow10_add((cnt + 1) as nat, (6 - (cnt + 1)) as nat);
                        assert(pow10((cnt + 1) as nat) * 1 <= pow10((cnt + 1) as nat) * pow10(
                            (6 - (cnt + 1)) as nat,
                        )) by (nonlinear_arith)
                            requires
                                pow10((cnt + 1) as nat) >= 1,
                                pow10((6 - (cnt + 1)) as nat) >= 1,
                        ;
                    }
                }
                facc = facc * 10 + ((c - 48) as u64);
                cnt = cnt + 1;
            }
            fcount = fcount + 1;
            i = i + 1;
        }
    } else {
        proof {
            assert(frac =~= Seq::<u8>::empty());
        }
    }
    proof {
        if fcount >= 6 {
            assert(frac.take(cnt as int) =~= frac.take(6));
        } else {
            assert(cnt == fcount);
            assert(frac.take(cnt as int) =~= frac);
            assert(pow10(0) == 1);
            assert(digits_val(frac) * 1 == digits_val(frac));
        }
    }
    while cnt < 6
        invariant
            frac == frac_digits(tok@),
            fcount == frac.len(),
            forall|j: int| 0 <= j < frac.len() ==> is_digit(#[trigger] frac[j]),
            fcount < 6 ==> fcount <= cnt <= 6 && facc == digits_val(frac) * pow10(
                (cnt - fcount) as nat,
            ),
            fcount >= 6 ==> cnt == 6 && facc == digits_val(frac.take(6)),
            0 <= facc < 1000000,
        decreases 6 - cnt,
    {
        proof {
            assert(frac.take(frac.len() as int) =~= frac);
            lemma_digits_val_bounds(frac);
            lemma_pow10_pos((cnt - fcount) as nat);
            lemma_pow10_add(frac.len() as nat, ((cnt + 1) - fcount) as nat);
            lemma_pow10_add(frac.len() as nat, (cnt - fcount) as nat);
            assert(pow10(0) == 1);
            assert(pow10(1) == 10);
            assert(pow10(2) == 100);
            assert(pow10(3) == 1000);
            assert(pow10(4) == 10000);
            assert(pow10(5) == 100000);
            assert(pow10(6) == 1000000);
            let dv = digits_val(frac);
            let e = (cnt - fcount) as nat;
            assert(dv * pow10(e) * 10 == dv * (10 * pow10(e))) by (nonlinear_arith);
            assert((dv + 1) * pow10(e + 1) <= pow10(frac.len() as nat) * pow10(e + 1))
                by (nonlinear_arith)
                requires
                    dv + 1 <= pow10(frac.len() as nat),
                    pow10(e + 1) >= 1,
            ;
            assert(dv * pow10(e + 1) + pow10(e + 1) == (dv + 1) * pow10(e + 1))
                by (nonlinear_arith);
            assert(pow10(frac.len() as nat) * pow10(e + 1) == pow10(frac.len() + e + 1))
                by {
                lemma_pow10_add(frac.len() as nat, (e + 1) as nat);
            }
            assert(pow10((frac.len() + e + 1) as nat) <= pow10(6)) by {
                lemma_pow10_add((frac.len() + e + 1) as nat, (6 - (frac.len() + e + 1)) as nat);
                lemma_pow10_pos((6 - (frac.len() + e + 1)) as nat);
                assert(pow10((frac.len() + e + 1) as nat) * 1 <= pow10(
                    (frac.len() + e + 1) as nat,
                ) * pow10((6 - (frac.len() + e + 1)) as nat)) by (nonlinear_arith)
                    requires
                        pow10((frac.len() + e + 1) as nat) >= 1,
                        pow10((6 - (frac.len() + e + 1)) as nat) >= 1,
                ;
            }
        }
        facc = facc * 10;
        cnt = cnt + 1;
    }
    proof {
        assert(facc == frac6_val(frac));
    }
    if int_len == 0 && fcount == 0 {
        return None;
    }
    let mag: u64 = acc * 1000000 + facc;
    if mag > 1000000000000 {
        return None;
    }
    let v = mag as i64;
    if neg {
        Some(-v)
    } else {
        Some(v)
    }
}

/// A valid fixed-point token denotes a value within the library's
/// fixed-point range.
pub proof fn lemma_fixed_val_bounds(s: Seq<u8>)
    requires
        fixed_tok_valid(s),
    ensures
        0 <= fixed_mag(s) <= MAX_ABS,
        -MAX_ABS <= fixed_val(s) <= MAX_ABS,
{
    lemma_digits_val_bounds(int_digits(s));
    lemma_frac6_bounds(frac_digits(s));
}

/// The first line of the source: everything before the first newline.
pub open spec fn line1_of(s: Seq<u8>) -> Seq<u8> {
    s.take(find_byte(s, 10))
}

/// The source has a second line: a first newline exists.
pub open spec fn has_line2(s: Seq<u8>) -> bool {
    find_byte(s, 10) < s.len()
}

/// The second line: from after the first newline to the next newline or
/// the end. Lines beyond the second are ignored.
pub open spec fn line2_of(s: Seq<u8>) -> Seq<u8> {
    let rest = s.skip(find_byte(s, 10) + 1);
    rest.take(find_byte(rest, 10))
}

/// A well-formed parameter source: two lines, the first with at least
/// three tokens denoting the bounds and the sample size, the second with
/// every token a fixed-point number (the theory table, possibly empty).
pub open spec fn params_valid(s: Seq<u8>) -> bool {
    let t1 = tokens_of(line1_of(s));
    let t2 = tokens_of(line2_of(s));
    has_line2(s) && t1.len() >= 3 && fixed_tok_valid(t1[0]) && fixed_tok_valid(t1[1])
        && count_tok_valid(t1[2]) && (forall|i: int|
        0 <= i < t2.len() ==> fixed_tok_valid(#[trigger] t2[i]))
}

/// The experiment's parameters: interval bounds `a` and `b` in micro-units,
/// sample size `n`, and the table of theoretical chi-squared critical
/// values (micro-units), indexed by degrees of freedom minus one.
#[derive(Debug, PartialEq, Eq)]
pub struct Params {
    pub a: i64,
    pub b: i64,
    pub n: u64,
    pub theory: Vec<i64>,
}

/// Index of the first newline in `s`, or its length if there is none.
fn find_nl(s: &[u8]) -> (r: usize)
    ensures
        r == find_byte(s@, 10),
{
    let mut i: usize = 0;
    while i < s.len()
        invariant
            0 <= i <= s@.len(),
            forall|j: int| 0 <= j < i ==> s@[j] != 10,
        decreases s@.len() - i,
    {
        if s[i] == 10 {
            proof {
                lemma_find_byte_unique(s@, 10, i as int);
            }
            return i;
        }
        i = i + 1;
    }
    proof {
        lemma_find_byte_unique(s@, 10, s@.len() as int);
    }
    i
}

/// The parameter loader: parses a two-line source, line 1 as `a b n` and
/// line 2 as the theory table. Returns the parameters exactly when the
/// source is well-formed per `params_valid`; every failure — a missing
/// second line, fewer than three tokens on line 1, or a token outside the
/// loader's numeric domain — is a `ParseError`.
pub fn parse_params(input: &[u8]) -> (r: Result<Params, StatError>)
    ensures
        r is Ok <==> params_valid(input@),
        r is Err ==> r == Result::<Params, StatError>::Err(StatError::ParseError),
        r matches Ok(p) ==> {
            let t1 = tokens_of(line1_of(input@));
            let t2 = tokens_of(line2_of(input@));
            p.a == fixed_val(t1[0]) && p.b == fixed_val(t1[1]) && p.n == digits_val(t1[2])
                && p.theory@.len() == t2.len() && (forall|i: int|
                0 <= i < t2.len() ==> p.theory@[i] == fixed_val(#[trigger] t2[i])) && -MAX_ABS
                <= p.a <= MAX_ABS && -MAX_ABS <= p.b <= MAX_ABS && p.n <= MAX_N && (forall|i: int|
                0 <= i < p.theory@.len() ==> -MAX_ABS <= #[trigger] p.theory@[i] <= MAX_ABS)
        },
{
    let nl1 = find_nl(input);
    proof {
        lemma_find_byte(input@, 10);
    }
    if nl1 == input.len() {
        return Err(StatError::ParseError);
    }
    let l1 = vstd::slice::slice_subrange(input, 0, nl1);
    let rest = vstd::slice::slice_subrange(input, nl1 + 1, input.len());
    proof {
        assert(l1@ =~= line1_of(input@));
        assert(rest@ =~= input@.skip(find_byte(input@, 10) + 1));
    }
    let nl2 = find_nl(rest);
    proof {
        lemma_find_byte(rest@, 10);
    }
    let l2 = vstd::slice::slice_subrange(rest, 0, nl2);
    proof {
        assert(l2@ =~= line2_of(input@));
    }
    let toks1 = tokenize(l1);
    let ghost t1 = tokens_of(line1_of(input@));
    let ghost t2 = tokens_of(line2_of(input@));
    if toks1.len() < 3 {
        return Err(StatError::ParseError);
    }
    proof {
        assert(toks1@[0]@ == t1[0] && toks1@[1]@ == t1[1] && toks1@[2]@ == t1[2]);
    }
    let a = match parse_fixed(toks1[0].as_slice()) {
        Some(v) => v,
        None => {
            return Err(StatError::ParseError);
        },
    };
    let b = match parse_fixed(toks1[1].as_slice()) {
        Some(v) => v,
        None => {
            return Err(StatError::ParseError);
        },
    };
    let n = match parse_count(toks1[2].as_slice()) {
        Some(v) => v,
        None => {
            return Err(StatError::ParseError);
        },
    };
    let toks2 = tokenize(l2);
    let mut theory: Vec<i64> = Vec::new();
    let mut i: usize = 0;
    while i < toks2.len()
        invariant
            0 <= i <= toks2@.len(),
            t2 == tokens_of(line2_of(input@)),
            toks2.deep_view() == t2,
            toks2@.len() == t2.len(),
            theory@.len() == i,
            forall|j: int| 0 <= j < i ==> fixed_tok_valid(#[trigger] t2[j]),
            forall|j: int| 0 <= j < i ==> theory@[j] == fixed_val(#[trigger] t2[j]),
            forall|j: int| 0 <= j < i ==> -MAX_ABS <= #[trigger] theory@[j] <= MAX_ABS,
        decreases toks2@.len() - i,
    {
        proof {
            assert(toks2@[i as int]@ == t2[i as int]);
        }
        match parse_fixed(toks2[i].as_slice()) {
            Some(v) => {
                proof {
                    lemma_fixed_val_bounds(t2[i as int]);
                }
                theory.push(v);
            },
            None => {
                proof {
                    assert(!fixed_tok_valid(tokens_of(line2_of(input@))[i as int]));
                }
                return Err(StatError::ParseError);
            },
        }
        i = i + 1;
    }
    proof {
        lemma_fixed_val_bounds(t1[0]);
        lemma_fixed_val_bounds(t1[1]);
    }
    Ok(Params { a, b, n, theory })
}

} // verus!
