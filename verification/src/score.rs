//! Fixed-point scores.
//!
//! Every score and percentage of this library is a non-negative integer that
//! counts hundredths: `8000` stands for `80.0`. Derived scores are rounded to
//! one decimal, so they are multiples of ten. All formulas are evaluated
//! exactly, on fractions of integers, and rounded once.

use vstd::prelude::*;
use vstd::arithmetic::div_mod::{
    lemma_fundamental_div_mod, lemma_fundamental_div_mod_converse, lemma_multiply_divide_lt,
};

verus! {

/// Largest count (of lines, of code units, of summed complexity) for which
/// scores are computed.
pub const LIMIT: u64 = 16_777_216;

/// No score that is computed from counts within `LIMIT` exceeds this.
pub const SCORE_LIMIT: u64 = 112_589_990_684_262_400;

/// Above this complexity a code unit earns no weighted coverage.
pub const WCC_COMPLEXITY_THRESHOLD: u64 = 15;

/// `n / d` rounded to the nearest integer, halves upwards; `0` when `d` is `0`.
pub open spec fn round_div(n: nat, d: nat) -> nat {
    if d == 0 {
        0
    } else {
        (2 * n + d) / (2 * d)
    }
}

/// `n / d` rounded to one decimal, in hundredths.
pub open spec fn one_decimal(n: nat, d: nat) -> nat {
    10 * round_div(10 * n, d)
}

/// Numerator of the uncovered fraction; a scope without lines counts as
/// uncovered.
pub open spec fn uncovered(covered: nat, ploc: nat) -> nat {
    if ploc == 0 {
        1
    } else {
        (ploc - covered) as nat
    }
}

/// Denominator of the covered and uncovered fractions.
pub open spec fn line_base(ploc: nat) -> nat {
    if ploc == 0 {
        1
    } else {
        ploc
    }
}

/// `100 * numerator / ploc` to one decimal; `0` for a scope without lines.
pub open spec fn wcc_spec(numerator: nat, ploc: nat) -> nat {
    if ploc == 0 {
        0
    } else {
        one_decimal(100 * numerator, ploc)
    }
}

/// Weighted coverage of a single function: nothing once its complexity
/// exceeds the threshold, its plain coverage otherwise.
pub open spec fn wcc_function_spec(complexity: nat, covered: nat, ploc: nat) -> nat {
    if complexity > WCC_COMPLEXITY_THRESHOLD {
        0
    } else {
        wcc_spec(covered, ploc)
    }
}

/// The average complexity `complexity / spaces` to one decimal; `0` when
/// there is no code unit.
pub open spec fn complexity_spec(complexity: nat, spaces: nat) -> nat {
    if spaces == 0 {
        0
    } else {
        one_decimal(complexity, spaces)
    }
}

/// CRAP: `c^2 * (1 - coverage)^3 + c` to one decimal, for the complexity
/// `c = complexity / spaces` and the coverage `covered / ploc`.
pub open spec fn crap_spec(covered: nat, ploc: nat, complexity: nat, spaces: nat) -> nat {
    if spaces == 0 {
        0
    } else {
        let u = uncovered(covered, ploc);
        let p = line_base(ploc);
        one_decimal(
            complexity * complexity * (u * u * u) + complexity * spaces * (p * p * p),
            spaces * spaces * (p * p * p),
        )
    }
}

/// SKUNK: `(c / 60) * (100 - coverage%) + c` to one decimal, for the
/// complexity `c = complexity / spaces` and the coverage `covered / ploc`.
pub open spec fn skunk_spec(covered: nat, ploc: nat, complexity: nat, spaces: nat) -> nat {
    if spaces == 0 {
        0
    } else {
        let u = uncovered(covered, ploc);
        let p = line_base(ploc);
        one_decimal(complexity * (5 * u + 3 * p), 3 * spaces * p)
    }
}

/// Whether the four counts are small enough for the scores to be computed.
pub open spec fn counts_in_range(covered: nat, ploc: nat, complexity: nat, spaces: nat) -> bool {
    &&& covered <= ploc
    &&& ploc <= LIMIT
    &&& complexity <= LIMIT
    &&& spaces <= LIMIT
}

/// A fraction that is at most `bound` stays at most `bound` when rounded to
/// one decimal.
pub proof fn lemma_one_decimal_bound(n: nat, d: nat, bound: nat)
    requires
        d > 0,
        n <= bound * d,
    ensures
        one_decimal(n, d) <= 100 * bound,
{
    let top = 2 * (10 * n) + d;
    assert(top < (2 * d) * (10 * bound + 1)) by (nonlinear_arith)
        requires
            top == 2 * (10 * n) + d,
            n <= bound * d,
            d > 0,
    ;
    lemma_multiply_divide_lt(top as int, (2 * d) as int, (10 * bound + 1) as int);
}

/// `n / d` to one decimal, in hundredths.
fn rounded(n: u128, d: u128, Ghost(bound): Ghost<nat>) -> (r: u64)
    requires
        d > 0,
        n <= bound * d,
        bound <= 0x4_0000_0000_0000,
        n <= 0x800_0000_0000_0000_0000_0000_0000_0000,
        d <= 0x800_0000_0000_0000_0000_0000_0000_0000,
    ensures
        r == one_decimal(n as nat, d as nat),
        r <= 100 * bound,
{
    proof {
        lemma_one_decimal_bound(n as nat, d as nat, bound);
    }
    let q: u128 = (20 * n + d) / (2 * d);
    assert(q == round_div(10 * (n as nat), d as nat));
    (10 * q) as u64
}

/// Weighted coverage of a scope: the share of `ploc` that `numerator`
/// makes up, as a percentage with one decimal.
pub fn wcc(numerator: u64, ploc: u64) -> (r: u64)
    requires
        numerator <= ploc,
    ensures
        r == wcc_spec(numerator as nat, ploc as nat),
        r <= 10_000,
{
    if ploc == 0 {
        return 0;
    }
    let n: u128 = 100 * (numerator as u128);
    assert(n <= 100 * (ploc as u128)) by (nonlinear_arith)
        requires
            n == 100 * (numerator as u128),
            numerator <= ploc,
    ;
    rounded(n, ploc as u128, Ghost(100))
}

/// Weighted coverage of a single function: nothing once its complexity
/// exceeds the threshold, however many of its lines are covered.
pub fn wcc_function(complexity: u64, covered: u64, ploc: u64) -> (r: u64)
    requires
        complexity <= WCC_COMPLEXITY_THRESHOLD ==> covered <= ploc,
    ensures
        r == wcc_function_spec(complexity as nat, covered as nat, ploc as nat),
        r <= 10_000,
        complexity > WCC_COMPLEXITY_THRESHOLD ==> r == 0,
{
    if complexity > WCC_COMPLEXITY_THRESHOLD {
        return 0;
    }
    wcc(covered, ploc)
}

/// Average complexity of `spaces` code units, to one decimal. The average
/// must fit the result.
pub fn average_complexity(complexity: u64, spaces: u64) -> (r: u64)
    requires
        complexity_spec(complexity as nat, spaces as nat) <= u64::MAX,
    ensures
        r == complexity_spec(complexity as nat, spaces as nat),
        r <= 100 * complexity,
{
    if spaces == 0 {
        return 0;
    }
    proof {
        assert(complexity as nat <= (complexity as nat) * (spaces as nat)) by (nonlinear_arith)
            requires
                spaces > 0,
        ;
        lemma_one_decimal_bound(complexity as nat, spaces as nat, complexity as nat);
    }
    let q: u128 = (20 * (complexity as u128) + spaces as u128) / (2 * (spaces as u128));
    assert(q == round_div(10 * (complexity as nat), spaces as nat));
    (10 * q) as u64
}

/// The average complexity of counts within `LIMIT` fits a score.
pub proof fn lemma_complexity_bound(complexity: nat, spaces: nat)
    requires
        complexity <= LIMIT,
    ensures
        complexity_spec(complexity, spaces) <= 100 * complexity,
        complexity_spec(complexity, spaces) <= SCORE_LIMIT,
{
    if spaces > 0 {
        assert(complexity <= complexity * spaces) by (nonlinear_arith)
            requires
                spaces > 0,
        ;
        lemma_one_decimal_bound(complexity, spaces, complexity);
    }
}

/// The cube of a count.
fn cube(x: u128) -> (r: u128)
    requires
        x <= LIMIT,
    ensures
        r == x * x * x,
        r <= 0x1_0000_0000_0000_0000_00,
{
    assert(x * x <= 0x1_0000_0000_0000) by (nonlinear_arith)
        requires
            x <= 0x100_0000,
    ;
    assert(x * x * x <= 0x1_0000_0000_0000_0000_00) by (nonlinear_arith)
        requires
            x <= 0x100_0000,
            x * x <= 0x1_0000_0000_0000,
    ;
    x * x * x
}

/// The CRAP score of a scope of `spaces` code units.
pub fn crap(covered: u64, ploc: u64, complexity: u64, spaces: u64) -> (r: u64)
    requires
        counts_in_range(covered as nat, ploc as nat, complexity as nat, spaces as nat),
    ensures
        r == crap_spec(covered as nat, ploc as nat, complexity as nat, spaces as nat),
        r <= SCORE_LIMIT,
{
    if spaces == 0 {
        return 0;
    }
    let u: u128 = if ploc == 0 { 1 } else { (ploc - covered) as u128 };
    let p: u128 = if ploc == 0 { 1 } else { ploc as u128 };
    let c: u128 = complexity as u128;
    let s: u128 = spaces as u128;
    let u_cubed = cube(u);
    let p_cubed = cube(p);
    assert(c * c <= 0x1_0000_0000_0000 && s * s <= 0x1_0000_0000_0000 && c * s
        <= 0x1_0000_0000_0000) by (nonlinear_arith)
        requires
            c <= 0x100_0000,
            s <= 0x100_0000,
    ;
    let cc: u128 = c * c;
    let cs: u128 = c * s;
    let ss: u128 = s * s;
    assert(cc * u_cubed <= 0x1_0000_0000_0000_0000_0000_0000_0000_00 && cs * p_cubed
        <= 0x1_0000_0000_0000_0000_0000_0000_0000_00 && ss * p_cubed
        <= 0x1_0000_0000_0000_0000_0000_0000_0000_00) by (nonlinear_arith)
        requires
            cc <= 0x1_0000_0000_0000,
            cs <= 0x1_0000_0000_0000,
            ss <= 0x1_0000_0000_0000,
            u_cubed <= 0x1_0000_0000_0000_0000_00,
            p_cubed <= 0x1_0000_0000_0000_0000_00,
    ;
    let n: u128 = cc * u_cubed + cs * p_cubed;
    let d: u128 = ss * p_cubed;
    let ghost bound: nat = (cc + c) as nat;
    proof {
        assert(u_cubed <= p_cubed) by (nonlinear_arith)
            requires
                u <= p,
                u_cubed == u * u * u,
                p_cubed == p * p * p,
        ;
        assert(p_cubed > 0) by (nonlinear_arith)
            requires
                p > 0,
                p_cubed == p * p * p,
        ;
        assert(d > 0 && n <= bound * d) by (nonlinear_arith)
            requires
                n == cc * u_cubed + cs * p_cubed,
                d == ss * p_cubed,
                bound == cc + c,
                cs == c * s,
                ss == s * s,
                u_cubed <= p_cubed,
                p_cubed > 0,
                s > 0,
        ;
    }
    rounded(n, d, Ghost(bound))
}

/// The SKUNK score of a scope of `spaces` code units.
pub fn skunk(covered: u64, ploc: u64, complexity: u64, spaces: u64) -> (r: u64)
    requires
        counts_in_range(covered as nat, ploc as nat, complexity as nat, spaces as nat),
    ensures
        r == skunk_spec(covered as nat, ploc as nat, complexity as nat, spaces as nat),
        r <= SCORE_LIMIT,
{
    if spaces == 0 {
        return 0;
    }
    let u: u128 = if ploc == 0 { 1 } else { (ploc - covered) as u128 };
    let p: u128 = if ploc == 0 { 1 } else { ploc as u128 };
    let c: u128 = complexity as u128;
    let s: u128 = spaces as u128;
    let w: u128 = 5 * u + 3 * p;
    assert(c * w <= 0x1_0000_0000_0000_0 && s * p <= 0x1_0000_0000_0000) by (nonlinear_arith)
        requires
            c <= 0x100_0000,
            s <= 0x100_0000,
            p <= 0x100_0000,
            w <= 0x800_0000,
    ;
    let n: u128 = c * w;
    let d: u128 = 3 * (s * p);
    assert(d > 0 && n <= (3 * c) * d && d == 3 * s * p) by (nonlinear_arith)
        requires
            n == c * w,
            d == 3 * (s * p),
            w <= 8 * p,
            s > 0,
            p > 0,
    ;
    rounded(n, d, Ghost((3 * c) as nat))
}

/// The mean of `n` scores that add up to `sum`, to one decimal; `0` when
/// `n` is `0`. A mean beyond the largest `u64` is cut down to it.
pub open spec fn average_spec(sum: nat, n: nat) -> nat {
    if n == 0 {
        0
    } else if 10 * round_div(sum, 10 * n) > u64::MAX {
        u64::MAX as nat
    } else {
        10 * round_div(sum, 10 * n)
    }
}

/// The mean of scores within `SCORE_LIMIT` is within it too, so nothing is
/// cut.
pub proof fn lemma_average_bound(sum: nat, n: nat)
    requires
        n > 0,
        sum <= n * SCORE_LIMIT,
    ensures
        average_spec(sum, n) == 10 * round_div(sum, 10 * n),
        average_spec(sum, n) <= SCORE_LIMIT,
{
    let d = 10 * n;
    let tenth = (SCORE_LIMIT / 10) as nat;
    assert(2 * sum + d < (2 * d) * (tenth + 1)) by (nonlinear_arith)
        requires
            sum <= n * SCORE_LIMIT,
            d == 10 * n,
            n > 0,
            tenth * 10 == SCORE_LIMIT,
    ;
    lemma_multiply_divide_lt((2 * sum + d) as int, (2 * d) as int, (tenth + 1) as int);
}

/// The mean of `n` scores that add up to `sum`, to one decimal.
pub fn average(sum: u128, n: u64) -> (r: u64)
    ensures
        r == average_spec(sum as nat, n as nat),
{
    if n == 0 {
        return 0;
    }
    let d: u128 = 10 * (n as u128);
    let q: u128 = sum / d;
    let m: u128 = sum % d;
    proof {
        lemma_fundamental_div_mod(sum as int, d as int);
        assert(q < 0x2000_0000_0000_0000_0000_0000_0000_0000) by (nonlinear_arith)
            requires
                sum == d * q + m,
                d >= 10,
                m >= 0,
                q >= 0,
                sum <= 0xffff_ffff_ffff_ffff_ffff_ffff_ffff_ffff,
        ;
    }
    let up: u128 = if 2 * m >= d { q + 1 } else { q };
    proof {
        let top = 2 * sum + d;
        let rest = top - up * (2 * d);
        assert(0 <= rest < 2 * d && top == up * (2 * d) + rest) by (nonlinear_arith)
            requires
                sum == d * q + m,
                0 <= m < d,
                2 * m >= d ==> up == q + 1,
                2 * m < d ==> up == q,
                top == 2 * sum + d,
                rest == top - up * (2 * d),
        ;
        lemma_fundamental_div_mod_converse(top as int, (2 * d) as int, up as int, rest as int);
        assert(up == round_div(sum as nat, 10 * (n as nat)));
    }
    if up > 1_844_674_407_370_955_161 {
        u64::MAX
    } else {
        (10 * up) as u64
    }
}

} // verus!
