//! Fixed-point logarithm used by the likelihood-ratio tests.
//!
//! Scores throughout the library are integers in micro-units (one unit is a
//! millionth), so that every statistical decision is a pure, reproducible
//! function of the frequency counts. The natural logarithm of a rational
//! `num / den` with `0 < num <= den` is approximated by extracting the
//! integer part and twenty binary fraction digits of `log2(den / num)` and
//! scaling by `ln 2`.

use vstd::prelude::*;
use vstd::arithmetic::div_mod::{
    lemma_div_by_multiple,
    lemma_div_is_ordered,
    lemma_multiply_divide_lt,
};

verus! {

/// Two to the given power.
pub open spec fn pow2i(j: nat) -> int
    decreases j,
{
    if j == 0 {
        1
    } else {
        2 * pow2i((j - 1) as nat)
    }
}

/// Largest `k` with `num * 2^k <= den`, for `1 <= num <= den`.
pub open spec fn spec_ilog2(num: int, den: int) -> int
    decreases den - num when 1 <= num && num <= den
{
    if num < 1 || den < num {
        0
    } else if 2 * num > den {
        0
    } else {
        1 + spec_ilog2(2 * num, den)
    }
}

/// The first `j` binary fraction digits of `log2(m / 2^32)`, read as one
/// integer, for a mantissa `m` scaled by `2^32` with `1 <= m / 2^32 < 2`.
pub open spec fn spec_frac_bits(m: int, j: nat) -> int
    decreases j,
{
    if j == 0 {
        0
    } else {
        let m2: int = (m * m) / 0x1_0000_0000;
        if m2 >= 0x2_0000_0000 {
            pow2i((j - 1) as nat) + spec_frac_bits(m2 / 2, (j - 1) as nat)
        } else {
            spec_frac_bits(m2, (j - 1) as nat)
        }
    }
}

/// `log2(den / num)` scaled by `2^20`, truncated to twenty fraction digits.
pub open spec fn spec_log2_scaled(num: int, den: int) -> int {
    let k: int = spec_ilog2(num, den);
    let m0: int = (den * 0x1_0000_0000) / (num * pow2i(k as nat));
    k * 0x10_0000 + spec_frac_bits(m0, 20)
}

/// `ln(num / den)` in micro-units, for `1 <= num <= den`: never positive.
pub open spec fn spec_ln_micro(num: int, den: int) -> int {
    -((spec_log2_scaled(num, den) * 693147) / 0x10_0000)
}

/// `ln(num / den)` in micro-units.
///
/// The result is exactly `spec_ln_micro(num, den)`, so equal arguments give
/// equal results on every run.
#[verifier::rlimit(100)]
pub fn ln_micro(num: u64, den: u64) -> (r: i64)
    requires
        1 <= num,
        num <= den,
    ensures
        r == spec_ln_micro(num as int, den as int),
        -46_000_000 <= r <= 0,
{
    let d: u128 = den as u128;
    let mut nn: u128 = num as u128;
    let mut k: u64 = 0;
    while 2 * nn <= d
        invariant
            1 <= num,
            num <= den,
            d == den,
            num <= nn <= d,
            k <= 64,
            nn == num * pow2i(k as nat),
            pow2i(k as nat) <= d,
            spec_ilog2(num as int, den as int) == k + spec_ilog2(nn as int, den as int),
        decreases d - nn,
    {
        proof {
            lemma_pow2i_pos(k as nat);
            assert(2 * nn == num * (2 * pow2i(k as nat))) by (nonlinear_arith)
                requires
                    nn == num * pow2i(k as nat),
            ;
            assert(2 * pow2i(k as nat) == pow2i((k + 1) as nat));
            assert(pow2i((k + 1) as nat) <= 2 * nn) by (nonlinear_arith)
                requires
                    nn == num * pow2i(k as nat),
                    1 <= num,
                    0 < pow2i(k as nat),
            ;
            assert(k + 1 <= 64) by {
                if k + 1 >= 65 {
                    lemma_pow2i_increases((k + 1) as nat, 65);
                    assert(pow2i(65) == 0x2_0000_0000_0000_0000) by {
                        reveal_with_fuel(pow2i, 66);
                    }
                }
            }
        }
        nn = 2 * nn;
        k = k + 1;
    }
    proof {
        assert(spec_ilog2(nn as int, den as int) == 0);
        lemma_pow2i_pos(k as nat);
    }
    // mantissa scaled by 2^32, in [2^32, 2^33)
    let m0: u128 = (d * 0x1_0000_0000) / nn;
    proof {
        assert(nn * 0x1_0000_0000 <= d * 0x1_0000_0000) by (nonlinear_arith)
            requires
                nn <= d,
        ;
        lemma_div_is_ordered(nn as int * 0x1_0000_0000, d as int * 0x1_0000_0000, nn as int);
        lemma_div_by_multiple(0x1_0000_0000, nn as int);
        assert((0x1_0000_0000 * nn) / nn as int == 0x1_0000_0000);
        assert(nn * 0x1_0000_0000 == 0x1_0000_0000 * nn) by (nonlinear_arith);
        assert(m0 >= 0x1_0000_0000);
        assert(d < 2 * nn);
        assert(d * 0x1_0000_0000 < nn * 0x2_0000_0000) by (nonlinear_arith)
            requires
                d < 2 * nn,
        ;
        lemma_multiply_divide_lt(d as int * 0x1_0000_0000, nn as int, 0x2_0000_0000);
        assert(m0 < 0x2_0000_0000);
    }
    let mut m: u128 = m0;
    let mut acc: u64 = 0;
    let mut i: usize = 0;
    while i < 20
        invariant
            i <= 20,
            0x1_0000_0000 <= m < 0x2_0000_0000,
            acc < pow2i(i as nat),
            spec_frac_bits(m0 as int, 20) == acc * pow2i((20 - i) as nat) + spec_frac_bits(
                m as int,
                (20 - i) as nat,
            ),
        decreases 20 - i,
    {
        proof {
            assert(m * m < 0x4_0000_0000_0000_0000_0000_0000_0000_0000) by (nonlinear_arith)
                requires
                    m < 0x2_0000_0000,
            ;
            assert(m * m >= 0x1_0000_0000 * 0x1_0000_0000) by (nonlinear_arith)
                requires
                    m >= 0x1_0000_0000,
            ;
            lemma_div_is_ordered(
                0x1_0000_0000int * 0x1_0000_0000int,
                m as int * m as int,
                0x1_0000_0000,
            );
            lemma_div_by_multiple(0x1_0000_0000, 0x1_0000_0000);
            assert(m * m < 0x1_0000_0000 * 0x4_0000_0000) by (nonlinear_arith)
                requires
                    m < 0x2_0000_0000,
            ;
            lemma_multiply_divide_lt(m as int * m as int, 0x1_0000_0000, 0x4_0000_0000);
        }
        let m2: u128 = (m * m) / 0x1_0000_0000;
        let ghost rem: nat = (20 - i) as nat;
        proof {
            assert(pow2i(rem) == 2 * pow2i((rem - 1) as nat));
            lemma_pow2i_pos((rem - 1) as nat);
            lemma_pow2i_increases(19, i as nat);
            assert(pow2i(19) == 0x8_0000) by {
                reveal_with_fuel(pow2i, 20);
            }
        }
        if m2 >= 0x2_0000_0000 {
            proof {
                let a: int = acc as int;
                let p: int = pow2i((rem - 1) as nat);
                assert((2 * a + 1) * p == a * (2 * p) + p) by (nonlinear_arith);
            }
            m = m2 / 2;
            acc = acc * 2 + 1;
        } else {
            proof {
                let a: int = acc as int;
                let p: int = pow2i((rem - 1) as nat);
                assert((2 * a) * p == a * (2 * p)) by (nonlinear_arith);
            }
            m = m2;
            acc = acc * 2;
        }
        i += 1;
    }
    proof {
        assert(spec_frac_bits(m as int, 0) == 0);
        assert(acc * pow2i(0) == acc) by (nonlinear_arith);
        assert(spec_frac_bits(m0 as int, 20) == acc);
        assert(pow2i(20) == 0x10_0000) by {
            reveal_with_fuel(pow2i, 21);
        }
        assert(k <= 63) by {
            if k >= 64 {
                lemma_pow2i_increases(k as nat, 64);
                assert(pow2i(64) == 0x1_0000_0000_0000_0000) by {
                    reveal_with_fuel(pow2i, 65);
                }
            }
        }
    }
    let total: u64 = k * 0x10_0000 + acc;
    let mag: u64 = (total * 693147) / 0x10_0000;
    proof {
        assert(total <= 64 * 0x10_0000);
        assert(total * 693147 <= 64 * 0x10_0000 * 693147) by (nonlinear_arith)
            requires
                total <= 64 * 0x10_0000,
        ;
        lemma_div_is_ordered(total as int * 693147, 64int * 0x10_0000int * 693147int, 0x10_0000);
        assert(64 * 0x10_0000 * 693147 / 0x10_0000 == 44361408);
    }
    -(mag as i64)
}

proof fn lemma_pow2i_pos(j: nat)
    ensures
        pow2i(j) >= 1,
    decreases j,
{
    if j > 0 {
        lemma_pow2i_pos((j - 1) as nat);
    }
}

/// `pow2i` is monotonic in its exponent.
proof fn lemma_pow2i_increases(j: nat, i: nat)
    requires
        i <= j,
    ensures
        pow2i(i) <= pow2i(j),
    decreases j,
{
    if i < j {
        lemma_pow2i_increases((j - 1) as nat, i);
        lemma_pow2i_pos((j - 1) as nat);
    }
}

/// Clamp at zero.
pub open spec fn max0(x: int) -> int {
    if x < 0 {
        0
    } else {
        x
    }
}

/// One log-probability contribution `coef * ln(num / den)` in micro-units.
/// A probability argument of exactly zero or one contributes nothing, per
/// the documented special-case policy.
pub open spec fn spec_ln_term(coef: int, num: int, den: int) -> int {
    if num <= 0 || num >= den {
        0
    } else {
        coef * spec_ln_micro(num, den)
    }
}

/// Computes `spec_ln_term` exactly.
pub fn ln_term(coef: u64, num: u64, den: u64) -> (r: i128)
    requires
        num <= den,
    ensures
        r == spec_ln_term(coef as int, num as int, den as int),
        -(coef as i128) * 46_000_000 <= r <= 0,
{
    if num == 0 || num >= den {
        proof {
            assert(-(coef as i128) * 46_000_000 <= 0) by (nonlinear_arith);
        }
        0
    } else {
        let l: i64 = ln_micro(num, den);
        proof {
            assert((coef as i128) * (l as i128) <= 0) by (nonlinear_arith)
                requires
                    l <= 0,
            ;
            assert((coef as i128) * (l as i128) >= -(coef as i128) * 46_000_000)
                by (nonlinear_arith)
                requires
                    -46_000_000 <= l,
            ;
        }
        (coef as i128) * (l as i128)
    }
}

/// Dunning's two-count log-likelihood score in micro-units: how strongly the
/// evidence favors a period probability of ninety-nine percent for this
/// spelling over the corpus-wide baseline.
pub open spec fn spec_dunning_log_likelihood(
    count_a: int,
    count_b: int,
    count_ab: int,
    n: int,
) -> int {
    let null_h = spec_ln_term(count_ab, count_b, n) + spec_ln_term(
        count_a - count_ab,
        n - count_b,
        n,
    );
    let alt_h = spec_ln_term(count_ab, 99, 100) + spec_ln_term(count_a - count_ab, 1, 100);
    -2 * (null_h - alt_h)
}

/// Modified Dunning log-likelihood of `count_ab` joint occurrences out of
/// `count_a`, against a fixed alternative period probability, in micro-units.
///
/// A pure function of its four counts; probability arguments of exactly zero
/// or one contribute nothing, so the boundary `count_a == count_ab` never
/// evaluates a logarithm of zero.
pub fn dunning_log_likelihood(count_a: u64, count_b: u64, count_ab: u64, n: u64) -> (r: i128)
    requires
        count_ab <= count_a,
        count_ab <= count_b,
        count_a <= n,
        count_b <= n,
    ensures
        r == spec_dunning_log_likelihood(count_a as int, count_b as int, count_ab as int, n as int),
        -0x2000_0000_0000_0000_0000_0000 <= r <= 0x2000_0000_0000_0000_0000_0000,
{
    let t1: i128 = ln_term(count_ab, count_b, n);
    let t2: i128 = ln_term(count_a - count_ab, n - count_b, n);
    let t3: i128 = ln_term(count_ab, 99, 100);
    let t4: i128 = ln_term(count_a - count_ab, 1, 100);
    -2 * ((t1 + t2) - (t3 + t4))
}

/// The four-cell collocation log-likelihood score in micro-units: how
/// strongly `count_ab` joint occurrences of an adjacent pair exceed what the
/// two marginal counts alone would predict over `n` tokens.
pub open spec fn spec_col_log_likelihood(
    count_a: int,
    count_b: int,
    count_ab: int,
    n: int,
) -> int {
    let rest = max0(n - count_a - count_b + count_ab);
    let s1 = spec_ln_term(count_ab, count_b, n) + spec_ln_term(count_a - count_ab, n - count_b, n);
    let s2 = spec_ln_term(count_b - count_ab, count_b, n) + spec_ln_term(rest, n - count_b, n);
    let s3 = spec_ln_term(count_ab, count_ab, count_a) + spec_ln_term(
        count_a - count_ab,
        count_a - count_ab,
        count_a,
    );
    let s4 = spec_ln_term(count_b - count_ab, count_b - count_ab, n - count_a) + spec_ln_term(
        rest,
        rest,
        n - count_a,
    );
    -2 * ((s1 + s2) - (s3 + s4))
}

/// Computes `spec_col_log_likelihood` exactly.
///
/// The hypothesis terms for the pair itself contribute nothing when
/// `count_a == count_ab` or `count_b == count_ab`, per the documented
/// special-case policy.
pub fn col_log_likelihood(count_a: u64, count_b: u64, count_ab: u64, n: u64) -> (r: i128)
    requires
        count_ab <= count_a,
        count_ab <= count_b,
        count_a <= n,
        count_b <= n,
    ensures
        r == spec_col_log_likelihood(count_a as int, count_b as int, count_ab as int, n as int),
        -0x2000_0000_0000_0000_0000_0000 <= r <= 0x2000_0000_0000_0000_0000_0000,
{
    let rest_wide: i128 = n as i128 - count_a as i128 - count_b as i128 + count_ab as i128;
    let rest: u64 = if rest_wide < 0 {
        0
    } else {
        rest_wide as u64
    };
    let s1a: i128 = ln_term(count_ab, count_b, n);
    let s1b: i128 = ln_term(count_a - count_ab, n - count_b, n);
    let s2a: i128 = ln_term(count_b - count_ab, count_b, n);
    let s2b: i128 = ln_term(rest, n - count_b, n);
    let s3a: i128 = ln_term(count_ab, count_ab, count_a);
    let s3b: i128 = ln_term(count_a - count_ab, count_a - count_ab, count_a);
    let s4a: i128 = if count_b - count_ab <= n - count_a {
        ln_term(count_b - count_ab, count_b - count_ab, n - count_a)
    } else {
        0
    };
    let s4b: i128 = if rest <= n - count_a {
        ln_term(rest, rest, n - count_a)
    } else {
        0
    };
    -2 * ((s1a + s1b + s2a + s2b) - (s3a + s3b + s4a + s4b))
}

/// A probability argument of exactly zero or one contributes zero to a
/// likelihood score, whatever its coefficient.
pub proof fn lemma_degenerate_probability_contributes_zero(coef: int, num: int, den: int)
    requires
        num == 0 || num == den,
    ensures
        spec_ln_term(coef, num, den) == 0,
{
}

} // verus!
