//! Fixed-point scalar arithmetic.
//!
//! Every physical quantity of the simulation (length, velocity, force,
//! stiffness, time) is an `i64` counting thousandths of a world unit.
//! Multiplication and division rescale their result and truncate toward
//! zero; the square root is the exact integer square root. All operations
//! are proved exact against the spec-level functions below, so a step of
//! the simulation is a mathematical function of its inputs.

use vstd::prelude::*;
use vstd::arithmetic::div_mod::{
    lemma_div_is_ordered, lemma_div_pos_is_pos, lemma_fundamental_div_mod,
    lemma_div_multiples_vanish, lemma_mod_bound,
};
use vstd::arithmetic::mul::lemma_mul_upper_bound;

verus! {

/// Number of fixed-point units in one world unit.
pub const SCALE: i64 = 1000;

/// Magnitude of an integer.
pub open spec fn absi(a: int) -> int {
    if a < 0 {
        -a
    } else {
        a
    }
}

/// Division truncated toward zero, for a positive divisor: the rounding
/// every fixed-point operation of the simulation uses.
pub open spec fn sdiv(a: int, b: int) -> int {
    if a >= 0 {
        a / b
    } else {
        -((-a) / b)
    }
}

/// The fixed-point product: the raw product carries one factor of SCALE
/// too many.
pub open spec fn fxm(a: int, b: int) -> int {
    sdiv(a * b, SCALE as int)
}

/// The fixed-point quotient: the dividend is scaled up to keep the result
/// in fixed-point units.
pub open spec fn fxd(a: int, b: int) -> int {
    sdiv(a * (SCALE as int), b)
}

/// The integer square root: the greatest `r` with `r * r <= n`.
pub open spec fn isqrt_spec(n: int) -> int
    decreases n,
{
    if n <= 0 {
        0
    } else {
        let p = isqrt_spec(n - 1);
        if (p + 1) * (p + 1) <= n {
            p + 1
        } else {
            p
        }
    }
}

/// The magnitude of a product is the product of the magnitudes, and the
/// product's sign follows the factors' signs.
pub proof fn lemma_abs_mul(a: int, b: int)
    ensures
        absi(a * b) == absi(a) * absi(b),
        (a >= 0 && b >= 0) || (a <= 0 && b <= 0) ==> a * b >= 0,
        (a >= 0 && b <= 0) || (a <= 0 && b >= 0) ==> a * b <= 0,
{
    if a >= 0 && b >= 0 {
        assert(a * b >= 0) by (nonlinear_arith)
            requires
                a >= 0,
                b >= 0,
        ;
    } else if a >= 0 && b < 0 {
        assert(a * b <= 0 && a * (-b) == -(a * b)) by (nonlinear_arith)
            requires
                a >= 0,
                b < 0,
        ;
    } else if a < 0 && b >= 0 {
        assert(a * b <= 0 && (-a) * b == -(a * b)) by (nonlinear_arith)
            requires
                a < 0,
                b >= 0,
        ;
    } else {
        assert(a * b >= 0 && (-a) * (-b) == a * b) by (nonlinear_arith)
            requires
                a < 0,
                b < 0,
        ;
    }
}

/// The magnitude of a truncated quotient is the quotient of the magnitudes.
pub proof fn lemma_sdiv_mag(a: int, b: int)
    requires
        b >= 1,
    ensures
        absi(sdiv(a, b)) == absi(a) / b,
{
    if a >= 0 {
        lemma_div_pos_is_pos(a, b);
    } else {
        lemma_div_pos_is_pos(-a, b);
    }
}

/// A truncated quotient is bounded by any bound on the dividend, divided.
pub proof fn lemma_sdiv_le(a: int, b: int, m: int)
    requires
        b >= 1,
        absi(a) <= m,
    ensures
        absi(sdiv(a, b)) <= m / b,
{
    lemma_sdiv_mag(a, b);
    lemma_div_is_ordered(absi(a), m, b);
}

/// Multiplying a truncated quotient back by the divisor stays below the
/// dividend's magnitude.
pub proof fn lemma_sdiv_prod_le(a: int, b: int)
    requires
        b >= 1,
    ensures
        b * absi(sdiv(a, b)) <= absi(a),
{
    lemma_sdiv_mag(a, b);
    lemma_fundamental_div_mod(absi(a), b);
    lemma_mod_bound(absi(a), b);
}

/// Bounded factors give a bounded product.
pub proof fn lemma_mag_mul_le(a: int, b: int, ma: int, mb: int)
    requires
        absi(a) <= ma,
        absi(b) <= mb,
    ensures
        absi(a * b) <= ma * mb,
{
    lemma_abs_mul(a, b);
    lemma_mul_upper_bound(absi(a), ma, absi(b), mb);
}

/// From `k * x <= k * m` with positive `k`, the factor `x` obeys the bound.
pub proof fn lemma_cancel_le(x: int, m: int, k: int)
    by (nonlinear_arith)
    requires
        k >= 1,
        0 <= x,
        k * x <= k * m,
    ensures
        x <= m,
{
}

/// A nonnegative value is bounded by its product with a factor of one or more.
pub proof fn lemma_grow_le(x: int, k: int)
    by (nonlinear_arith)
    requires
        k >= 1,
        0 <= x,
    ensures
        x <= k * x,
{
}

/// The defining property of the integer square root.
pub proof fn lemma_isqrt_property(n: int)
    requires
        n >= 0,
    ensures
        isqrt_spec(n) >= 0,
        isqrt_spec(n) * isqrt_spec(n) <= n,
        n < (isqrt_spec(n) + 1) * (isqrt_spec(n) + 1),
    decreases n,
{
    if n > 0 {
        lemma_isqrt_property(n - 1);
        let p = isqrt_spec(n - 1);
        if (p + 1) * (p + 1) <= n {
            assert((p + 1) * (p + 1) < (p + 2) * (p + 2)) by (nonlinear_arith)
                requires
                    p >= 0,
            ;
        }
    }
}

/// Any integer bracketed by consecutive squares is the square root.
pub proof fn lemma_isqrt_unique(n: int, r: int)
    requires
        n >= 0,
        r >= 0,
        r * r <= n,
        n < (r + 1) * (r + 1),
    ensures
        r == isqrt_spec(n),
{
    lemma_isqrt_property(n);
    let s = isqrt_spec(n);
    if r < s {
        assert((r + 1) * (r + 1) <= s * s) by (nonlinear_arith)
            requires
                0 <= r,
                r < s,
        ;
    }
    if s < r {
        assert((s + 1) * (s + 1) <= r * r) by (nonlinear_arith)
            requires
                0 <= s,
                s < r,
        ;
    }
}

/// The square root is bounded by any value whose successor's square exceeds
/// the radicand.
pub proof fn lemma_isqrt_le(n: int, k: int)
    requires
        0 <= n,
        0 <= k,
        n < (k + 1) * (k + 1),
    ensures
        isqrt_spec(n) <= k,
{
    lemma_isqrt_property(n);
    let s = isqrt_spec(n);
    if k < s {
        assert((k + 1) * (k + 1) <= s * s) by (nonlinear_arith)
            requires
                0 <= k,
                k < s,
        ;
    }
}

/// A square's root recovers a nonnegative bound on the squared value.
pub proof fn lemma_square_le_root(c: int, n: int, l: int)
    requires
        c * c <= n,
        0 <= l,
        n < (l + 1) * (l + 1),
    ensures
        absi(c) <= l,
{
    if absi(c) > l {
        assert((l + 1) * (l + 1) <= absi(c) * absi(c) && absi(c) * absi(c) == c * c)
            by (nonlinear_arith)
            requires
                0 <= l,
                l < absi(c),
                absi(c) == if c < 0 { -c } else { c },
        ;
    }
}

/// Truncated division loses less than one divisor's worth of the
/// dividend: scaled back up, the quotient's square falls short of the
/// dividend's square by at most `2 * b * |x|`.
pub proof fn lemma_trunc_sq_bounds(x: int, b: int)
    requires
        b >= 1,
    ensures
        b * absi(sdiv(x, b)) <= absi(x),
        (b * absi(sdiv(x, b))) * (b * absi(sdiv(x, b))) >= x * x - 2 * b * absi(x),
{
    lemma_sdiv_mag(x, b);
    lemma_sdiv_prod_le(x, b);
    lemma_fundamental_div_mod(absi(x), b);
    lemma_mod_bound(absi(x), b);
    let q = absi(sdiv(x, b));
    assert(b * q > absi(x) - b);
    lemma_abs_mul(x, x);
    if absi(x) >= b {
        assert((b * q) * (b * q) >= (absi(x) - b) * (absi(x) - b)) by (nonlinear_arith)
            requires
                b * q >= absi(x) - b,
                absi(x) - b >= 0,
        ;
        assert((absi(x) - b) * (absi(x) - b) >= absi(x) * absi(x) - 2 * b * absi(x))
            by (nonlinear_arith);
    } else {
        assert(absi(x) * absi(x) - 2 * b * absi(x) <= 0) by (nonlinear_arith)
            requires
                0 <= absi(x),
                absi(x) < b,
        ;
        assert((b * q) * (b * q) >= 0) by (nonlinear_arith);
    }
}

/// The magnitude of an `i64`, widened.
fn mag_u128(a: i64) -> (r: u128)
    ensures
        r as int == absi(a as int),
{
    if a >= 0 {
        a as u128
    } else {
        (-(a as i128)) as u128
    }
}

/// Fixed-point multiplication, exact per `fxm`.
pub fn mul_fx(a: i64, b: i64) -> (r: i64)
    requires
        absi(a as int) * absi(b as int) <= 9_223_372_036_854_775_807 * 1000,
    ensures
        r as int == fxm(a as int, b as int),
        1000 * absi(r as int) <= absi(a as int) * absi(b as int),
{
    let ma: u128 = mag_u128(a);
    let mb: u128 = mag_u128(b);
    proof {
        lemma_abs_mul(a as int, b as int);
        lemma_mul_upper_bound(
            ma as int,
            9_223_372_036_854_775_808,
            mb as int,
            9_223_372_036_854_775_808,
        );
    }
    let p: u128 = ma * mb;
    let q: u128 = p / 1000;
    let ghost ai: int = a as int;
    let ghost bi: int = b as int;
    proof {
        assert(p as int == absi(ai * bi));
        assert(q as int == absi(ai * bi) / 1000);
    }
    if (a < 0) != (b < 0) {
        proof {
            if ai * bi >= 0 {
                assert(ai * bi == 0);
            }
        }
        (-(q as i128)) as i64
    } else {
        q as i64
    }
}

/// Fixed-point division by a positive divisor, exact per `fxd`.
pub fn div_fx(a: i64, b: i64) -> (r: i64)
    requires
        b >= 1,
        absi(a as int) * 1000 <= 9_223_372_036_854_775_807 * (b as int),
    ensures
        r as int == fxd(a as int, b as int),
        (b as int) * absi(r as int) <= absi(a as int) * 1000,
{
    let ma: u128 = mag_u128(a);
    let scaled: u128 = ma * 1000;
    let q: u128 = scaled / (b as u128);
    let ghost ai: int = a as int;
    let ghost bi: int = b as int;
    proof {
        assert(scaled as int == absi(ai * 1000));
        assert(absi(ai * 1000) == absi(ai) * 1000);
        lemma_div_is_ordered(absi(ai) * 1000, 9_223_372_036_854_775_807 * bi, bi);
        lemma_div_multiples_vanish(9_223_372_036_854_775_807, bi);
        assert(bi * 9_223_372_036_854_775_807 == 9_223_372_036_854_775_807 * bi)
            by (nonlinear_arith);
        assert(q as int <= 9_223_372_036_854_775_807);
        lemma_sdiv_mag(ai * 1000, bi);
        lemma_sdiv_prod_le(ai * 1000, bi);
        if ai >= 0 {
            assert(ai * 1000 >= 0);
            assert(sdiv(ai * 1000, bi) == q as int);
        } else {
            assert(ai * 1000 < 0);
            assert(-(ai * 1000) == (-ai) * 1000);
            assert(sdiv(ai * 1000, bi) == -(q as int));
        }
    }
    if a < 0 {
        (-(q as i128)) as i64
    } else {
        q as i64
    }
}

/// The exact integer square root, by bisection.
pub fn isqrt(n: u128) -> (r: u128)
    ensures
        r as int == isqrt_spec(n as int),
        r as int * r as int <= n as int,
        (n as int) < (r as int + 1) * (r as int + 1),
{
    proof {
        lemma_isqrt_property(n as int);
    }
    if n == 0 {
        return 0;
    }
    let mut lo: u128 = 0;
    let mut hi: u128 = 18_446_744_073_709_551_616;
    proof {
        assert((hi as int) * (hi as int) > n as int) by (nonlinear_arith)
            requires
                hi as int == 18_446_744_073_709_551_616,
                n as int <= 340_282_366_920_938_463_463_374_607_431_768_211_455,
        ;
    }
    while lo + 1 < hi
        invariant
            lo < hi,
            hi <= 18_446_744_073_709_551_616,
            lo as int * lo as int <= n as int,
            (n as int) < hi as int * hi as int,
        decreases hi as int - lo as int,
    {
        let mid: u128 = lo + (hi - lo) / 2;
        proof {
            lemma_mul_upper_bound(
                mid as int,
                18_446_744_073_709_551_615,
                mid as int,
                18_446_744_073_709_551_615,
            );
        }
        if mid * mid <= n {
            lo = mid;
        } else {
            hi = mid;
        }
    }
    proof {
        lemma_isqrt_unique(n as int, lo as int);
    }
    lo
}

} // verus!
