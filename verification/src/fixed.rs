//! Fixed-point arithmetic shared by the whole engine.
//!
//! A coordinate is an `i64` holding `FP_ONE` units per grid cell, so the
//! fractional part of a position is the offset inside its cell.  Products of
//! two fixed-point values are rescaled by a division that truncates toward
//! zero; [`fp_mul`] is the specification of that operation and [`mul_fp`]
//! computes it.

use vstd::prelude::*;

verus! {

/// Number of fixed-point units in one grid cell.
pub const FP_ONE: i64 = 65536;

/// Division that truncates toward zero, the rounding used when a product of
/// two fixed-point values is scaled back down.
pub open spec fn tdiv(a: int, d: int) -> int {
    if a >= 0 {
        a / d
    } else {
        -((-a) / d)
    }
}

/// Product of two fixed-point values, rescaled to fixed point.
pub open spec fn fp_mul(a: int, b: int) -> int {
    tdiv(a * b, FP_ONE as int)
}

/// Grid cell containing a fixed-point coordinate (floor of the value in
/// cell units).
pub open spec fn cell_of(v: int) -> int {
    v / (FP_ONE as int)
}

/// Truncating division stays within one unit of the exact quotient:
/// `tdiv(a, d) * d` never overshoots `a`, and falls short by less than `d`.
pub proof fn lemma_tdiv_close(a: int, d: int)
    requires
        d > 0,
    ensures
        a >= 0 ==> 0 <= a - tdiv(a, d) * d < d,
        a < 0 ==> 0 <= tdiv(a, d) * d - a < d,
        tdiv(-a, d) == -tdiv(a, d),
{
    broadcast use vstd::arithmetic::mul::lemma_mul_is_commutative;

    if a >= 0 {
        vstd::arithmetic::div_mod::lemma_fundamental_div_mod(a, d);
        vstd::arithmetic::div_mod::lemma_mod_bound(a, d);
    } else {
        vstd::arithmetic::div_mod::lemma_fundamental_div_mod(-a, d);
        vstd::arithmetic::div_mod::lemma_mod_bound(-a, d);
        assert((-((-a) / d)) * d == -(((-a) / d) * d)) by (nonlinear_arith);
    }
}

/// The magnitude of a truncating quotient is bounded by the scaled-down
/// magnitude bound of the dividend.
pub proof fn lemma_tdiv_bound(a: int, d: int, m: int)
    requires
        d > 0,
        -m <= a <= m,
        0 <= m,
    ensures
        -(m / d) <= tdiv(a, d) <= m / d,
{
    lemma_tdiv_close(a, d);
    if a >= 0 {
        vstd::arithmetic::div_mod::lemma_div_is_ordered(a, m, d);
        vstd::arithmetic::div_mod::lemma_div_pos_is_pos(a, d);
    } else {
        vstd::arithmetic::div_mod::lemma_div_is_ordered(-a, m, d);
        vstd::arithmetic::div_mod::lemma_div_pos_is_pos(-a, d);
    }
}

/// The product of the magnitudes of two factors is the magnitude of their
/// product.
proof fn lemma_abs_mul(a: int, b: int, am: int, bm: int)
    by (nonlinear_arith)
    requires
        am == (if a >= 0 { a } else { -a }),
        bm == (if b >= 0 { b } else { -b }),
    ensures
        am * bm == (if a * b >= 0 { a * b } else { -(a * b) }),
        a * b >= 0 <==> (a >= 0) == (b >= 0) || a * b == 0,
{
}

/// Bounds on two factors bound their product.
pub proof fn lemma_mul_bounds(a: int, b: int, ma: int, mb: int)
    by (nonlinear_arith)
    requires
        -ma <= a <= ma,
        -mb <= b <= mb,
        0 <= ma,
        0 <= mb,
    ensures
        -(ma * mb) <= a * b <= ma * mb,
{
}

/// A vector whose squared norm is bounded has bounded components.
pub proof fn lemma_comp_bound(x: int, y: int, b: int)
    by (nonlinear_arith)
    requires
        0 <= b,
        x * x + y * y <= b * b,
    ensures
        -b <= x <= b,
        -b <= y <= b,
{
}

/// Truncating division never increases a square: the rescaled quotient is
/// no farther from zero than the dividend.
pub proof fn lemma_tdiv_sq(a: int, d: int)
    requires
        d > 0,
    ensures
        tdiv(a, d) * tdiv(a, d) * (d * d) <= a * a,
{
    lemma_tdiv_close(a, d);
    assert(tdiv(a, d) * tdiv(a, d) * (d * d) <= a * a) by (nonlinear_arith)
        requires
            d > 0,
            a >= 0 ==> 0 <= a - tdiv(a, d) * d < d,
            a < 0 ==> 0 <= tdiv(a, d) * d - a < d;
}

/// Rescaling two factors by truncating division moves their product by at
/// most `2 * m * FP_ONE + FP_ONE * FP_ONE`, when both factors are bounded
/// by `m`.
pub proof fn lemma_trunc_prod_err(a: int, b: int, m: int)
    requires
        -m <= a <= m,
        -m <= b <= m,
        0 <= m,
    ensures
        a * b - (2 * m * 65536 + 65536 * 65536) <= (tdiv(a, 65536) * tdiv(b, 65536)) * (65536
            * 65536) <= a * b + (2 * m * 65536 + 65536 * 65536),
{
    lemma_tdiv_close(a, 65536);
    lemma_tdiv_close(b, 65536);
    let na = tdiv(a, 65536);
    let nb = tdiv(b, 65536);
    let ra = a - na * 65536;
    let rb = b - nb * 65536;
    assert(-65536 < ra < 65536 && -65536 < rb < 65536);
    assert((na * nb) * (65536 * 65536) == (a - ra) * (b - rb)) by (nonlinear_arith)
        requires
            na * 65536 == a - ra,
            nb * 65536 == b - rb;
    assert(a * b - (2 * m * 65536 + 65536 * 65536) <= (a - ra) * (b - rb) <= a * b + (2 * m
        * 65536 + 65536 * 65536)) by (nonlinear_arith)
        requires
            -m <= a <= m,
            -m <= b <= m,
            0 <= m,
            -65536 < ra < 65536,
            -65536 < rb < 65536;
}

/// Fixed-point multiply: `(a * b) / FP_ONE`, truncated toward zero.
///
/// The bound on the product keeps every intermediate value inside `i64`.
pub fn mul_fp(a: i64, b: i64) -> (r: i64)
    requires
        -0x4000_0000_0000_0000 <= a * b <= 0x4000_0000_0000_0000,
        a > i64::MIN,
        b > i64::MIN,
    ensures
        r == fp_mul(a as int, b as int),
{
    let negative: bool = (a < 0) != (b < 0);
    let am: i64 = if a < 0 { -a } else { a };
    let bm: i64 = if b < 0 { -b } else { b };
    proof {
        lemma_abs_mul(a as int, b as int, am as int, bm as int);
    }
    let p: u64 = (am as u64) * (bm as u64);
    let q: u64 = p / 65536;
    proof {
        vstd::arithmetic::div_mod::lemma_div_is_ordered(
            p as int,
            0x4000_0000_0000_0000,
            65536,
        );
        vstd::arithmetic::div_mod::lemma_div_pos_is_pos(p as int, 65536);
    }
    if negative {
        -(q as i64)
    } else {
        q as i64
    }
}

/// Rescales a wide intermediate value (a sum of fixed-point products) back
/// to fixed point, truncating toward zero.
pub fn scale_down(n: i64) -> (r: i64)
    requires
        n > i64::MIN,
    ensures
        r == tdiv(n as int, FP_ONE as int),
{
    if n >= 0 {
        let q: u64 = (n as u64) / 65536;
        proof {
            vstd::arithmetic::div_mod::lemma_div_is_ordered(n as int, i64::MAX as int, 65536);
            vstd::arithmetic::div_mod::lemma_div_pos_is_pos(n as int, 65536);
        }
        q as i64
    } else {
        let q: u64 = ((-n) as u64) / 65536;
        proof {
            vstd::arithmetic::div_mod::lemma_div_is_ordered((-n) as int, i64::MAX as int, 65536);
            vstd::arithmetic::div_mod::lemma_div_pos_is_pos((-n) as int, 65536);
        }
        -(q as i64)
    }
}

/// Grid cell containing the fixed-point coordinate `v`: the floor of
/// `v / FP_ONE`, also for negative coordinates.
pub fn cell_index(v: i64) -> (r: i64)
    requires
        v > i64::MIN + 65536,
    ensures
        r == cell_of(v as int),
{
    if v >= 0 {
        let q: u64 = (v as u64) / 65536;
        proof {
            vstd::arithmetic::div_mod::lemma_div_is_ordered(v as int, i64::MAX as int, 65536);
            vstd::arithmetic::div_mod::lemma_div_pos_is_pos(v as int, 65536);
        }
        q as i64
    } else {
        let m: u64 = (-v) as u64;
        let q: u64 = m / 65536;
        let rem: u64 = m % 65536;
        proof {
            vstd::arithmetic::div_mod::lemma_fundamental_div_mod(m as int, 65536);
            vstd::arithmetic::div_mod::lemma_mod_bound(m as int, 65536);
            vstd::arithmetic::div_mod::lemma_div_is_ordered(m as int, i64::MAX as int, 65536);
            vstd::arithmetic::div_mod::lemma_div_pos_is_pos(m as int, 65536);
            if rem == 0 {
                vstd::arithmetic::div_mod::lemma_fundamental_div_mod_converse_div(
                    v as int,
                    65536,
                    -(q as int),
                    0,
                );
            } else {
                assert(v as int == (-(q as int) - 1) * 65536 + (65536 - rem));
                vstd::arithmetic::div_mod::lemma_fundamental_div_mod_converse_div(
                    v as int,
                    65536,
                    -(q as int) - 1,
                    65536 - rem as int,
                );
            }
        }
        if rem == 0 {
            -(q as i64)
        } else {
            -(q as i64) - 1
        }
    }
}

} // verus!
