//! Signed fixed-point scalars with 32 fractional bits.
//!
//! A quantity `x` is stored as the integer `round(x * 2^32)` in an
//! `i64`; wide intermediates use `i128` carrying 64 fractional bits.
//! All rounding is truncation toward zero, which is symmetric under
//! negation, so mirrored geometry produces mirrored arithmetic.

use vstd::prelude::*;

verus! {

use vstd::arithmetic::div_mod::lemma_div_is_ordered;
use vstd::arithmetic::div_mod::lemma_div_pos_is_pos;
use vstd::arithmetic::div_mod::lemma_fundamental_div_mod;

/// One whole unit: 2^32.
pub const FX_ONE: i64 = 0x1_0000_0000;

/// One whole unit as a wide intermediate.
pub const FX_ONE_W: i128 = 0x1_0000_0000;

/// The circle constant pi at 32 fractional bits, rounded to nearest.
pub const FX_PI: i64 = 13493037705;

/// Quotient truncated toward zero; the rounding used by every scaling
/// step of the engine. Meaningful for `b > 0`, where it agrees with
/// Euclidean division on non-negative dividends.
pub open spec fn tdiv(a: int, b: int) -> int {
    if a >= 0 {
        a / b
    } else {
        -((-a) / b)
    }
}

/// Truncation toward zero is an odd function of the dividend.
pub proof fn lemma_tdiv_neg(a: int, b: int)
    requires
        b > 0,
    ensures
        tdiv(-a, b) == -tdiv(a, b),
{
}

/// The quotient shrinks with the dividend's magnitude.
pub proof fn lemma_tdiv_bound(a: int, b: int, m: int)
    requires
        b > 0,
        -m <= a,
        a <= m,
    ensures
        -(m / b) <= tdiv(a, b),
        tdiv(a, b) <= m / b,
{
    if a >= 0 {
        lemma_div_is_ordered(a, m, b);
        lemma_div_pos_is_pos(a, b);
    } else {
        lemma_div_is_ordered(-a, m, b);
        lemma_div_pos_is_pos(-a, b);
    }
}

/// The truncated quotient reconstructs the dividend to within `b`.
pub proof fn lemma_tdiv_exact(a: int, b: int)
    requires
        b > 0,
    ensures
        a >= 0 ==> b * tdiv(a, b) <= a < b * tdiv(a, b) + b,
        a < 0 ==> b * tdiv(a, b) - b < a <= b * tdiv(a, b),
{
    if a >= 0 {
        lemma_fundamental_div_mod(a, b);
        vstd::arithmetic::div_mod::lemma_mod_bound(a, b);
    } else {
        lemma_fundamental_div_mod(-a, b);
        vstd::arithmetic::div_mod::lemma_mod_bound(-a, b);
        let q: int = (-a) / b;
        let m: int = (-a) % b;
        assert(-a == b * q + m);
        assert(b * tdiv(a, b) == -(b * q)) by (nonlinear_arith)
            requires
                tdiv(a, b) == -q,
        ;
    }
}

/// A truncated quotient of a non-negative dividend is monotone in it.
pub proof fn lemma_tdiv_ordered(a: int, c: int, b: int)
    requires
        b > 0,
        0 <= a <= c,
    ensures
        0 <= tdiv(a, b) <= tdiv(c, b),
{
    lemma_div_is_ordered(a, c, b);
    lemma_div_pos_is_pos(a, b);
}

/// Wide quotient truncated toward zero.
pub fn tdiv128(a: i128, b: i128) -> (r: i128)
    requires
        b > 0,
        a > i128::MIN,
    ensures
        r == tdiv(a as int, b as int),
        a >= 0 ==> 0 <= r <= a,
        a < 0 ==> a <= r <= 0,
{
    if a >= 0 {
        let q: u128 = (a as u128) / (b as u128);
        proof {
            lemma_div_is_ordered(a as int, a as int, b as int);
            lemma_div_pos_is_pos(a as int, b as int);
            lemma_div_is_ordered(0, a as int, b as int);
            assert((a as int) / (b as int) <= a as int) by {
                vstd::arithmetic::div_mod::lemma_div_is_ordered_by_denominator(a as int, 1, b as int);
            };
        }
        q as i128
    } else {
        let na: i128 = -a;
        let q: u128 = (na as u128) / (b as u128);
        proof {
            lemma_div_pos_is_pos(na as int, b as int);
            assert((na as int) / (b as int) <= na as int) by {
                vstd::arithmetic::div_mod::lemma_div_is_ordered_by_denominator(na as int, 1, b as int);
            };
        }
        -(q as i128)
    }
}

/// Product of two fixed-point scalars, truncated toward zero.
pub open spec fn spec_fx_mul(a: int, b: int) -> int {
    tdiv(a * b, 0x1_0000_0000)
}

/// Bound on the magnitude of operands accepted by `fx_mul`.
pub const FX_MUL_LIM: i64 = 0x8000_0000_0000;

/// Fixed-point multiply: `(a * b) / 2^32`, truncated toward zero.
pub fn fx_mul(a: i64, b: i64) -> (r: i64)
    requires
        -FX_MUL_LIM <= a <= FX_MUL_LIM,
        -FX_MUL_LIM <= b <= FX_MUL_LIM,
    ensures
        r == spec_fx_mul(a as int, b as int),
        -0x4000_0000_0000_0000 <= r <= 0x4000_0000_0000_0000,
        a >= 0 && b >= 0 ==> r >= 0,
{
    proof {
        assert((a as int) * (b as int) <= 0x4000_0000_0000_0000_0000_0000
            && (a as int) * (b as int) >= -0x4000_0000_0000_0000_0000_0000) by (nonlinear_arith)
            requires
                -FX_MUL_LIM <= a <= FX_MUL_LIM,
                -FX_MUL_LIM <= b <= FX_MUL_LIM,
        ;
    }
    let p: i128 = (a as i128) * (b as i128);
    let q: i128 = tdiv128(p, FX_ONE_W);
    proof {
        lemma_tdiv_bound(p as int, FX_ONE_W as int, 0x4000_0000_0000_0000_0000_0000);
        if a >= 0 && b >= 0 {
            assert((a as int) * (b as int) >= 0) by (nonlinear_arith)
                requires
                    a >= 0,
                    b >= 0,
            ;
        }
    }
    q as i64
}

/// A fixed-point product of two factors in `[0, 1]` stays in `[0, 1]`.
pub proof fn lemma_unit_mul(a: int, b: int)
    requires
        0 <= a <= FX_ONE as int,
        0 <= b <= FX_ONE as int,
    ensures
        0 <= spec_fx_mul(a, b) <= FX_ONE as int,
{
    let u: int = FX_ONE as int;
    assert(0 <= a * b <= u * u) by (nonlinear_arith)
        requires
            0 <= a <= u,
            0 <= b <= u,
    ;
    lemma_tdiv_ordered(a * b, u * u, u);
    assert((u * u) / u == u) by (nonlinear_arith)
        requires
            u > 0,
    ;
}

/// The integer square root, as a recursively defined specification.
pub open spec fn spec_isqrt(n: int) -> int
    decreases n,
{
    if n <= 0 {
        0
    } else {
        let p = spec_isqrt(n - 1);
        if (p + 1) * (p + 1) <= n {
            p + 1
        } else {
            p
        }
    }
}

/// `spec_isqrt(n)` is the greatest integer whose square is at most `n`.
pub proof fn lemma_isqrt_prop(n: int)
    requires
        n >= 0,
    ensures
        0 <= spec_isqrt(n),
        spec_isqrt(n) * spec_isqrt(n) <= n,
        n < (spec_isqrt(n) + 1) * (spec_isqrt(n) + 1),
    decreases n,
{
    if n == 0 {
    } else {
        lemma_isqrt_prop(n - 1);
        let p = spec_isqrt(n - 1);
        if (p + 1) * (p + 1) <= n {
            assert(n - 1 < (p + 1) * (p + 1));
            assert(n < (p + 2) * (p + 2)) by (nonlinear_arith)
                requires
                    n - 1 < (p + 1) * (p + 1),
                    0 <= p,
            ;
        }
    }
}

/// Any integer satisfying the square-root property equals `spec_isqrt`.
pub proof fn lemma_isqrt_agrees(n: int, r: int)
    requires
        n >= 0,
        0 <= r,
        r * r <= n,
        n < (r + 1) * (r + 1),
    ensures
        r == spec_isqrt(n),
{
    lemma_isqrt_prop(n);
    let s = spec_isqrt(n);
    if r < s {
        assert((r + 1) * (r + 1) <= s * s) by (nonlinear_arith)
            requires
                0 <= r,
                r + 1 <= s,
        ;
    }
    if s < r {
        assert((s + 1) * (s + 1) <= r * r) by (nonlinear_arith)
            requires
                0 <= s,
                s + 1 <= r,
        ;
    }
}

/// Integer square root: the greatest `r` with `r * r <= n`.
pub fn isqrt128(n: u128) -> (r: u128)
    requires
        n < 0x4000_0000_0000_0000_0000_0000_0000_0000,
    ensures
        r * r <= n,
        n < (r + 1) * (r + 1),
        r < 0x8000_0000_0000_0000,
{
    let mut lo: u128 = 0;
    let mut hi: u128 = 0x8000_0000_0000_0000;
    proof {
        assert((hi as int) * (hi as int) == 0x4000_0000_0000_0000_0000_0000_0000_0000) by (nonlinear_arith)
            requires
                hi == 0x8000_0000_0000_0000,
        ;
    }
    while lo + 1 < hi
        invariant
            lo < hi,
            hi <= 0x8000_0000_0000_0000,
            (lo as int) * (lo as int) <= n,
            n < (hi as int) * (hi as int),
        decreases hi - lo,
    {
        let mid: u128 = lo + (hi - lo) / 2;
        proof {
            assert((mid as int) * (mid as int) < 0x4000_0000_0000_0000_0000_0000_0000_0000) by (nonlinear_arith)
                requires
                    mid < 0x8000_0000_0000_0000,
            ;
        }
        if mid * mid <= n {
            lo = mid;
        } else {
            hi = mid;
        }
    }
    lo
}

} // verus!
