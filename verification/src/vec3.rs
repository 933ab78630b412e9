//! Exact integer 3-vectors.
//!
//! `Vec3` holds fixed-point coordinates at 32 fractional bits;
//! `Wide3` holds wide intermediates (cross products, at 64 fractional
//! bits). The ghost type `GV` mirrors a vector with unbounded integer
//! components; every executable operation's contract equates its
//! result with the corresponding ghost operation, so that the engine's
//! whole computation has an exact integer description. Magnitude
//! bounds are threaded through ghost arguments so that callers can
//! discharge overflow obligations once.

use vstd::prelude::*;

verus! {

use crate::fx::FX_ONE_W;
use crate::fx::lemma_tdiv_bound;
use crate::fx::spec_fx_mul;
use crate::fx::tdiv;
use crate::fx::tdiv128;

/// A point or direction with fixed-point coordinates.
#[derive(Clone, Copy, Debug)]
pub struct Vec3 {
    pub x: i64,
    pub y: i64,
    pub z: i64,
}

/// A wide vector intermediate carrying 64 fractional bits.
#[derive(Clone, Copy, Debug)]
pub struct Wide3 {
    pub x: i128,
    pub y: i128,
    pub z: i128,
}

/// Ghost mirror of a vector: exact, unbounded integer components.
pub ghost struct GV {
    pub x: int,
    pub y: int,
    pub z: int,
}

/// The ghost value of a fixed-point vector.
pub open spec fn gv(v: Vec3) -> GV {
    GV { x: v.x as int, y: v.y as int, z: v.z as int }
}

/// The ghost value of a wide vector.
pub open spec fn gw(v: Wide3) -> GV {
    GV { x: v.x as int, y: v.y as int, z: v.z as int }
}

pub open spec fn g_add(a: GV, b: GV) -> GV {
    GV { x: a.x + b.x, y: a.y + b.y, z: a.z + b.z }
}

pub open spec fn g_sub(a: GV, b: GV) -> GV {
    GV { x: a.x - b.x, y: a.y - b.y, z: a.z - b.z }
}

pub open spec fn g_dot(a: GV, b: GV) -> int {
    a.x * b.x + a.y * b.y + a.z * b.z
}

pub open spec fn g_cross(a: GV, b: GV) -> GV {
    GV { x: a.y * b.z - a.z * b.y, y: a.z * b.x - a.x * b.z, z: a.x * b.y - a.y * b.x }
}

/// Rescale down by one fixed-point unit, truncating toward zero.
pub open spec fn g_shrink(a: GV) -> GV {
    GV {
        x: tdiv(a.x, FX_ONE_W as int),
        y: tdiv(a.y, FX_ONE_W as int),
        z: tdiv(a.z, FX_ONE_W as int),
    }
}

/// Fixed-point scalar times vector, truncated per component.
pub open spec fn g_scale(c: int, a: GV) -> GV {
    GV { x: spec_fx_mul(c, a.x), y: spec_fx_mul(c, a.y), z: spec_fx_mul(c, a.z) }
}

/// Componentwise midpoint, truncated toward zero.
pub open spec fn g_mid(a: GV, b: GV) -> GV {
    GV { x: tdiv(a.x + b.x, 2), y: tdiv(a.y + b.y, 2), z: tdiv(a.z + b.z, 2) }
}

/// Every component of `v` lies in `[-m, m]`.
pub open spec fn v3_bounded(v: Vec3, m: int) -> bool {
    &&& -m <= v.x <= m
    &&& -m <= v.y <= m
    &&& -m <= v.z <= m
}

/// Every component of `v` lies in `[-m, m]`.
pub open spec fn w3_bounded(v: Wide3, m: int) -> bool {
    &&& -m <= v.x <= m
    &&& -m <= v.y <= m
    &&& -m <= v.z <= m
}

/// Componentwise difference.
pub fn v3_sub(a: &Vec3, b: &Vec3) -> (r: Vec3)
    requires
        v3_bounded(*a, 0x2000_0000_0000_0000),
        v3_bounded(*b, 0x2000_0000_0000_0000),
    ensures
        gv(r) == g_sub(gv(*a), gv(*b)),
        r.x == a.x - b.x,
        r.y == a.y - b.y,
        r.z == a.z - b.z,
{
    Vec3 { x: a.x - b.x, y: a.y - b.y, z: a.z - b.z }
}

/// Componentwise sum.
pub fn v3_add(a: &Vec3, b: &Vec3, Ghost(ma): Ghost<int>, Ghost(mb): Ghost<int>) -> (r: Vec3)
    requires
        0 <= ma,
        0 <= mb,
        v3_bounded(*a, ma),
        v3_bounded(*b, mb),
        ma + mb <= 0x7fff_ffff_ffff_ffff,
    ensures
        gv(r) == g_add(gv(*a), gv(*b)),
        v3_bounded(r, ma + mb),
{
    Vec3 { x: a.x + b.x, y: a.y + b.y, z: a.z + b.z }
}

/// Scale by a fixed-point factor in `[0, 1]`; the magnitude bound of
/// the vector is preserved.
pub fn v3_scale_unit(c: i64, v: &Vec3, Ghost(m): Ghost<int>) -> (r: Vec3)
    requires
        0 <= c <= crate::fx::FX_ONE,
        0 <= m <= 0x8000_0000_0000,
        v3_bounded(*v, m),
    ensures
        gv(r) == g_scale(c as int, gv(*v)),
        v3_bounded(r, m),
{
    proof {
        lemma_unit_scale_bound(c as int, v.x as int, m);
        lemma_unit_scale_bound(c as int, v.y as int, m);
        lemma_unit_scale_bound(c as int, v.z as int, m);
    }
    Vec3 {
        x: crate::fx::fx_mul(c, v.x),
        y: crate::fx::fx_mul(c, v.y),
        z: crate::fx::fx_mul(c, v.z),
    }
}

/// A factor in `[0, 1]` cannot grow a value's magnitude.
pub proof fn lemma_unit_scale_bound(c: int, a: int, m: int)
    requires
        0 <= c <= FX_ONE_W as int,
        0 <= m,
        -m <= a <= m,
    ensures
        -m <= spec_fx_mul(c, a) <= m,
{
    let u: int = FX_ONE_W as int;
    assert(-(u * m) <= c * a <= u * m) by (nonlinear_arith)
        requires
            0 <= c <= u,
            -m <= a <= m,
            0 <= m,
    ;
    lemma_tdiv_bound(c * a, u, u * m);
    assert((u * m) / u == m) by (nonlinear_arith)
        requires
            u > 0,
    ;
}

/// Componentwise midpoint, truncated toward zero; stays within the
/// operands' shared magnitude bound.
pub fn v3_mid(a: &Vec3, b: &Vec3, Ghost(m): Ghost<int>) -> (r: Vec3)
    requires
        0 <= m <= 0x2000_0000_0000_0000,
        v3_bounded(*a, m),
        v3_bounded(*b, m),
    ensures
        gv(r) == g_mid(gv(*a), gv(*b)),
        v3_bounded(r, m),
{
    proof {
        lemma_tdiv_bound((a.x + b.x) as int, 2, 2 * m);
        lemma_tdiv_bound((a.y + b.y) as int, 2, 2 * m);
        lemma_tdiv_bound((a.z + b.z) as int, 2, 2 * m);
        assert((2 * m) / 2 == m);
    }
    let x: i128 = tdiv128((a.x as i128) + (b.x as i128), 2);
    let y: i128 = tdiv128((a.y as i128) + (b.y as i128), 2);
    let z: i128 = tdiv128((a.z as i128) + (b.z as i128), 2);
    Vec3 { x: x as i64, y: y as i64, z: z as i64 }
}

/// Exact wide dot product of two fixed-point vectors.
pub fn v3_dot(a: &Vec3, b: &Vec3, Ghost(ma): Ghost<int>, Ghost(mb): Ghost<int>) -> (r: i128)
    requires
        0 <= ma,
        0 <= mb,
        v3_bounded(*a, ma),
        v3_bounded(*b, mb),
        3 * ma * mb < 0x4000_0000_0000_0000_0000_0000_0000_0000,
    ensures
        r == g_dot(gv(*a), gv(*b)),
        -3 * ma * mb <= r <= 3 * ma * mb,
{
    proof {
        lemma_scaled_prod(ma, mb);
        lemma_nonneg_prod(ma, mb);
        lemma_prod_bound(a.x as int, b.x as int, ma, mb);
        lemma_prod_bound(a.y as int, b.y as int, ma, mb);
        lemma_prod_bound(a.z as int, b.z as int, ma, mb);
    }
    (a.x as i128) * (b.x as i128) + (a.y as i128) * (b.y as i128) + (a.z as i128) * (b.z as i128)
}

/// Exact wide cross product of two fixed-point vectors.
pub fn v3_cross(a: &Vec3, b: &Vec3, Ghost(ma): Ghost<int>, Ghost(mb): Ghost<int>) -> (r: Wide3)
    requires
        0 <= ma,
        0 <= mb,
        v3_bounded(*a, ma),
        v3_bounded(*b, mb),
        2 * ma * mb < 0x4000_0000_0000_0000_0000_0000_0000_0000,
    ensures
        gw(r) == g_cross(gv(*a), gv(*b)),
        w3_bounded(r, 2 * ma * mb),
{
    proof {
        lemma_scaled_prod(ma, mb);
        lemma_nonneg_prod(ma, mb);
        lemma_prod_bound(a.x as int, b.x as int, ma, mb);
        lemma_prod_bound(a.y as int, b.y as int, ma, mb);
        lemma_prod_bound(a.z as int, b.z as int, ma, mb);
        lemma_prod_bound(a.x as int, b.y as int, ma, mb);
        lemma_prod_bound(a.y as int, b.z as int, ma, mb);
        lemma_prod_bound(a.z as int, b.x as int, ma, mb);
        lemma_prod_bound(a.x as int, b.z as int, ma, mb);
        lemma_prod_bound(a.y as int, b.x as int, ma, mb);
        lemma_prod_bound(a.z as int, b.y as int, ma, mb);
    }
    Wide3 {
        x: (a.y as i128) * (b.z as i128) - (a.z as i128) * (b.y as i128),
        y: (a.z as i128) * (b.x as i128) - (a.x as i128) * (b.z as i128),
        z: (a.x as i128) * (b.y as i128) - (a.y as i128) * (b.x as i128),
    }
}

/// Exact dot product of a wide vector with a fixed-point vector.
pub fn w3_dot_v(n: &Wide3, v: &Vec3, Ghost(mn): Ghost<int>, Ghost(mv): Ghost<int>) -> (r: i128)
    requires
        0 <= mn,
        0 <= mv,
        w3_bounded(*n, mn),
        v3_bounded(*v, mv),
        3 * mn * mv < 0x4000_0000_0000_0000_0000_0000_0000_0000,
    ensures
        r == g_dot(gw(*n), gv(*v)),
        -3 * mn * mv <= r <= 3 * mn * mv,
{
    proof {
        lemma_scaled_prod(mn, mv);
        lemma_nonneg_prod(mn, mv);
        lemma_prod_bound(n.x as int, v.x as int, mn, mv);
        lemma_prod_bound(n.y as int, v.y as int, mn, mv);
        lemma_prod_bound(n.z as int, v.z as int, mn, mv);
    }
    n.x * (v.x as i128) + n.y * (v.y as i128) + n.z * (v.z as i128)
}

/// Rescale a wide vector down by one fixed-point unit, truncating each
/// component toward zero.
pub fn w3_shrink(n: &Wide3, Ghost(m): Ghost<int>) -> (r: Vec3)
    requires
        0 <= m <= 0x4000_0000_0000_0000_0000_0000,
        w3_bounded(*n, m),
    ensures
        gv(r) == g_shrink(gw(*n)),
        v3_bounded(r, m / (FX_ONE_W as int)),
{
    proof {
        lemma_tdiv_bound(n.x as int, FX_ONE_W as int, m);
        lemma_tdiv_bound(n.y as int, FX_ONE_W as int, m);
        lemma_tdiv_bound(n.z as int, FX_ONE_W as int, m);
        vstd::arithmetic::div_mod::lemma_div_is_ordered(
            m,
            0x4000_0000_0000_0000_0000_0000,
            FX_ONE_W as int,
        );
    }
    let x: i128 = tdiv128(n.x, FX_ONE_W);
    let y: i128 = tdiv128(n.y, FX_ONE_W);
    let z: i128 = tdiv128(n.z, FX_ONE_W);
    Vec3 { x: x as i64, y: y as i64, z: z as i64 }
}

/// Exact (untruncated) integer scalar times vector.
pub open spec fn g_smul(c: int, a: GV) -> GV {
    GV { x: c * a.x, y: c * a.y, z: c * a.z }
}

/// Rescale down by two fixed-point units (64 fractional bits),
/// truncating toward zero.
pub open spec fn g_shrink64(a: GV) -> GV {
    GV {
        x: tdiv(a.x, 0x1_0000_0000_0000_0000),
        y: tdiv(a.y, 0x1_0000_0000_0000_0000),
        z: tdiv(a.z, 0x1_0000_0000_0000_0000),
    }
}

/// The exact linear combination `c1 * v1 + c2 * v2`.
pub fn v3_comb(
    c1: i128,
    v1: &Vec3,
    c2: i128,
    v2: &Vec3,
    Ghost(mc): Ghost<int>,
    Ghost(mv): Ghost<int>,
) -> (r: Wide3)
    requires
        0 <= mc,
        0 <= mv,
        -mc <= c1 <= mc,
        -mc <= c2 <= mc,
        v3_bounded(*v1, mv),
        v3_bounded(*v2, mv),
        2 * mc * mv < 0x4000_0000_0000_0000_0000_0000_0000_0000,
    ensures
        gw(r) == g_add(g_smul(c1 as int, gv(*v1)), g_smul(c2 as int, gv(*v2))),
        w3_bounded(r, 2 * mc * mv),
{
    proof {
        lemma_scaled_prod(mc, mv);
        lemma_nonneg_prod(mc, mv);
        lemma_prod_bound(c1 as int, v1.x as int, mc, mv);
        lemma_prod_bound(c1 as int, v1.y as int, mc, mv);
        lemma_prod_bound(c1 as int, v1.z as int, mc, mv);
        lemma_prod_bound(c2 as int, v2.x as int, mc, mv);
        lemma_prod_bound(c2 as int, v2.y as int, mc, mv);
        lemma_prod_bound(c2 as int, v2.z as int, mc, mv);
    }
    Wide3 {
        x: c1 * (v1.x as i128) + c2 * (v2.x as i128),
        y: c1 * (v1.y as i128) + c2 * (v2.y as i128),
        z: c1 * (v1.z as i128) + c2 * (v2.z as i128),
    }
}

/// The exact difference `x - c * a`.
pub fn w3_sub_scaled(
    xh: &Wide3,
    c: i128,
    a: &Vec3,
    Ghost(mx): Ghost<int>,
    Ghost(mc): Ghost<int>,
    Ghost(mv): Ghost<int>,
) -> (r: Wide3)
    requires
        0 <= mx,
        0 <= mc,
        0 <= mv,
        w3_bounded(*xh, mx),
        -mc <= c <= mc,
        v3_bounded(*a, mv),
        mx + mc * mv < 0x4000_0000_0000_0000_0000_0000_0000_0000,
    ensures
        gw(r) == g_sub(gw(*xh), g_smul(c as int, gv(*a))),
        w3_bounded(r, mx + mc * mv),
{
    proof {
        lemma_nonneg_prod(mc, mv);
        lemma_prod_bound(c as int, a.x as int, mc, mv);
        lemma_prod_bound(c as int, a.y as int, mc, mv);
        lemma_prod_bound(c as int, a.z as int, mc, mv);
    }
    Wide3 { x: xh.x - c * (a.x as i128), y: xh.y - c * (a.y as i128), z: xh.z - c * (a.z as i128) }
}

/// Exact cross product of a fixed-point vector with a wide vector.
pub fn w3_cross_vw(e: &Vec3, f: &Wide3, Ghost(me): Ghost<int>, Ghost(mf): Ghost<int>) -> (r: Wide3)
    requires
        0 <= me,
        0 <= mf,
        v3_bounded(*e, me),
        w3_bounded(*f, mf),
        2 * me * mf < 0x4000_0000_0000_0000_0000_0000_0000_0000,
    ensures
        gw(r) == g_cross(gv(*e), gw(*f)),
        w3_bounded(r, 2 * me * mf),
{
    proof {
        lemma_scaled_prod(me, mf);
        lemma_nonneg_prod(me, mf);
        lemma_prod_bound(e.x as int, f.x as int, me, mf);
        lemma_prod_bound(e.y as int, f.y as int, me, mf);
        lemma_prod_bound(e.z as int, f.z as int, me, mf);
        lemma_prod_bound(e.x as int, f.y as int, me, mf);
        lemma_prod_bound(e.y as int, f.z as int, me, mf);
        lemma_prod_bound(e.z as int, f.x as int, me, mf);
        lemma_prod_bound(e.x as int, f.z as int, me, mf);
        lemma_prod_bound(e.y as int, f.x as int, me, mf);
        lemma_prod_bound(e.z as int, f.y as int, me, mf);
    }
    Wide3 {
        x: (e.y as i128) * f.z - (e.z as i128) * f.y,
        y: (e.z as i128) * f.x - (e.x as i128) * f.z,
        z: (e.x as i128) * f.y - (e.y as i128) * f.x,
    }
}

/// Rescale a wide vector down by 64 fractional bits.
pub fn w3_shrink64(f: &Wide3, Ghost(m): Ghost<int>) -> (r: Wide3)
    requires
        0 <= m <= 0x4000_0000_0000_0000_0000_0000_0000_0000,
        w3_bounded(*f, m),
    ensures
        gw(r) == g_shrink64(gw(*f)),
        w3_bounded(r, m / 0x1_0000_0000_0000_0000),
{
    proof {
        lemma_tdiv_bound(f.x as int, 0x1_0000_0000_0000_0000, m);
        lemma_tdiv_bound(f.y as int, 0x1_0000_0000_0000_0000, m);
        lemma_tdiv_bound(f.z as int, 0x1_0000_0000_0000_0000, m);
    }
    Wide3 {
        x: tdiv128(f.x, 0x1_0000_0000_0000_0000),
        y: tdiv128(f.y, 0x1_0000_0000_0000_0000),
        z: tdiv128(f.z, 0x1_0000_0000_0000_0000),
    }
}

/// Reassociate small constant multiples of a product.
pub proof fn lemma_scaled_prod(a: int, b: int)
    ensures
        2 * a * b == 2 * (a * b),
        3 * a * b == 3 * (a * b),
        -2 * a * b == -(2 * (a * b)),
        -3 * a * b == -(3 * (a * b)),
{
    assert(2 * a * b == 2 * (a * b) && 3 * a * b == 3 * (a * b) && -2 * a * b == -(2 * (a * b))
        && -3 * a * b == -(3 * (a * b))) by (nonlinear_arith);
}

/// A product of non-negative factors is non-negative.
pub proof fn lemma_nonneg_prod(a: int, b: int)
    requires
        0 <= a,
        0 <= b,
    ensures
        0 <= a * b,
{
    assert(0 <= a * b) by (nonlinear_arith)
        requires
            0 <= a,
            0 <= b,
    ;
}

/// `|a| <= ma` and `|b| <= mb` bound the product by `ma * mb`.
pub proof fn lemma_prod_bound(a: int, b: int, ma: int, mb: int)
    requires
        0 <= ma,
        0 <= mb,
        -ma <= a <= ma,
        -mb <= b <= mb,
    ensures
        -(ma * mb) <= a * b <= ma * mb,
{
    assert(-(ma * mb) <= a * b <= ma * mb) by (nonlinear_arith)
        requires
            0 <= ma,
            0 <= mb,
            -ma <= a <= ma,
            -mb <= b <= mb,
    ;
}

} // verus!
