//! Planar patches: bilinear sampling, area, and quadrant subdivision.
//!
//! A `Quad` is a planar patch given by four corners in winding order;
//! a triangle is carried as a quad whose last two corners coincide.
//! Sampling a patch at parameters `(s, t)` yields the bilinear point
//! together with the scaled surface normal (the cross product of the
//! two tangents — its magnitude is the local area element), which is
//! exactly what the view-factor kernel consumes.

use vstd::prelude::*;

verus! {

use crate::fx::FX_ONE;
use crate::fx::lemma_isqrt_agrees;
use crate::fx::lemma_tdiv_bound;
use crate::fx::lemma_unit_mul;
use crate::fx::spec_fx_mul;
use crate::fx::spec_isqrt;
use crate::fx::tdiv;
use crate::fx::tdiv128;
use crate::fx::isqrt128;
use crate::vec3::GV;
use crate::vec3::Vec3;
use crate::vec3::Wide3;
use crate::vec3::g_add;
use crate::vec3::g_cross;
use crate::vec3::g_dot;
use crate::vec3::g_mid;
use crate::vec3::g_scale;
use crate::vec3::g_shrink;
use crate::vec3::g_sub;
use crate::vec3::gv;
use crate::vec3::gw;
use crate::vec3::v3_add;
use crate::vec3::v3_bounded;
use crate::vec3::v3_cross;
use crate::vec3::v3_dot;
use crate::vec3::v3_mid;
use crate::vec3::v3_scale_unit;
use crate::vec3::v3_sub;
use crate::vec3::w3_bounded;
use crate::vec3::w3_shrink;

/// Largest coordinate magnitude the engine accepts: 64 length units
/// at 32 fractional bits. Keeps every intermediate of the kernel
/// within `i128`.
pub const COORD_LIM: i64 = 0x40_0000_0000;

/// A planar patch: four corners in winding order.
#[derive(Clone, Copy, Debug)]
pub struct Quad {
    pub p0: Vec3,
    pub p1: Vec3,
    pub p2: Vec3,
    pub p3: Vec3,
}

/// Ghost mirror of a patch.
pub ghost struct GQuad {
    pub a: GV,
    pub b: GV,
    pub c: GV,
    pub d: GV,
}

/// The ghost value of a patch.
pub open spec fn gq(q: Quad) -> GQuad {
    GQuad { a: gv(q.p0), b: gv(q.p1), c: gv(q.p2), d: gv(q.p3) }
}

/// Every corner coordinate of `q` lies in `[-m, m]`.
pub open spec fn quad_bounded(q: Quad, m: int) -> bool {
    &&& v3_bounded(q.p0, m)
    &&& v3_bounded(q.p1, m)
    &&& v3_bounded(q.p2, m)
    &&& v3_bounded(q.p3, m)
}

/// The bilinear point of a patch at parameters `(s, t)`, each a
/// fixed-point value in `[0, 1]`.
pub open spec fn g_bilerp(q: GQuad, s: int, t: int) -> GV {
    let us = FX_ONE - s;
    let ut = FX_ONE - t;
    let c00 = spec_fx_mul(us, ut);
    let c10 = spec_fx_mul(s, ut);
    let c11 = spec_fx_mul(s, t);
    let c01 = spec_fx_mul(us, t);
    g_add(
        g_add(g_scale(c00, q.a), g_scale(c10, q.b)),
        g_add(g_scale(c11, q.c), g_scale(c01, q.d)),
    )
}

/// The tangent of the bilinear map along `s`.
pub open spec fn g_tan_s(q: GQuad, t: int) -> GV {
    let ut = FX_ONE - t;
    g_add(g_scale(ut, g_sub(q.b, q.a)), g_scale(t, g_sub(q.c, q.d)))
}

/// The tangent of the bilinear map along `t`.
pub open spec fn g_tan_t(q: GQuad, s: int) -> GV {
    let us = FX_ONE - s;
    g_add(g_scale(us, g_sub(q.d, q.a)), g_scale(s, g_sub(q.c, q.b)))
}

/// The scaled surface normal at `(s, t)`: the cross product of the two
/// tangents, rescaled to 32 fractional bits. Its magnitude is the
/// local area element of the patch.
pub open spec fn g_patch_normal(q: GQuad, s: int, t: int) -> GV {
    g_shrink(g_cross(g_tan_s(q, t), g_tan_t(q, s)))
}

/// Sample a patch: the bilinear point and the scaled normal at
/// `(s, t)`.
pub fn sample(q: &Quad, s: i64, t: i64) -> (r: (Vec3, Vec3))
    requires
        quad_bounded(*q, COORD_LIM as int),
        0 <= s <= FX_ONE,
        0 <= t <= FX_ONE,
    ensures
        gv(r.0) == g_bilerp(gq(*q), s as int, t as int),
        gv(r.1) == g_patch_normal(gq(*q), s as int, t as int),
        v3_bounded(r.0, 4 * COORD_LIM as int),
        v3_bounded(r.1, 0x2_0000_0000_0000),
{
    let ghost cl: int = COORD_LIM as int;
    let us: i64 = FX_ONE - s;
    let ut: i64 = FX_ONE - t;
    proof {
        lemma_unit_mul(us as int, ut as int);
        lemma_unit_mul(s as int, ut as int);
        lemma_unit_mul(s as int, t as int);
        lemma_unit_mul(us as int, t as int);
    }
    let c00: i64 = crate::fx::fx_mul(us, ut);
    let c10: i64 = crate::fx::fx_mul(s, ut);
    let c11: i64 = crate::fx::fx_mul(s, t);
    let c01: i64 = crate::fx::fx_mul(us, t);
    let pa = v3_scale_unit(c00, &q.p0, Ghost(cl));
    let pb = v3_scale_unit(c10, &q.p1, Ghost(cl));
    let pc = v3_scale_unit(c11, &q.p2, Ghost(cl));
    let pd = v3_scale_unit(c01, &q.p3, Ghost(cl));
    let p = v3_add(
        &v3_add(&pa, &pb, Ghost(cl), Ghost(cl)),
        &v3_add(&pc, &pd, Ghost(cl), Ghost(cl)),
        Ghost(2 * cl),
        Ghost(2 * cl),
    );
    let e_ab = v3_sub(&q.p1, &q.p0);
    let e_dc = v3_sub(&q.p2, &q.p3);
    let e_ad = v3_sub(&q.p3, &q.p0);
    let e_bc = v3_sub(&q.p2, &q.p1);
    let ds = v3_add(
        &v3_scale_unit(ut, &e_ab, Ghost(2 * cl)),
        &v3_scale_unit(t, &e_dc, Ghost(2 * cl)),
        Ghost(2 * cl),
        Ghost(2 * cl),
    );
    let dt = v3_add(
        &v3_scale_unit(us, &e_ad, Ghost(2 * cl)),
        &v3_scale_unit(s, &e_bc, Ghost(2 * cl)),
        Ghost(2 * cl),
        Ghost(2 * cl),
    );
    let nw = v3_cross(&ds, &dt, Ghost(4 * cl), Ghost(4 * cl));
    proof {
        crate::vec3::lemma_scaled_prod(4 * cl, 4 * cl);
    }
    let n = w3_shrink(&nw, Ghost(2 * (4 * cl * (4 * cl))));
    proof {
        assert(2 * (4 * cl * (4 * cl)) == 0x2_0000_0000_0000_0000_0000);
        assert(0x2_0000_0000_0000_0000_0000int / 0x1_0000_0000int == 0x2_0000_0000_0000);
    }
    (p, n)
}

/// The winding sum of corner cross products, rescaled: a vector normal
/// to the patch's plane whose magnitude is twice the patch area.
pub open spec fn g_cross_sum(q: GQuad) -> GV {
    g_shrink(
        g_add(
            g_add(g_cross(q.a, q.b), g_cross(q.b, q.c)),
            g_add(g_cross(q.c, q.d), g_cross(q.d, q.a)),
        ),
    )
}

/// The patch area: half the magnitude of the winding cross-product
/// sum, truncated.
pub open spec fn spec_area(q: GQuad) -> int {
    let n = g_cross_sum(q);
    tdiv(spec_isqrt(g_dot(n, n)), 2)
}

/// The plane normal (scaled by twice the area) and the area of a
/// patch.
pub fn normal_and_area(q: &Quad) -> (r: (Vec3, i64))
    requires
        quad_bounded(*q, COORD_LIM as int),
    ensures
        gv(r.0) == g_cross_sum(gq(*q)),
        r.1 == spec_area(gq(*q)),
        v3_bounded(r.0, 0x1_0000_0000_0000),
        0 <= r.1 < 0x1_0000_0000_0000,
{
    let ghost cl: int = COORD_LIM as int;
    let c1 = v3_cross(&q.p0, &q.p1, Ghost(cl), Ghost(cl));
    let c2 = v3_cross(&q.p1, &q.p2, Ghost(cl), Ghost(cl));
    let c3 = v3_cross(&q.p2, &q.p3, Ghost(cl), Ghost(cl));
    let c4 = v3_cross(&q.p3, &q.p0, Ghost(cl), Ghost(cl));
    proof {
        crate::vec3::lemma_scaled_prod(cl, cl);
    }
    let sw = Wide3 {
        x: (c1.x + c2.x) + (c3.x + c4.x),
        y: (c1.y + c2.y) + (c3.y + c4.y),
        z: (c1.z + c2.z) + (c3.z + c4.z),
    };
    let n = w3_shrink(&sw, Ghost(8 * (cl * cl)));
    proof {
        assert(8 * (cl * cl) == 0x8000_0000_0000_0000_0000);
        assert(0x8000_0000_0000_0000_0000int / 0x1_0000_0000int == 0x8000_0000_0000);
    }
    let m2: i128 = v3_dot(&n, &n, Ghost(0x8000_0000_0000), Ghost(0x8000_0000_0000));
    proof {
        assert(m2 >= 0) by (nonlinear_arith)
            requires
                m2 == (n.x as int) * (n.x as int) + (n.y as int) * (n.y as int) + (n.z as int)
                    * (n.z as int),
        ;
    }
    let root: u128 = isqrt128(m2 as u128);
    proof {
        assert((root * root) as int <= m2 as int);
        assert(root < 0x2_0000_0000_0000) by (nonlinear_arith)
            requires
                (root as int) * (root as int) <= m2 as int,
                m2 as int <= 0xC000_0000_0000_0000_0000_0000,
                0 <= root,
        ;
        lemma_isqrt_agrees(m2 as int, root as int);
        lemma_tdiv_bound(root as int, 2, 0x2_0000_0000_0000);
    }
    let area: i128 = tdiv128(root as i128, 2);
    (n, area as i64)
}

/// The quadrant subdivision of a patch: corner midpoints and the
/// center, each child keeping the parent's winding order.
pub open spec fn g_split(q: GQuad) -> (GQuad, GQuad, GQuad, GQuad) {
    let m01 = g_mid(q.a, q.b);
    let m12 = g_mid(q.b, q.c);
    let m23 = g_mid(q.c, q.d);
    let m30 = g_mid(q.d, q.a);
    let cen = g_mid(m01, m23);
    (
        GQuad { a: q.a, b: m01, c: cen, d: m30 },
        GQuad { a: m01, b: q.b, c: m12, d: cen },
        GQuad { a: cen, b: m12, c: q.c, d: m23 },
        GQuad { a: m30, b: cen, c: m23, d: q.d },
    )
}

/// Split a patch into its four quadrants.
pub fn split(q: &Quad) -> (r: (Quad, Quad, Quad, Quad))
    requires
        quad_bounded(*q, COORD_LIM as int),
    ensures
        gq(r.0) == g_split(gq(*q)).0,
        gq(r.1) == g_split(gq(*q)).1,
        gq(r.2) == g_split(gq(*q)).2,
        gq(r.3) == g_split(gq(*q)).3,
        quad_bounded(r.0, COORD_LIM as int),
        quad_bounded(r.1, COORD_LIM as int),
        quad_bounded(r.2, COORD_LIM as int),
        quad_bounded(r.3, COORD_LIM as int),
{
    let ghost cl: int = COORD_LIM as int;
    let m01 = v3_mid(&q.p0, &q.p1, Ghost(cl));
    let m12 = v3_mid(&q.p1, &q.p2, Ghost(cl));
    let m23 = v3_mid(&q.p2, &q.p3, Ghost(cl));
    let m30 = v3_mid(&q.p3, &q.p0, Ghost(cl));
    let cen = v3_mid(&m01, &m23, Ghost(cl));
    (
        Quad { p0: q.p0, p1: m01, p2: cen, p3: m30 },
        Quad { p0: m01, p1: q.p1, p2: m12, p3: cen },
        Quad { p0: cen, p1: m12, p2: q.p2, p3: m23 },
        Quad { p0: m30, p1: cen, p2: m23, p3: q.p3 },
    )
}

} // verus!
