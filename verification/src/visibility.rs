//! The visibility resolver.
//!
//! For a pair of radiating patches it samples twenty-five lines of
//! sight — five probe points on each patch, corner-inset and center —
//! and tests each against every obstruction polygon. A line of sight
//! is *cut* when it crosses the obstruction's plane strictly between
//! its endpoints at a point strictly inside the polygon; it *grazes*
//! when any of those sign tests falls inside a small margin. The
//! classification is deliberately conservative, as an obstruction test
//! must be: a pair is `Clear` only when every sampled line of sight
//! misses every obstruction with margin to spare; it is `Blocked`
//! only when every line of sight is cut decisively; anything mixed or
//! uncertain is `Mixed` and is handed to the adaptive subdivision
//! controller.
//!
//! All tests are exact integer sign tests on homogeneous coordinates
//! (the crossing point is kept unnormalized, scaled by the plane-gap
//! difference), so the resolver itself introduces no rounding beyond
//! the two stated rescaling steps.

use vstd::prelude::*;

verus! {

use crate::fx::lemma_tdiv_bound;
use crate::fx::tdiv;
use crate::fx::tdiv128;
use crate::geom::GQuad;
use crate::geom::Quad;
use crate::geom::COORD_LIM;
use crate::geom::g_bilerp;
use crate::geom::g_cross_sum;
use crate::geom::gq;
use crate::geom::quad_bounded;
use crate::geom::sample;
use crate::vec3::GV;
use crate::vec3::Vec3;
use crate::vec3::g_add;
use crate::vec3::g_cross;
use crate::vec3::g_dot;
use crate::vec3::g_shrink64;
use crate::vec3::g_smul;
use crate::vec3::g_sub;
use crate::vec3::gv;
use crate::vec3::gw;
use crate::vec3::v3_bounded;
use crate::vec3::v3_comb;
use crate::vec3::v3_dot;
use crate::vec3::v3_sub;
use crate::vec3::w3_cross_vw;
use crate::vec3::w3_dot_v;
use crate::vec3::w3_shrink64;
use crate::vec3::w3_sub_scaled;

/// How one sampled line of sight relates to one obstruction.
#[derive(Clone, Copy, Debug, PartialEq, Eq, Structural)]
pub enum RayHit {
    /// Decisively does not pass through the obstruction.
    Misses,
    /// Too close to an edge, plane or endpoint to decide safely.
    Grazes,
    /// Decisively cut by the obstruction.
    Cuts,
}

/// Where a crossing point falls relative to a triangle.
#[derive(Clone, Copy, Debug, PartialEq, Eq, Structural)]
pub enum TriPos {
    Inside,
    Border,
    Outside,
}

/// The resolver's verdict on a surface pair.
#[derive(Clone, Copy, Debug, PartialEq, Eq, Structural)]
pub enum VisClass {
    /// No sampled line of sight is obstructed: the unobstructed
    /// evaluator's result is final.
    Clear,
    /// Every sampled line of sight is cut: the view factor is zero.
    Blocked,
    /// Some lines of sight are cut or uncertain: subdivide.
    Mixed,
}

/// Margin (after rescaling by 48 bits) within which a plane-gap sign
/// is treated as uncertain.
pub const PLANE_MARGIN: i128 = 16;

/// Margin within which an edge-side sign is treated as uncertain.
pub const SIDE_MARGIN: i128 = 16;

/// Scale divisor for plane gaps.
pub const GAP_SCALE: i128 = 0x1_0000_0000_0000;

/// The probe parameter pair for probe index `k`: four corner-inset
/// points at one eighth from each corner, then the center.
pub open spec fn spec_probe(k: int) -> (int, int) {
    if k == 0 {
        (0x2000_0000, 0x2000_0000)
    } else if k == 1 {
        (0xE000_0000, 0x2000_0000)
    } else if k == 2 {
        (0xE000_0000, 0xE000_0000)
    } else if k == 3 {
        (0x2000_0000, 0xE000_0000)
    } else {
        (0x8000_0000, 0x8000_0000)
    }
}

/// The probe point `k` of a patch.
pub open spec fn g_probe(q: GQuad, k: int) -> GV {
    g_bilerp(q, spec_probe(k).0, spec_probe(k).1)
}

/// The rescaled side value of the homogeneous point `xh / w` against
/// the edge `a -> b`, signed along the plane normal `n`.
pub open spec fn g_edge_side(xh: GV, w: int, a: GV, b: GV, n: GV) -> int {
    g_dot(g_shrink64(g_cross(g_sub(b, a), g_sub(xh, g_smul(w, a)))), n)
}

/// Classify the homogeneous point `xh / w` against the triangle
/// `(a, b, c)` in the plane with normal `n`: strictly inside when all
/// three side values share a strict sign beyond the margin, outside
/// when two side values disagree decisively, and border otherwise.
pub open spec fn g_tri_pos(xh: GV, w: int, a: GV, b: GV, c: GV, n: GV) -> TriPos {
    let s1 = g_edge_side(xh, w, a, b, n);
    let s2 = g_edge_side(xh, w, b, c, n);
    let s3 = g_edge_side(xh, w, c, a, n);
    if s1 > SIDE_MARGIN && s2 > SIDE_MARGIN && s3 > SIDE_MARGIN {
        TriPos::Inside
    } else if s1 < -SIDE_MARGIN && s2 < -SIDE_MARGIN && s3 < -SIDE_MARGIN {
        TriPos::Inside
    } else if (s1 > SIDE_MARGIN || s2 > SIDE_MARGIN || s3 > SIDE_MARGIN) && (s1 < -SIDE_MARGIN
        || s2 < -SIDE_MARGIN || s3 < -SIDE_MARGIN) {
        TriPos::Outside
    } else {
        TriPos::Border
    }
}

/// How the segment `p -> q` relates to the obstruction polygon `ob`.
#[verifier::opaque]
pub open spec fn g_ray_hit(p: GV, q: GV, ob: GQuad) -> RayHit {
    let n = g_cross_sum(ob);
    let sa = tdiv(g_dot(n, g_sub(p, ob.a)), GAP_SCALE as int);
    let sb = tdiv(g_dot(n, g_sub(q, ob.a)), GAP_SCALE as int);
    if (sa > PLANE_MARGIN && sb > PLANE_MARGIN) || (sa < -PLANE_MARGIN && sb < -PLANE_MARGIN) {
        RayHit::Misses
    } else if -PLANE_MARGIN <= sa <= PLANE_MARGIN || -PLANE_MARGIN <= sb <= PLANE_MARGIN {
        RayHit::Grazes
    } else {
        let cpos = if sa > 0 {
            sa
        } else {
            sb
        };
        let cneg = if sa > 0 {
            sb
        } else {
            sa
        };
        let ppos = if sa > 0 {
            p
        } else {
            q
        };
        let pneg = if sa > 0 {
            q
        } else {
            p
        };
        let w = cpos - cneg;
        let xh = g_add(g_smul(cpos, pneg), g_smul(-cneg, ppos));
        let t1 = g_tri_pos(xh, w, ob.a, ob.b, ob.c, n);
        let t2 = g_tri_pos(xh, w, ob.a, ob.c, ob.d, n);
        if t1 == TriPos::Inside || t2 == TriPos::Inside || g_kernel_inside(xh, w, ob, n) {
            RayHit::Cuts
        } else if t1 == TriPos::Border || t2 == TriPos::Border {
            RayHit::Grazes
        } else {
            RayHit::Misses
        }
    }
}

/// The crossing point is decisively inside the kernel of the
/// polygon: all four outer edges agree on a strict side. The kernel
/// of a simple polygon lies inside it, so this is a sound cut test;
/// it is what recognizes points on the polygon's interior diagonal,
/// which both triangle tests can only call borderline.
pub open spec fn g_kernel_inside(xh: GV, w: int, ob: GQuad, n: GV) -> bool {
    let s1 = g_edge_side(xh, w, ob.a, ob.b, n);
    let s2 = g_edge_side(xh, w, ob.b, ob.c, n);
    let s3 = g_edge_side(xh, w, ob.c, ob.d, n);
    let s4 = g_edge_side(xh, w, ob.d, ob.a, n);
    (s1 > SIDE_MARGIN && s2 > SIDE_MARGIN && s3 > SIDE_MARGIN && s4 > SIDE_MARGIN) || (s1
        < -SIDE_MARGIN && s2 < -SIDE_MARGIN && s3 < -SIDE_MARGIN && s4 < -SIDE_MARGIN)
}

/// The worst verdict of the segment `p -> q` over the first `k`
/// obstructions.
pub open spec fn g_ray_state(p: GV, q: GV, obs: Seq<Quad>, k: int) -> RayHit
    decreases k,
{
    if k <= 0 {
        RayHit::Misses
    } else {
        let rest = g_ray_state(p, q, obs, k - 1);
        let h = g_ray_hit(p, q, gq(obs[k - 1]));
        if h == RayHit::Cuts || rest == RayHit::Cuts {
            RayHit::Cuts
        } else if h == RayHit::Grazes || rest == RayHit::Grazes {
            RayHit::Grazes
        } else {
            RayHit::Misses
        }
    }
}

/// Counts of cut and grazing lines of sight among the first `r` of
/// the twenty-five sampled rays.
pub open spec fn spec_ray_counts(q1: GQuad, q2: GQuad, obs: Seq<Quad>, r: int) -> (int, int)
    decreases r,
{
    if r <= 0 {
        (0, 0)
    } else {
        let prev = spec_ray_counts(q1, q2, obs, r - 1);
        let st = g_ray_state(
            g_probe(q1, (r - 1) / 5),
            g_probe(q2, (r - 1) % 5),
            obs,
            obs.len() as int,
        );
        if st == RayHit::Cuts {
            (prev.0 + 1, prev.1)
        } else if st == RayHit::Grazes {
            (prev.0, prev.1 + 1)
        } else {
            prev
        }
    }
}

/// The resolver's verdict for a pair: `Blocked` only when all rays
/// are cut, `Clear` only when none is cut or uncertain, else `Mixed`.
#[verifier::opaque]
pub open spec fn spec_classify(q1: GQuad, q2: GQuad, obs: Seq<Quad>) -> VisClass {
    let c = spec_ray_counts(q1, q2, obs, 25);
    if c.0 == 25 {
        VisClass::Blocked
    } else if c.0 == 0 && c.1 == 0 {
        VisClass::Clear
    } else {
        VisClass::Mixed
    }
}

/// The visible weight of a pair in fiftieths: two per clear ray and
/// one per uncertain ray.
#[verifier::opaque]
pub open spec fn spec_clear_weight(q1: GQuad, q2: GQuad, obs: Seq<Quad>) -> int {
    let c = spec_ray_counts(q1, q2, obs, 25);
    2 * (25 - c.0 - c.1) + c.1
}

/// The counts of `spec_ray_counts` are non-negative and total at most
/// `r`.
pub proof fn lemma_ray_counts_range(q1: GQuad, q2: GQuad, obs: Seq<Quad>, r: int)
    requires
        r >= 0,
    ensures
        0 <= spec_ray_counts(q1, q2, obs, r).0,
        0 <= spec_ray_counts(q1, q2, obs, r).1,
        spec_ray_counts(q1, q2, obs, r).0 + spec_ray_counts(q1, q2, obs, r).1 <= r,
    decreases r,
{
    if r > 0 {
        lemma_ray_counts_range(q1, q2, obs, r - 1);
    }
}

/// Executable edge-side test.
fn edge_side(xh: &crate::vec3::Wide3, w: i128, a: &Vec3, b: &Vec3, n: &Vec3) -> (r: i128)
    requires
        w3_ray_bounds(*xh, w),
        v3_bounded(*a, COORD_LIM as int),
        v3_bounded(*b, COORD_LIM as int),
        v3_bounded(*n, 0x1_0000_0000_0000),
    ensures
        r == g_edge_side(gw(*xh), w as int, gv(*a), gv(*b), gv(*n)),
{
    let e = v3_sub(b, a);
    proof {
        assert(0x1000_0000_0000int * 0x40_0000_0000int == 0x4_0000_0000_0000_0000_0000)
            by (nonlinear_arith);
    }
    let f = w3_sub_scaled(
        xh,
        w,
        a,
        Ghost(0x8_0000_0000_0000_0000_0000),
        Ghost(0x1000_0000_0000),
        Ghost(COORD_LIM as int),
    );
    proof {
        crate::vec3::lemma_scaled_prod(2 * COORD_LIM as int, 0xC_0000_0000_0000_0000_0000);
        assert((2 * COORD_LIM as int) * 0xC_0000_0000_0000_0000_0000int
            == 0x600_0000_0000_0000_0000_0000_0000_0000) by (nonlinear_arith)
            requires
                COORD_LIM == 0x40_0000_0000,
        ;
    }
    let g = w3_cross_vw(
        &e,
        &f,
        Ghost(2 * COORD_LIM as int),
        Ghost(0xC_0000_0000_0000_0000_0000),
    );
    proof {
        assert(2 * (2 * COORD_LIM as int) * 0xC_0000_0000_0000_0000_0000int
            == 0xC00_0000_0000_0000_0000_0000_0000_0000) by (nonlinear_arith)
            requires
                COORD_LIM == 0x40_0000_0000,
        ;
    }
    let gs = w3_shrink64(&g, Ghost(0xC00_0000_0000_0000_0000_0000_0000_0000));
    proof {
        assert(0xC00_0000_0000_0000_0000_0000_0000_0000int / 0x1_0000_0000_0000_0000int
            == 0xC00_0000_0000_0000);
    }
    w3_dot_v(&gs, n, Ghost(0xC00_0000_0000_0000), Ghost(0x1_0000_0000_0000))
}

/// Bounds under which a homogeneous crossing point is handled: the
/// point at most `2^83` per component, the scale at most `2^44`.
pub open spec fn w3_ray_bounds(xh: crate::vec3::Wide3, w: i128) -> bool {
    &&& crate::vec3::w3_bounded(xh, 0x8_0000_0000_0000_0000_0000)
    &&& -0x1000_0000_0000 <= w <= 0x1000_0000_0000
}

/// Executable triangle test.
fn tri_pos(xh: &crate::vec3::Wide3, w: i128, a: &Vec3, b: &Vec3, c: &Vec3, n: &Vec3) -> (r: TriPos)
    requires
        w3_ray_bounds(*xh, w),
        v3_bounded(*a, COORD_LIM as int),
        v3_bounded(*b, COORD_LIM as int),
        v3_bounded(*c, COORD_LIM as int),
        v3_bounded(*n, 0x1_0000_0000_0000),
    ensures
        r == g_tri_pos(gw(*xh), w as int, gv(*a), gv(*b), gv(*c), gv(*n)),
{
    let s1 = edge_side(xh, w, a, b, n);
    let s2 = edge_side(xh, w, b, c, n);
    let s3 = edge_side(xh, w, c, a, n);
    if s1 > SIDE_MARGIN && s2 > SIDE_MARGIN && s3 > SIDE_MARGIN {
        TriPos::Inside
    } else if s1 < -SIDE_MARGIN && s2 < -SIDE_MARGIN && s3 < -SIDE_MARGIN {
        TriPos::Inside
    } else if (s1 > SIDE_MARGIN || s2 > SIDE_MARGIN || s3 > SIDE_MARGIN) && (s1 < -SIDE_MARGIN
        || s2 < -SIDE_MARGIN || s3 < -SIDE_MARGIN) {
        TriPos::Outside
    } else {
        TriPos::Border
    }
}

/// Executable test of one line of sight against one obstruction.
pub fn ray_hit(p: &Vec3, q: &Vec3, ob: &Quad) -> (r: RayHit)
    requires
        v3_bounded(*p, 4 * COORD_LIM as int),
        v3_bounded(*q, 4 * COORD_LIM as int),
        quad_bounded(*ob, COORD_LIM as int),
    ensures
        r == g_ray_hit(gv(*p), gv(*q), gq(*ob)),
{
    proof {
        reveal(g_ray_hit);
    }
    let (n, _area) = crate::geom::normal_and_area(ob);
    let ghost mn: int = 0x1_0000_0000_0000;
    let ghost mv: int = 5 * COORD_LIM as int;
    let gap_a = v3_dot(&n, &v3_sub(p, &ob.p0), Ghost(mn), Ghost(mv));
    let gap_b = v3_dot(&n, &v3_sub(q, &ob.p0), Ghost(mn), Ghost(mv));
    proof {
        lemma_tdiv_bound(gap_a as int, GAP_SCALE as int, 3 * mn * mv);
        lemma_tdiv_bound(gap_b as int, GAP_SCALE as int, 3 * mn * mv);
        assert(3 * mn * mv == 0x3C0_0000_0000_0000_0000_0000) by (nonlinear_arith)
            requires
                mn == 0x1_0000_0000_0000,
                mv == 5 * 0x40_0000_0000,
        ;
        assert(0x3C0_0000_0000_0000_0000_0000int / 0x1_0000_0000_0000int == 0x3C0_0000_0000);
    }
    let sa: i128 = tdiv128(gap_a, GAP_SCALE);
    let sb: i128 = tdiv128(gap_b, GAP_SCALE);
    if (sa > PLANE_MARGIN && sb > PLANE_MARGIN) || (sa < -PLANE_MARGIN && sb < -PLANE_MARGIN) {
        RayHit::Misses
    } else if -PLANE_MARGIN <= sa && sa <= PLANE_MARGIN || -PLANE_MARGIN <= sb && sb
        <= PLANE_MARGIN {
        RayHit::Grazes
    } else {
        let cpos: i128 = if sa > 0 {
            sa
        } else {
            sb
        };
        let cneg: i128 = if sa > 0 {
            sb
        } else {
            sa
        };
        let ppos: &Vec3 = if sa > 0 {
            p
        } else {
            q
        };
        let pneg: &Vec3 = if sa > 0 {
            q
        } else {
            p
        };
        let w: i128 = cpos - cneg;
        let xh = v3_comb(
            cpos,
            pneg,
            -cneg,
            ppos,
            Ghost(0x3C0_0000_0000),
            Ghost(4 * COORD_LIM as int),
        );
        proof {
            crate::vec3::lemma_scaled_prod(0x3C0_0000_0000, 4 * COORD_LIM as int);
            assert(0x3C0_0000_0000int * (4 * COORD_LIM as int) == 0x3_C000_0000_0000_0000_0000)
                by (nonlinear_arith)
                requires
                    COORD_LIM == 0x40_0000_0000,
            ;
        }
        let t1 = tri_pos(&xh, w, &ob.p0, &ob.p1, &ob.p2, &n);
        let t2 = tri_pos(&xh, w, &ob.p0, &ob.p2, &ob.p3, &n);
        let s1 = edge_side(&xh, w, &ob.p0, &ob.p1, &n);
        let s2 = edge_side(&xh, w, &ob.p1, &ob.p2, &n);
        let s3 = edge_side(&xh, w, &ob.p2, &ob.p3, &n);
        let s4 = edge_side(&xh, w, &ob.p3, &ob.p0, &n);
        let kernel_in = (s1 > SIDE_MARGIN && s2 > SIDE_MARGIN && s3 > SIDE_MARGIN && s4
            > SIDE_MARGIN) || (s1 < -SIDE_MARGIN && s2 < -SIDE_MARGIN && s3 < -SIDE_MARGIN && s4
            < -SIDE_MARGIN);
        let inside = match t1 {
            TriPos::Inside => true,
            _ => match t2 {
                TriPos::Inside => true,
                _ => kernel_in,
            },
        };
        if inside {
            RayHit::Cuts
        } else {
            match (t1, t2) {
                (TriPos::Border, _) => RayHit::Grazes,
                (_, TriPos::Border) => RayHit::Grazes,
                _ => RayHit::Misses,
            }
        }
    }
}

/// Executable aggregation of one line of sight over all obstructions.
pub fn ray_state(p: &Vec3, q: &Vec3, obs: &Vec<Quad>) -> (r: RayHit)
    requires
        v3_bounded(*p, 4 * COORD_LIM as int),
        v3_bounded(*q, 4 * COORD_LIM as int),
        forall|j: int| 0 <= j < obs.len() ==> quad_bounded(#[trigger] obs[j], COORD_LIM as int),
    ensures
        r == g_ray_state(gv(*p), gv(*q), obs@, obs.len() as int),
{
    let mut st = RayHit::Misses;
    let mut k: usize = 0;
    while k < obs.len()
        invariant
            k <= obs.len(),
            v3_bounded(*p, 4 * COORD_LIM as int),
            v3_bounded(*q, 4 * COORD_LIM as int),
            forall|j: int| 0 <= j < obs.len() ==> quad_bounded(#[trigger] obs[j], COORD_LIM as int),
            st == g_ray_state(gv(*p), gv(*q), obs@, k as int),
        decreases obs.len() - k,
    {
        let h = ray_hit(p, q, &obs[k]);
        st = match (h, st) {
            (RayHit::Cuts, _) => RayHit::Cuts,
            (_, RayHit::Cuts) => RayHit::Cuts,
            (RayHit::Grazes, _) => RayHit::Grazes,
            (_, RayHit::Grazes) => RayHit::Grazes,
            _ => RayHit::Misses,
        };
        k = k + 1;
    }
    st
}

/// Classify a surface pair against the obstruction set, returning the
/// verdict together with the visible weight in fiftieths.
#[verifier::rlimit(100)]
pub fn classify(q1: &Quad, q2: &Quad, obs: &Vec<Quad>) -> (r: (VisClass, i64))
    requires
        quad_bounded(*q1, COORD_LIM as int),
        quad_bounded(*q2, COORD_LIM as int),
        forall|j: int| 0 <= j < obs.len() ==> quad_bounded(#[trigger] obs[j], COORD_LIM as int),
    ensures
        r.0 == spec_classify(gq(*q1), gq(*q2), obs@),
        r.1 == spec_clear_weight(gq(*q1), gq(*q2), obs@),
        0 <= r.1 <= 50,
{
    proof {
        reveal(spec_classify);
        reveal(spec_clear_weight);
    }
    let mut probes1: Vec<Vec3> = Vec::new();
    let mut probes2: Vec<Vec3> = Vec::new();
    let mut k: usize = 0;
    while k < 5
        invariant
            k <= 5,
            quad_bounded(*q1, COORD_LIM as int),
            quad_bounded(*q2, COORD_LIM as int),
            probes1.len() == k,
            probes2.len() == k,
            forall|j: int|
                0 <= j < k ==> gv(#[trigger] probes1[j]) == g_probe(gq(*q1), j) && v3_bounded(
                    probes1[j],
                    4 * COORD_LIM as int,
                ),
            forall|j: int|
                0 <= j < k ==> gv(#[trigger] probes2[j]) == g_probe(gq(*q2), j) && v3_bounded(
                    probes2[j],
                    4 * COORD_LIM as int,
                ),
        decreases 5 - k,
    {
        let (s, t) = probe_params(k);
        let s1 = sample(q1, s, t);
        let s2 = sample(q2, s, t);
        probes1.push(s1.0);
        probes2.push(s2.0);
        proof {
            assert(gv(probes1[k as int]) == g_probe(gq(*q1), k as int));
            assert(gv(probes2[k as int]) == g_probe(gq(*q2), k as int));
        }
        k = k + 1;
    }
    let mut cut: i64 = 0;
    let mut graze: i64 = 0;
    let mut r: usize = 0;
    while r < 25
        invariant
            r <= 25,
            quad_bounded(*q1, COORD_LIM as int),
            quad_bounded(*q2, COORD_LIM as int),
            forall|j: int| 0 <= j < obs.len() ==> quad_bounded(#[trigger] obs[j], COORD_LIM as int),
            probes1.len() == 5,
            probes2.len() == 5,
            forall|j: int|
                0 <= j < 5 ==> gv(#[trigger] probes1[j]) == g_probe(gq(*q1), j) && v3_bounded(
                    probes1[j],
                    4 * COORD_LIM as int,
                ),
            forall|j: int|
                0 <= j < 5 ==> gv(#[trigger] probes2[j]) == g_probe(gq(*q2), j) && v3_bounded(
                    probes2[j],
                    4 * COORD_LIM as int,
                ),
            cut == spec_ray_counts(gq(*q1), gq(*q2), obs@, r as int).0,
            graze == spec_ray_counts(gq(*q1), gq(*q2), obs@, r as int).1,
            0 <= cut,
            0 <= graze,
            cut + graze <= r,
        decreases 25 - r,
    {
        let st = ray_state(&probes1[r / 5], &probes2[r % 5], obs);
        match st {
            RayHit::Cuts => {
                cut = cut + 1;
            },
            RayHit::Grazes => {
                graze = graze + 1;
            },
            RayHit::Misses => {},
        }
        r = r + 1;
    }
    let cls = if cut == 25 {
        VisClass::Blocked
    } else if cut == 0 && graze == 0 {
        VisClass::Clear
    } else {
        VisClass::Mixed
    };
    (cls, 2 * (25 - cut - graze) + graze)
}

/// Executable probe parameters.
fn probe_params(k: usize) -> (r: (i64, i64))
    ensures
        r.0 == spec_probe(k as int).0,
        r.1 == spec_probe(k as int).1,
        0 <= r.0 <= crate::fx::FX_ONE,
        0 <= r.1 <= crate::fx::FX_ONE,
{
    if k == 0 {
        (0x2000_0000, 0x2000_0000)
    } else if k == 1 {
        (0xE000_0000, 0x2000_0000)
    } else if k == 2 {
        (0xE000_0000, 0xE000_0000)
    } else if k == 3 {
        (0x2000_0000, 0xE000_0000)
    } else {
        (0x8000_0000, 0x8000_0000)
    }
}

} // verus!
