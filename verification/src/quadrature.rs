//! The unobstructed view-factor evaluator.
//!
//! The mutual exchange of a pair of patches is the double surface
//! integral of the radiative kernel
//! `cos(theta1) * cos(theta2) / (pi * r^2)`, evaluated here by a
//! tensor Gauss-Legendre rule with ten nodes per parameter direction.
//! Boundary-contour formulations of this integral need logarithms and
//! arctangents; area quadrature with scaled (non-unit) patch normals
//! folds the two area elements into the kernel instead, so that a
//! sample needs only multiplications and divisions, every one of
//! which has an exact fixed-point meaning the contracts can state.
//! With `t1 = n1·r` and `t2 = -n2·r` the summand is `t1 * t2 / r^4`,
//! clamped to zero where either cosine is non-positive and where the
//! sample points nearly coincide (the limiting value for touching
//! patches). The rule is spectrally accurate for separated pairs; the
//! subdivision controller supplies the refinement near obstructions.
//!
//! The result is the exchange quantity `area1 * F(1->2)` — symmetric
//! in the two patches, exactly, see the exchange-symmetry law — at 32
//! fractional bits.

use vstd::prelude::*;

verus! {

use crate::fx::FX_ONE;
use crate::fx::FX_ONE_W;
use crate::fx::FX_PI;
use crate::fx::lemma_tdiv_bound;
use crate::fx::lemma_tdiv_ordered;
use crate::fx::tdiv;
use crate::fx::tdiv128;
use crate::geom::GQuad;
use crate::geom::Quad;
use crate::geom::COORD_LIM;
use crate::geom::g_bilerp;
use crate::geom::g_cross_sum;
use crate::geom::g_patch_normal;
use crate::geom::gq;
use crate::geom::quad_bounded;
use crate::geom::sample;
use crate::vec3::GV;
use crate::vec3::Vec3;
use crate::vec3::g_dot;
use crate::vec3::g_sub;
use crate::vec3::gv;
use crate::vec3::lemma_prod_bound;
use crate::vec3::v3_bounded;
use crate::vec3::v3_dot;
use crate::vec3::v3_sub;

/// Number of Gauss-Legendre nodes per parameter direction.
pub const GAUSS_N: usize = 10;

/// Squared-distance floor (at 32 fractional bits): sample pairs closer
/// than this are treated as coincident and contribute the limiting
/// value zero.
pub const D2_MIN: i64 = 0x1_0000;

/// Kernel clamp: a guard against near-contact blowup of a single
/// sample; unreachable for well-separated geometry.
pub const KERNEL_CAP: i128 = 0x1000_0000_0000_0000;

/// Saturation bound for an exchange value (2^18 square units).
pub const EXCHANGE_SAT: i64 = 0x4_0000_0000_0000;

/// Weight scale: pair weights carry 48 fractional bits.
pub const W_SCALE: i128 = 0x1_0000_0000_0000;

/// Gauss-Legendre node `i` on `[0, 1]`, at 32 fractional bits.
pub open spec fn spec_node(i: int) -> int {
    if i == 0 {
        4238931993
    } else if i == 1 {
        4005193082
    } else if i == 2 {
        3606504586
    } else if i == 3 {
        3078193170
    } else if i == 4 {
        2467188857
    } else if i == 5 {
        1827778439
    } else if i == 6 {
        1216774126
    } else if i == 7 {
        688462710
    } else if i == 8 {
        289774214
    } else {
        56035303
    }
}

/// Gauss-Legendre weight `i`, at 48 fractional bits; the ten weights
/// sum to one exactly.
pub open spec fn spec_weight(i: int) -> int {
    if i == 0 {
        9383157543278
    } else if i == 1 {
        21033407510768
    } else if i == 2 {
        30833664393404
    } else if i == 3 {
        37895921773368
    } else if i == 4 {
        41591337134510
    } else if i == 5 {
        41591337134510
    } else if i == 6 {
        37895921773368
    } else if i == 7 {
        30833664393404
    } else if i == 8 {
        21033407510768
    } else {
        9383157543278
    }
}

/// Executable Gauss-Legendre node.
pub fn node(i: usize) -> (r: i64)
    ensures
        r == spec_node(i as int),
        0 < r < FX_ONE,
{
    if i == 0 {
        4238931993
    } else if i == 1 {
        4005193082
    } else if i == 2 {
        3606504586
    } else if i == 3 {
        3078193170
    } else if i == 4 {
        2467188857
    } else if i == 5 {
        1827778439
    } else if i == 6 {
        1216774126
    } else if i == 7 {
        688462710
    } else if i == 8 {
        289774214
    } else {
        56035303
    }
}

/// Executable Gauss-Legendre weight.
pub fn weight(i: usize) -> (r: i64)
    ensures
        r == spec_weight(i as int),
        0 < r < 0x4000_0000_0000,
{
    if i == 0 {
        9383157543278
    } else if i == 1 {
        21033407510768
    } else if i == 2 {
        30833664393404
    } else if i == 3 {
        37895921773368
    } else if i == 4 {
        41591337134510
    } else if i == 5 {
        41591337134510
    } else if i == 6 {
        37895921773368
    } else if i == 7 {
        30833664393404
    } else if i == 8 {
        21033407510768
    } else {
        9383157543278
    }
}

/// The radiative kernel at one sample pair: point `p` with scaled
/// normal `n1` against point `q2` with scaled normal `n2`.
pub open spec fn g_kernel(p: GV, n1: GV, q2: GV, n2: GV) -> int {
    let r = g_sub(q2, p);
    let d2 = tdiv(g_dot(r, r), FX_ONE_W as int);
    if d2 < D2_MIN {
        0
    } else {
        let t1 = tdiv(g_dot(n1, r), FX_ONE_W as int);
        let t2 = tdiv(-g_dot(n2, r), FX_ONE_W as int);
        if t1 <= 0 || t2 <= 0 {
            0
        } else {
            let d4 = tdiv(d2 * d2, FX_ONE_W as int);
            let kq = tdiv(t1 * t2, d4);
            if kq > KERNEL_CAP {
                KERNEL_CAP as int
            } else {
                kq
            }
        }
    }
}

/// The kernel value is non-negative and clamped.
pub proof fn lemma_kernel_range(p: GV, n1: GV, q2: GV, n2: GV)
    ensures
        0 <= g_kernel(p, n1, q2, n2) <= KERNEL_CAP,
{
    let r = g_sub(q2, p);
    let d2 = tdiv(g_dot(r, r), FX_ONE_W as int);
    if d2 >= D2_MIN {
        let t1 = tdiv(g_dot(n1, r), FX_ONE_W as int);
        let t2 = tdiv(-g_dot(n2, r), FX_ONE_W as int);
        if t1 > 0 && t2 > 0 {
            let d4 = tdiv(d2 * d2, FX_ONE_W as int);
            assert(d2 * d2 >= FX_ONE_W) by (nonlinear_arith)
                requires
                    d2 >= D2_MIN as int,
                    D2_MIN == 0x1_0000,
                    FX_ONE_W == 0x1_0000_0000,
            ;
            lemma_tdiv_ordered(FX_ONE_W as int, d2 * d2, FX_ONE_W as int);
            assert(d4 >= 1);
            assert(t1 * t2 >= 0) by (nonlinear_arith)
                requires
                    t1 > 0,
                    t2 > 0,
            ;
            lemma_tdiv_ordered(0, t1 * t2, d4);
        }
    }
}

/// Executable kernel evaluation.
pub fn kernel(p: &Vec3, n1: &Vec3, q2: &Vec3, n2: &Vec3) -> (r: i128)
    requires
        v3_bounded(*p, 0x100_0000_0000),
        v3_bounded(*q2, 0x100_0000_0000),
        v3_bounded(*n1, 0x2_0000_0000_0000),
        v3_bounded(*n2, 0x2_0000_0000_0000),
    ensures
        r == g_kernel(gv(*p), gv(*n1), gv(*q2), gv(*n2)),
        0 <= r <= KERNEL_CAP,
{
    proof {
        lemma_kernel_range(gv(*p), gv(*n1), gv(*q2), gv(*n2));
    }
    let rv = v3_sub(q2, p);
    let d2w: i128 = v3_dot(&rv, &rv, Ghost(0x200_0000_0000), Ghost(0x200_0000_0000));
    let d2: i128 = tdiv128(d2w, FX_ONE_W);
    proof {
        lemma_tdiv_bound(d2w as int, FX_ONE_W as int, 0xC_0000_0000_0000_0000_0000);
        assert(0xC_0000_0000_0000_0000_0000int / 0x1_0000_0000int == 0xC_0000_0000_0000);
    }
    if d2 < D2_MIN as i128 {
        0
    } else {
        let t1w: i128 = v3_dot(n1, &rv, Ghost(0x2_0000_0000_0000), Ghost(0x200_0000_0000));
        let t2w: i128 = v3_dot(n2, &rv, Ghost(0x2_0000_0000_0000), Ghost(0x200_0000_0000));
        let t1: i128 = tdiv128(t1w, FX_ONE_W);
        let t2: i128 = tdiv128(-t2w, FX_ONE_W);
        proof {
            lemma_tdiv_bound(t1w as int, FX_ONE_W as int, 0xC00_0000_0000_0000_0000_0000);
            lemma_tdiv_bound(-t2w as int, FX_ONE_W as int, 0xC00_0000_0000_0000_0000_0000);
            assert(0xC00_0000_0000_0000_0000_0000int / 0x1_0000_0000int == 0xC00_0000_0000_0000);
        }
        if t1 <= 0 || t2 <= 0 {
            0
        } else {
            proof {
                lemma_prod_bound(
                    t1 as int,
                    t2 as int,
                    0xC00_0000_0000_0000,
                    0xC00_0000_0000_0000,
                );
                assert(d2 * d2 >= FX_ONE_W && d2 * d2 <= 0x90_0000_0000_0000_0000_0000_0000)
                    by (nonlinear_arith)
                    requires
                        0x1_0000 <= d2 <= 0xC_0000_0000_0000,
                ;
                lemma_tdiv_ordered(FX_ONE_W as int, (d2 * d2) as int, FX_ONE_W as int);
            }
            let num: i128 = t1 * t2;
            let d4: i128 = tdiv128(d2 * d2, FX_ONE_W);
            let kq: i128 = tdiv128(num, d4);
            if kq > KERNEL_CAP {
                KERNEL_CAP
            } else {
                kq
            }
        }
    }
}

/// The weighted summand for flat sample index `m`: `i1 = m / 100`
/// selects the node pair on the first patch, `i2 = m % 100` on the
/// second; the four Gauss weights are folded in at 48 fractional bits.
pub open spec fn g_sample_term(q1: GQuad, q2: GQuad, m: int) -> int {
    let i1 = m / 100;
    let i2 = m % 100;
    let p1 = g_bilerp(q1, spec_node(i1 / 10), spec_node(i1 % 10));
    let n1 = g_patch_normal(q1, spec_node(i1 / 10), spec_node(i1 % 10));
    let p2 = g_bilerp(q2, spec_node(i2 / 10), spec_node(i2 % 10));
    let n2 = g_patch_normal(q2, spec_node(i2 / 10), spec_node(i2 % 10));
    let w1 = tdiv(spec_weight(i1 / 10) * spec_weight(i1 % 10), W_SCALE as int);
    let w2 = tdiv(spec_weight(i2 / 10) * spec_weight(i2 % 10), W_SCALE as int);
    let ww = tdiv(w1 * w2, W_SCALE as int);
    ww * g_kernel(p1, n1, p2, n2)
}

/// Partial sum of the first `m` weighted summands.
pub open spec fn g_accum(q1: GQuad, q2: GQuad, m: int) -> int
    decreases m,
{
    if m <= 0 {
        0
    } else {
        g_accum(q1, q2, m - 1) + g_sample_term(q1, q2, m - 1)
    }
}

/// Each summand lies in `[0, 2^100]`.
pub proof fn lemma_term_range(q1: GQuad, q2: GQuad, m: int)
    ensures
        0 <= g_sample_term(q1, q2, m) <= 0x10_0000_0000_0000_0000_0000_0000,
{
    let i1 = m / 100;
    let i2 = m % 100;
    let w1 = tdiv(spec_weight(i1 / 10) * spec_weight(i1 % 10), W_SCALE as int);
    let w2 = tdiv(spec_weight(i2 / 10) * spec_weight(i2 % 10), W_SCALE as int);
    let ww = tdiv(w1 * w2, W_SCALE as int);
    assert(0 < spec_weight(i1 / 10) * spec_weight(i1 % 10) < 0x1000_0000_0000_0000_0000_0000)
        by (nonlinear_arith)
        requires
            0 < spec_weight(i1 / 10) < 0x4000_0000_0000,
            0 < spec_weight(i1 % 10) < 0x4000_0000_0000,
    ;
    assert(0 < spec_weight(i2 / 10) * spec_weight(i2 % 10) < 0x1000_0000_0000_0000_0000_0000)
        by (nonlinear_arith)
        requires
            0 < spec_weight(i2 / 10) < 0x4000_0000_0000,
            0 < spec_weight(i2 % 10) < 0x4000_0000_0000,
    ;
    lemma_tdiv_ordered(0, spec_weight(i1 / 10) * spec_weight(i1 % 10), W_SCALE as int);
    lemma_tdiv_bound(
        spec_weight(i1 / 10) * spec_weight(i1 % 10),
        W_SCALE as int,
        0x1000_0000_0000_0000_0000_0000,
    );
    lemma_tdiv_ordered(0, spec_weight(i2 / 10) * spec_weight(i2 % 10), W_SCALE as int);
    lemma_tdiv_bound(
        spec_weight(i2 / 10) * spec_weight(i2 % 10),
        W_SCALE as int,
        0x1000_0000_0000_0000_0000_0000,
    );
    assert(0x1000_0000_0000_0000_0000_0000int / (W_SCALE as int) == 0x1000_0000_0000);
    assert(0 <= w1 * w2 <= 0x100_0000_0000_0000_0000_0000) by (nonlinear_arith)
        requires
            0 <= w1 <= 0x1000_0000_0000,
            0 <= w2 <= 0x1000_0000_0000,
    ;
    lemma_tdiv_ordered(0, w1 * w2, W_SCALE as int);
    lemma_tdiv_bound(w1 * w2, W_SCALE as int, 0x100_0000_0000_0000_0000_0000int);
    assert(0x100_0000_0000_0000_0000_0000int / (W_SCALE as int) == 0x100_0000_0000);
    lemma_kernel_range(
        g_bilerp(q1, spec_node(i1 / 10), spec_node(i1 % 10)),
        g_patch_normal(q1, spec_node(i1 / 10), spec_node(i1 % 10)),
        g_bilerp(q2, spec_node(i2 / 10), spec_node(i2 % 10)),
        g_patch_normal(q2, spec_node(i2 / 10), spec_node(i2 % 10)),
    );
    let kv = g_kernel(
        g_bilerp(q1, spec_node(i1 / 10), spec_node(i1 % 10)),
        g_patch_normal(q1, spec_node(i1 / 10), spec_node(i1 % 10)),
        g_bilerp(q2, spec_node(i2 / 10), spec_node(i2 % 10)),
        g_patch_normal(q2, spec_node(i2 / 10), spec_node(i2 % 10)),
    );
    assert(0 <= ww * kv <= 0x10_0000_0000_0000_0000_0000_0000) by (nonlinear_arith)
        requires
            0 <= ww <= 0x100_0000_0000,
            0 <= kv <= KERNEL_CAP as int,
            KERNEL_CAP == 0x1000_0000_0000_0000,
    ;
}

/// Partial sums grow monotonically and stay within `m * 2^100`.
pub proof fn lemma_accum_range(q1: GQuad, q2: GQuad, m: int)
    requires
        m >= 0,
    ensures
        0 <= g_accum(q1, q2, m) <= m * 0x10_0000_0000_0000_0000_0000_0000,
    decreases m,
{
    if m > 0 {
        lemma_accum_range(q1, q2, m - 1);
        lemma_term_range(q1, q2, m - 1);
    }
}

/// One patch lies entirely on or behind the plane of the other: the
/// orientation pre-check that forces a hard zero for mutually
/// facing-away patches.
pub open spec fn g_behind(n: GV, base: GV, q: GQuad) -> bool {
    &&& g_dot(n, g_sub(q.a, base)) <= 0
    &&& g_dot(n, g_sub(q.b, base)) <= 0
    &&& g_dot(n, g_sub(q.c, base)) <= 0
    &&& g_dot(n, g_sub(q.d, base)) <= 0
}

/// The unobstructed mutual exchange `area1 * F(1->2)` of two patches,
/// at 32 fractional bits: zero when either patch is wholly behind the
/// other's plane, else the Gauss sum divided by pi, saturated.
#[verifier::opaque]
pub open spec fn spec_eval_exchange(q1: GQuad, q2: GQuad) -> int {
    if g_behind(g_cross_sum(q1), q1.a, q2) || g_behind(g_cross_sum(q2), q2.a, q1) {
        0
    } else {
        let e = tdiv(
            tdiv(g_accum(q1, q2, 10000), W_SCALE as int) * (FX_ONE as int),
            FX_PI as int,
        );
        if e > EXCHANGE_SAT {
            EXCHANGE_SAT as int
        } else {
            e
        }
    }
}

/// An evaluated exchange is non-negative and saturated.
pub proof fn lemma_eval_range(q1: GQuad, q2: GQuad)
    ensures
        0 <= spec_eval_exchange(q1, q2) <= EXCHANGE_SAT,
{
    reveal(spec_eval_exchange);
    if !(g_behind(g_cross_sum(q1), q1.a, q2) || g_behind(g_cross_sum(q2), q2.a, q1)) {
        lemma_accum_range(q1, q2, 10000);
        let acc = g_accum(q1, q2, 10000);
        lemma_tdiv_ordered(0, acc, W_SCALE as int);
        lemma_tdiv_bound(acc, W_SCALE as int, 10000int * 0x10_0000_0000_0000_0000_0000_0000);
        assert((10000int * 0x10_0000_0000_0000_0000_0000_0000) / (W_SCALE as int)
            == 0x2_7100_0000_0000_0000);
        let e1 = tdiv(acc, W_SCALE as int);
        assert(0 <= e1 * (FX_ONE as int) <= 0x2_7100_0000_0000_0000_0000_0000) by (nonlinear_arith)
            requires
                0 <= e1 <= 0x2_7100_0000_0000_0000,
                FX_ONE == 0x1_0000_0000,
        ;
        lemma_tdiv_ordered(0, e1 * (FX_ONE as int), FX_PI as int);
    }
}

/// Whether every corner of `q` is on or behind the plane through
/// `base` with normal `n`.
fn behind_check(n: &Vec3, base: &Vec3, q: &Quad) -> (r: bool)
    requires
        v3_bounded(*n, 0x1_0000_0000_0000),
        v3_bounded(*base, COORD_LIM as int),
        quad_bounded(*q, COORD_LIM as int),
    ensures
        r == g_behind(gv(*n), gv(*base), gq(*q)),
{
    let ghost mn: int = 0x1_0000_0000_0000;
    let ghost mv: int = 2 * COORD_LIM as int;
    let da = v3_dot(&n.clone(), &v3_sub(&q.p0, base), Ghost(mn), Ghost(mv));
    let db = v3_dot(&n.clone(), &v3_sub(&q.p1, base), Ghost(mn), Ghost(mv));
    let dc = v3_dot(&n.clone(), &v3_sub(&q.p2, base), Ghost(mn), Ghost(mv));
    let dd = v3_dot(&n.clone(), &v3_sub(&q.p3, base), Ghost(mn), Ghost(mv));
    da <= 0 && db <= 0 && dc <= 0 && dd <= 0
}

/// One weighted summand from precomputed samples and pair weights.
fn weighted_term(
    e1: &(Vec3, Vec3),
    e2: &(Vec3, Vec3),
    w1: i64,
    w2: i64,
    Ghost(q1): Ghost<GQuad>,
    Ghost(q2): Ghost<GQuad>,
    Ghost(m): Ghost<int>,
) -> (r: i128)
    requires
        sample_entry_ok(q1, *e1, m / 100),
        sample_entry_ok(q2, *e2, m % 100),
        w1 == spec_pair_weight(m / 100),
        w2 == spec_pair_weight(m % 100),
        0 <= w1 <= 0x1000_0000_0000,
        0 <= w2 <= 0x1000_0000_0000,
    ensures
        r == g_sample_term(q1, q2, m),
        0 <= r <= 0x10_0000_0000_0000_0000_0000_0000,
{
    let kv: i128 = kernel(&e1.0, &e1.1, &e2.0, &e2.1);
    proof {
        lemma_prod_bound(w1 as int, w2 as int, 0x1000_0000_0000, 0x1000_0000_0000);
        lemma_tdiv_bound(
            (w1 as int) * (w2 as int),
            W_SCALE as int,
            0x100_0000_0000_0000_0000_0000int,
        );
        lemma_tdiv_ordered(0, (w1 as int) * (w2 as int), W_SCALE as int);
        assert((w1 as int) * (w2 as int) >= 0) by (nonlinear_arith)
            requires
                w1 >= 0,
                w2 >= 0,
        ;
        assert(0x100_0000_0000_0000_0000_0000int / (W_SCALE as int) == 0x100_0000_0000);
    }
    let ww: i128 = tdiv128((w1 as i128) * (w2 as i128), W_SCALE);
    proof {
        assert(0 <= ww * kv <= 0x10_0000_0000_0000_0000_0000_0000) by (nonlinear_arith)
            requires
                0 <= ww <= 0x100_0000_0000,
                0 <= kv <= 0x1000_0000_0000_0000,
        ;
        lemma_term_range(q1, q2, m);
        assert(ww * kv == g_sample_term(q1, q2, m));
    }
    ww * kv
}

/// One precomputed sample-table entry is correct for flat node index
/// `j`: the bilinear point and scaled normal at the node pair
/// `(j / 10, j % 10)`, with their magnitude bounds.
pub open spec fn sample_entry_ok(q: GQuad, e: (Vec3, Vec3), j: int) -> bool {
    &&& gv(e.0) == g_bilerp(q, spec_node(j / 10), spec_node(j % 10))
    &&& gv(e.1) == g_patch_normal(q, spec_node(j / 10), spec_node(j % 10))
    &&& v3_bounded(e.0, 0x100_0000_0000)
    &&& v3_bounded(e.1, 0x2_0000_0000_0000)
}

/// The pair weight for flat node index `j`, at 48 fractional bits.
pub open spec fn spec_pair_weight(j: int) -> int {
    tdiv(spec_weight(j / 10) * spec_weight(j % 10), W_SCALE as int)
}

/// The unobstructed mutual exchange of two patches.
#[verifier::rlimit(100)]
pub fn eval_exchange(q1: &Quad, q2: &Quad) -> (r: i64)
    requires
        quad_bounded(*q1, COORD_LIM as int),
        quad_bounded(*q2, COORD_LIM as int),
    ensures
        r == spec_eval_exchange(gq(*q1), gq(*q2)),
        0 <= r <= EXCHANGE_SAT,
{
    let (n1, _a1) = crate::geom::normal_and_area(q1);
    let (n2, _a2) = crate::geom::normal_and_area(q2);
    if behind_check(&n1, &q1.p0, q2) || behind_check(&n2, &q2.p0, q1) {
        proof {
            reveal(spec_eval_exchange);
        }
        return 0;
    }
    let mut pts1: Vec<(Vec3, Vec3)> = Vec::new();
    let mut pts2: Vec<(Vec3, Vec3)> = Vec::new();
    let mut pw: Vec<i64> = Vec::new();
    let mut i: usize = 0;
    while i < 100
        invariant
            quad_bounded(*q1, COORD_LIM as int),
            quad_bounded(*q2, COORD_LIM as int),
            i <= 100,
            pts1.len() == i,
            pts2.len() == i,
            pw.len() == i,
            forall|j: int| 0 <= j < i ==> sample_entry_ok(gq(*q1), #[trigger] pts1[j], j),
            forall|j: int| 0 <= j < i ==> sample_entry_ok(gq(*q2), #[trigger] pts2[j], j),
            forall|j: int|
                0 <= j < i ==> #[trigger] pw[j] == spec_pair_weight(j) && 0 <= pw[j]
                    <= 0x1000_0000_0000,
        decreases 100 - i,
    {
        let s: i64 = node(i / 10);
        let t: i64 = node(i % 10);
        let s1 = sample(q1, s, t);
        let s2 = sample(q2, s, t);
        let wa: i64 = weight(i / 10);
        let wb: i64 = weight(i % 10);
        proof {
            lemma_prod_bound(wa as int, wb as int, 0x4000_0000_0000, 0x4000_0000_0000);
            lemma_tdiv_bound(
                (wa as int) * (wb as int),
                W_SCALE as int,
                0x1000_0000_0000_0000_0000_0000,
            );
            lemma_tdiv_ordered(0, (wa as int) * (wb as int), W_SCALE as int);
            assert(0x1000_0000_0000_0000_0000_0000int / (W_SCALE as int) == 0x1000_0000_0000);
            assert((wa as int) * (wb as int) >= 0) by (nonlinear_arith)
                requires
                    wa > 0,
                    wb > 0,
            ;
        }
        let w2: i128 = tdiv128((wa as i128) * (wb as i128), W_SCALE);
        pts1.push(s1);
        pts2.push(s2);
        pw.push(w2 as i64);
        proof {
            assert(sample_entry_ok(gq(*q1), pts1[i as int], i as int));
            assert(sample_entry_ok(gq(*q2), pts2[i as int], i as int));
            assert(pw[i as int] == spec_pair_weight(i as int));
        }
        i = i + 1;
    }
    let mut acc: i128 = 0;
    let mut m: usize = 0;
    while m < 10000
        invariant
            m <= 10000,
            pts1.len() == 100,
            pts2.len() == 100,
            pw.len() == 100,
            forall|j: int| 0 <= j < 100 ==> sample_entry_ok(gq(*q1), #[trigger] pts1[j], j),
            forall|j: int| 0 <= j < 100 ==> sample_entry_ok(gq(*q2), #[trigger] pts2[j], j),
            forall|j: int|
                0 <= j < 100 ==> #[trigger] pw[j] == spec_pair_weight(j) && 0 <= pw[j]
                    <= 0x1000_0000_0000,
            acc == g_accum(gq(*q1), gq(*q2), m as int),
            0 <= acc <= m * 0x10_0000_0000_0000_0000_0000_0000,
        decreases 10000 - m,
    {
        let i1: usize = m / 100;
        let i2: usize = m % 100;
        proof {
            assert(i1 as int == (m as int) / 100 && i2 as int == (m as int) % 100);
            lemma_term_range(gq(*q1), gq(*q2), m as int);
        }
        let tv: i128 = weighted_term(
            &pts1[i1],
            &pts2[i2],
            pw[i1],
            pw[i2],
            Ghost(gq(*q1)),
            Ghost(gq(*q2)),
            Ghost(m as int),
        );
        acc = acc + tv;
        m = m + 1;
    }
    proof {
        lemma_accum_range(gq(*q1), gq(*q2), 10000);
        lemma_tdiv_ordered(0, acc as int, W_SCALE as int);
        lemma_tdiv_bound(acc as int, W_SCALE as int, 10000int * 0x10_0000_0000_0000_0000_0000_0000);
        assert((10000int * 0x10_0000_0000_0000_0000_0000_0000) / (W_SCALE as int)
            == 0x2_7100_0000_0000_0000);
    }
    let e1: i128 = tdiv128(acc, W_SCALE);
    proof {
        assert(0 <= e1 * FX_ONE_W <= 0x2_7100_0000_0000_0000_0000_0000) by (nonlinear_arith)
            requires
                0 <= e1 <= 0x2_7100_0000_0000_0000,
                FX_ONE_W == 0x1_0000_0000,
        ;
        lemma_tdiv_ordered(0, e1 * FX_ONE_W, FX_PI as int);
    }
    proof {
        reveal(spec_eval_exchange);
    }
    let e2: i128 = tdiv128(e1 * FX_ONE_W, FX_PI as i128);
    if e2 > EXCHANGE_SAT as i128 {
        EXCHANGE_SAT
    } else {
        e2 as i64
    }
}

} // verus!
