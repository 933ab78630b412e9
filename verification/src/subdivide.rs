//! The adaptive subdivision controller.
//!
//! A partially obstructed pair is refined by splitting the larger of
//! its two patches into quadrants and re-resolving the four child
//! pairs, whose exchanges sum exactly to the parent's. Each node first
//! forms a coarse estimate (the unobstructed exchange weighted by the
//! sampled visible fraction) and a refined one (the children's coarse
//! estimates); once the recursion depth has reached the configured
//! floor, agreement of the two within the convergence tolerance ends
//! the descent. Reaching the depth cap forces acceptance of the best
//! estimate and raises a non-fatal precision flag — a value always
//! comes back, never a failure.

use vstd::prelude::*;

verus! {

use crate::fx::FX_ONE;
use crate::fx::FX_ONE_W;
use crate::fx::lemma_tdiv_bound;
use crate::fx::lemma_tdiv_ordered;
use crate::fx::tdiv;
use crate::fx::tdiv128;
use crate::geom::GQuad;
use crate::geom::Quad;
use crate::geom::COORD_LIM;
use crate::geom::g_split;
use crate::geom::gq;
use crate::geom::quad_bounded;
use crate::geom::spec_area;
use crate::quadrature::EXCHANGE_SAT;
use crate::quadrature::spec_eval_exchange;
use crate::visibility::VisClass;
use crate::visibility::spec_classify;
use crate::visibility::spec_clear_weight;

/// Saturate an exchange value at the engine's exchange bound.
pub open spec fn spec_sat(e: int) -> int {
    if e > EXCHANGE_SAT {
        EXCHANGE_SAT as int
    } else {
        e
    }
}

/// The one-level estimate of a pair's exchange: the evaluator's value
/// where the view is clear, zero where it is blocked, and the
/// evaluator's value scaled by the sampled visible fraction where it
/// is mixed.
#[verifier::opaque]
pub open spec fn spec_leaf_estimate(g1: GQuad, g2: GQuad, obs: Seq<Quad>) -> int {
    let cls = spec_classify(g1, g2, obs);
    if cls == VisClass::Clear {
        spec_eval_exchange(g1, g2)
    } else if cls == VisClass::Blocked {
        0
    } else {
        tdiv(spec_eval_exchange(g1, g2) * spec_clear_weight(g1, g2, obs), 50)
    }
}

/// A leaf estimate is a non-negative saturated exchange.
pub proof fn lemma_leaf_range(g1: GQuad, g2: GQuad, obs: Seq<Quad>)
    ensures
        0 <= spec_leaf_estimate(g1, g2, obs) <= EXCHANGE_SAT,
{
    reveal(spec_leaf_estimate);
    reveal(crate::visibility::spec_clear_weight);
    crate::quadrature::lemma_eval_range(g1, g2);
    let e = spec_eval_exchange(g1, g2);
    let cw = spec_clear_weight(g1, g2, obs);
    crate::visibility::lemma_ray_counts_range(g1, g2, obs, 25);
    assert(0 <= e * cw <= 50 * EXCHANGE_SAT) by (nonlinear_arith)
        requires
            0 <= e <= EXCHANGE_SAT as int,
            0 <= cw <= 50,
    ;
    lemma_tdiv_ordered(0, e * cw, 50);
    lemma_tdiv_bound(e * cw, 50, 50 * EXCHANGE_SAT as int);
    assert((50 * EXCHANGE_SAT as int) / 50 == EXCHANGE_SAT as int);
}

/// A refined estimate is bounded by four saturated exchanges.
pub proof fn lemma_refined_range(g1: GQuad, g2: GQuad, obs: Seq<Quad>)
    ensures
        0 <= spec_refined(g1, g2, obs) <= 4 * EXCHANGE_SAT,
{
    reveal(spec_refined);
    if spec_area(g1) >= spec_area(g2) {
        let s = g_split(g1);
        lemma_leaf_range(s.0, g2, obs);
        lemma_leaf_range(s.1, g2, obs);
        lemma_leaf_range(s.2, g2, obs);
        lemma_leaf_range(s.3, g2, obs);
    } else {
        let s = g_split(g2);
        lemma_leaf_range(g1, s.0, obs);
        lemma_leaf_range(g1, s.1, obs);
        lemma_leaf_range(g1, s.2, obs);
        lemma_leaf_range(g1, s.3, obs);
    }
}

/// The refined estimate: the larger patch split into quadrants, the
/// four child pairs' leaf estimates summed.
#[verifier::opaque]
pub open spec fn spec_refined(g1: GQuad, g2: GQuad, obs: Seq<Quad>) -> int {
    if spec_area(g1) >= spec_area(g2) {
        let s = g_split(g1);
        spec_leaf_estimate(s.0, g2, obs) + spec_leaf_estimate(s.1, g2, obs) + spec_leaf_estimate(
            s.2,
            g2,
            obs,
        ) + spec_leaf_estimate(s.3, g2, obs)
    } else {
        let s = g_split(g2);
        spec_leaf_estimate(g1, s.0, obs) + spec_leaf_estimate(g1, s.1, obs) + spec_leaf_estimate(
            g1,
            s.2,
            obs,
        ) + spec_leaf_estimate(g1, s.3, obs)
    }
}

/// The convergence threshold: the tolerance taken relative to the
/// coarse estimate, with the tolerance itself as an absolute floor.
pub open spec fn spec_threshold(eps: int, coarse: int) -> int {
    tdiv(eps * coarse, FX_ONE_W as int) + eps
}

/// One node of the adaptive controller, as a value: the exchange of
/// the pair at `depth`, and whether any descendant hit the depth cap
/// without converging. A clear pair is final, a blocked pair is a
/// hard zero, and a mixed pair either converges (refined against
/// coarse, trusted only from `minr` on), recurses, or is forced to
/// accept its best estimate at depth `maxr`.
#[verifier::opaque]
pub open spec fn spec_node_exchange(
    g1: GQuad,
    g2: GQuad,
    obs: Seq<Quad>,
    depth: int,
    minr: int,
    maxr: int,
    eps: int,
) -> (int, bool)
    decreases maxr - depth,
{
    let cls = spec_classify(g1, g2, obs);
    if cls == VisClass::Clear {
        (spec_eval_exchange(g1, g2), false)
    } else if cls == VisClass::Blocked {
        (0, false)
    } else if depth >= maxr {
        (spec_leaf_estimate(g1, g2, obs), true)
    } else {
        let coarse = spec_leaf_estimate(g1, g2, obs);
        let refined = spec_refined(g1, g2, obs);
        let diff = if refined >= coarse {
            refined - coarse
        } else {
            coarse - refined
        };
        if depth >= minr && diff <= spec_threshold(eps, coarse) {
            (spec_sat(refined), false)
        } else {
            let (ea, eb, ec, ed, warn) = if spec_area(g1) >= spec_area(g2) {
                let s = g_split(g1);
                let ra = spec_node_exchange(s.0, g2, obs, depth + 1, minr, maxr, eps);
                let rb = spec_node_exchange(s.1, g2, obs, depth + 1, minr, maxr, eps);
                let rc = spec_node_exchange(s.2, g2, obs, depth + 1, minr, maxr, eps);
                let rd = spec_node_exchange(s.3, g2, obs, depth + 1, minr, maxr, eps);
                (ra.0, rb.0, rc.0, rd.0, ra.1 || rb.1 || rc.1 || rd.1)
            } else {
                let s = g_split(g2);
                let ra = spec_node_exchange(g1, s.0, obs, depth + 1, minr, maxr, eps);
                let rb = spec_node_exchange(g1, s.1, obs, depth + 1, minr, maxr, eps);
                let rc = spec_node_exchange(g1, s.2, obs, depth + 1, minr, maxr, eps);
                let rd = spec_node_exchange(g1, s.3, obs, depth + 1, minr, maxr, eps);
                (ra.0, rb.0, rc.0, rd.0, ra.1 || rb.1 || rc.1 || rd.1)
            };
            (spec_sat(ea + eb + ec + ed), warn)
        }
    }
}

/// The one-level estimate of a pair.
fn leaf_estimate(q1: &Quad, q2: &Quad, obs: &Vec<Quad>) -> (r: i64)
    requires
        quad_bounded(*q1, COORD_LIM as int),
        quad_bounded(*q2, COORD_LIM as int),
        forall|j: int| 0 <= j < obs.len() ==> quad_bounded(#[trigger] obs[j], COORD_LIM as int),
    ensures
        r == spec_leaf_estimate(gq(*q1), gq(*q2), obs@),
        0 <= r <= EXCHANGE_SAT,
{
    proof {
        reveal(spec_leaf_estimate);
        lemma_leaf_range(gq(*q1), gq(*q2), obs@);
    }
    let (cls, cw) = crate::visibility::classify(q1, q2, obs);
    match cls {
        VisClass::Clear => crate::quadrature::eval_exchange(q1, q2),
        VisClass::Blocked => 0,
        VisClass::Mixed => {
            let e = crate::quadrature::eval_exchange(q1, q2);
            let v: i128 = tdiv128((e as i128) * (cw as i128), 50);
            proof {
                assert(0 <= (e as int) * (cw as int) <= 50 * EXCHANGE_SAT as int)
                    by (nonlinear_arith)
                    requires
                        0 <= e <= EXCHANGE_SAT,
                        0 <= cw <= 50,
                        EXCHANGE_SAT == 0x4_0000_0000_0000,
                ;
                lemma_tdiv_bound((e as int) * (cw as int), 50, 50 * EXCHANGE_SAT as int);
                lemma_tdiv_ordered(0, (e as int) * (cw as int), 50);
                assert((50 * EXCHANGE_SAT as int) / 50 == EXCHANGE_SAT as int);
            }
            v as i64
        },
    }
}

/// The refined estimate of a mixed pair.
fn refined_estimate(q1: &Quad, q2: &Quad, obs: &Vec<Quad>) -> (r: i64)
    requires
        quad_bounded(*q1, COORD_LIM as int),
        quad_bounded(*q2, COORD_LIM as int),
        forall|j: int| 0 <= j < obs.len() ==> quad_bounded(#[trigger] obs[j], COORD_LIM as int),
    ensures
        r == spec_refined(gq(*q1), gq(*q2), obs@),
        0 <= r <= 4 * EXCHANGE_SAT,
{
    proof {
        reveal(spec_refined);
    }
    let (_n1, a1) = crate::geom::normal_and_area(q1);
    let (_n2, a2) = crate::geom::normal_and_area(q2);
    if a1 >= a2 {
        let parts = crate::geom::split(q1);
        leaf_estimate(&parts.0, q2, obs) + leaf_estimate(&parts.1, q2, obs) + leaf_estimate(
            &parts.2,
            q2,
            obs,
        ) + leaf_estimate(&parts.3, q2, obs)
    } else {
        let parts = crate::geom::split(q2);
        leaf_estimate(q1, &parts.0, obs) + leaf_estimate(q1, &parts.1, obs) + leaf_estimate(
            q1,
            &parts.2,
            obs,
        ) + leaf_estimate(q1, &parts.3, obs)
    }
}

/// The convergence threshold for a coarse estimate.
fn threshold(eps: i64, coarse: i64) -> (r: i64)
    requires
        0 < eps <= FX_ONE,
        0 <= coarse <= EXCHANGE_SAT,
    ensures
        r == spec_threshold(eps as int, coarse as int),
        0 <= r,
{
    proof {
        assert(0 <= (eps as int) * (coarse as int) <= 0x4_0000_0000_0000_0000_0000)
            by (nonlinear_arith)
            requires
                0 < eps <= FX_ONE,
                0 <= coarse <= EXCHANGE_SAT,
                FX_ONE == 0x1_0000_0000,
                EXCHANGE_SAT == 0x4_0000_0000_0000,
        ;
        lemma_tdiv_bound(
            (eps as int) * (coarse as int),
            FX_ONE_W as int,
            0x4_0000_0000_0000_0000_0000,
        );
        lemma_tdiv_ordered(0, (eps as int) * (coarse as int), FX_ONE_W as int);
        assert(0x4_0000_0000_0000_0000_0000int / 0x1_0000_0000int == 0x4_0000_0000_0000);
    }
    tdiv128((eps as i128) * (coarse as i128), FX_ONE_W) as i64 + eps
}

/// One node of the adaptive controller: the exchange of the pair and
/// the precision flag.
#[verifier::rlimit(100)]
pub fn node_exchange(
    q1: &Quad,
    q2: &Quad,
    obs: &Vec<Quad>,
    depth: i32,
    minr: i32,
    maxr: i32,
    eps: i64,
) -> (r: (i64, bool))
    requires
        quad_bounded(*q1, COORD_LIM as int),
        quad_bounded(*q2, COORD_LIM as int),
        forall|j: int| 0 <= j < obs.len() ==> quad_bounded(#[trigger] obs[j], COORD_LIM as int),
        0 <= depth <= maxr,
        maxr <= crate::catalog::MAX_DEPTH,
        0 < eps <= FX_ONE,
    ensures
        (r.0 as int, r.1) == spec_node_exchange(
            gq(*q1),
            gq(*q2),
            obs@,
            depth as int,
            minr as int,
            maxr as int,
            eps as int,
        ),
        0 <= r.0 <= EXCHANGE_SAT,
    decreases maxr - depth,
{
    proof {
        reveal_with_fuel(spec_node_exchange, 2);
    }
    let ghost gr = spec_node_exchange(
        gq(*q1),
        gq(*q2),
        obs@,
        depth as int,
        minr as int,
        maxr as int,
        eps as int,
    );
    let (cls, _cw) = crate::visibility::classify(q1, q2, obs);
    match cls {
        VisClass::Clear => (crate::quadrature::eval_exchange(q1, q2), false),
        VisClass::Blocked => (0, false),
        VisClass::Mixed => {
            let coarse = leaf_estimate(q1, q2, obs);
            if depth >= maxr {
                return (coarse, true);
            }
            let refined = refined_estimate(q1, q2, obs);
            let diff: i64 = if refined >= coarse {
                refined - coarse
            } else {
                coarse - refined
            };
            let thr: i64 = threshold(eps, coarse);
            if depth >= minr && diff <= thr {
                let sat = if refined > EXCHANGE_SAT {
                    EXCHANGE_SAT
                } else {
                    refined
                };
                proof {
                    assert(gr == (spec_sat(refined as int), false));
                }
                (sat, false)
            } else {
                let (_n1, a1) = crate::geom::normal_and_area(q1);
                let (_n2, a2) = crate::geom::normal_and_area(q2);
                let (ea, wa, eb, wb, ec, wc, ed, wd) = if a1 >= a2 {
                    let parts = crate::geom::split(q1);
                    let ra = node_exchange(&parts.0, q2, obs, depth + 1, minr, maxr, eps);
                    let rb = node_exchange(&parts.1, q2, obs, depth + 1, minr, maxr, eps);
                    let rc = node_exchange(&parts.2, q2, obs, depth + 1, minr, maxr, eps);
                    let rd = node_exchange(&parts.3, q2, obs, depth + 1, minr, maxr, eps);
                    (ra.0, ra.1, rb.0, rb.1, rc.0, rc.1, rd.0, rd.1)
                } else {
                    let parts = crate::geom::split(q2);
                    let ra = node_exchange(q1, &parts.0, obs, depth + 1, minr, maxr, eps);
                    let rb = node_exchange(q1, &parts.1, obs, depth + 1, minr, maxr, eps);
                    let rc = node_exchange(q1, &parts.2, obs, depth + 1, minr, maxr, eps);
                    let rd = node_exchange(q1, &parts.3, obs, depth + 1, minr, maxr, eps);
                    (ra.0, ra.1, rb.0, rb.1, rc.0, rc.1, rd.0, rd.1)
                };
                let total: i64 = ea + eb + ec + ed;
                let sat = if total > EXCHANGE_SAT {
                    EXCHANGE_SAT
                } else {
                    total
                };
                proof {
                    assert(gr == (spec_sat((ea + eb + ec + ed) as int), wa || wb || wc || wd));
                }
                (sat, wa || wb || wc || wd)
            }
        },
    }
}

} // verus!
