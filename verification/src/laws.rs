//! The engine's stated laws: reciprocity of the averaged matrix,
//! row-sum bounds under enclosure normalization, reflection symmetry
//! of a reordered pair, and determinism of the whole run.

use vstd::prelude::*;

verus! {

use crate::catalog::InData;
use crate::catalog::spec_data_valid;
use crate::engine::F_SAT;
use crate::engine::VFResults;
use crate::engine::spec_encl_matrix;
use crate::engine::spec_raw_matrix;
use crate::engine::spec_recip_entry;
use crate::engine::spec_recip_matrix;
use crate::engine::spec_results_ok;
use crate::engine::spec_row_sum;
use crate::engine::spec_surf_area;
use crate::fx::FX_ONE;
use crate::fx::lemma_tdiv_exact;
use crate::fx::lemma_tdiv_ordered;
use crate::fx::tdiv;

/// Law (idempotence): the engine's outcome is a pure function of the
/// catalog and options, so two successful runs on identical input
/// agree bit for bit in every reported field.
pub proof fn lemma_idempotent(data: InData, r1: VFResults, r2: VFResults)
    requires
        spec_results_ok(data, r1),
        spec_results_ok(data, r2),
    ensures
        r1.n_surfs == r2.n_surfs,
        r1.encl == r2.encl,
        r1.values@ == r2.values@,
        r1.areas@ == r2.areas@,
        r1.emit@ == r2.emit@,
        r1.warnings@ == r2.warnings@,
{
}

/// Law (reciprocity): after the averaging pass, the two directions of
/// any off-diagonal pair carry the same mutual exchange, to within
/// one truncation step of each area: with `ai`, `aj` the two areas
/// and `F'` the averaged matrix,
/// `|ai * F'(i,j) - aj * F'(j,i)| < ai + aj` — at 32 fractional bits
/// an error below `(ai + aj) / 2^32`, which is inside any positive
/// configured tolerance scale. Holds wherever the averaged entries
/// did not hit the clamp at one, which well-resolved geometry does
/// not reach.
pub proof fn lemma_reciprocity(data: InData, i: int, j: int)
    requires
        spec_data_valid(data),
        data.opts.row == 0,
        data.opts.col == 0,
        0 <= i < data.n_rad_srf,
        0 <= j < data.n_rad_srf,
        i != j,
        spec_avg_exchange(data, i, j) <= (F_SAT as int) * spec_surf_area(data, i),
        spec_avg_exchange(data, i, j) <= (F_SAT as int) * spec_surf_area(data, j),
    ensures
        ({
            let n = data.n_rad_srf as int;
            let mr = spec_recip_matrix(data);
            let ai = spec_surf_area(data, i);
            let aj = spec_surf_area(data, j);
            -(ai + aj) < ai * mr[i * n + j] - aj * mr[j * n + i] < ai + aj
        }),
{
    let n = data.n_rad_srf as int;
    let m = spec_raw_matrix(data);
    let mr = spec_recip_matrix(data);
    let ai = spec_surf_area(data, i);
    let aj = spec_surf_area(data, j);
    lemma_area_pos(data, i);
    lemma_area_pos(data, j);
    lemma_in_matrix(data, i, j);
    lemma_in_matrix(data, j, i);
    lemma_raw_in_range(data, i, j);
    lemma_raw_in_range(data, j, i);
    let e = spec_avg_exchange(data, i, j);
    assert(spec_avg_exchange(data, j, i) == e);
    assert(0 <= ai * m[i * n + j] && 0 <= aj * m[j * n + i]) by (nonlinear_arith)
        requires
            0 < ai,
            0 < aj,
            0 <= m[i * n + j],
            0 <= m[j * n + i],
    ;
    lemma_tdiv_ordered(0, ai * m[i * n + j] + aj * m[j * n + i], 2);
    assert(mr[i * n + j] == spec_recip_entry(data, m, i, j) as i64);
    assert(mr[j * n + i] == spec_recip_entry(data, m, j, i) as i64);
    let qi = tdiv(e, ai);
    let qj = tdiv(e, aj);
    lemma_tdiv_exact(e, ai);
    lemma_tdiv_exact(e, aj);
    lemma_tdiv_ordered(0, e, ai);
    lemma_tdiv_ordered(0, e, aj);
    assert(0 <= qi <= F_SAT) by {
        lemma_quotient_saturates(e, ai);
    };
    assert(0 <= qj <= F_SAT) by {
        lemma_quotient_saturates(e, aj);
    };
    assert(spec_recip_entry(data, m, i, j) == qi);
    assert(spec_recip_entry(data, m, j, i) == qj);
    assert(ai * qi <= e < ai * qi + ai);
    assert(aj * qj <= e < aj * qj + aj);
}

/// A quotient under the saturation hypothesis stays within the
/// saturation bound.
proof fn lemma_quotient_saturates(e: int, a: int)
    requires
        0 <= e,
        0 < a,
        e <= (F_SAT as int) * a,
    ensures
        0 <= tdiv(e, a) <= F_SAT,
{
    lemma_tdiv_ordered(0, e, a);
    lemma_tdiv_exact(e, a);
    let q = tdiv(e, a);
    if q > F_SAT {
        assert(a * q >= a * (F_SAT as int + 1)) by (nonlinear_arith)
            requires
                0 < a,
                q >= F_SAT as int + 1,
        ;
        assert(a * (F_SAT as int + 1) > (F_SAT as int) * a) by (nonlinear_arith)
            requires
                0 < a,
        ;
    }
}

/// The averaged mutual exchange of the pair `(i, j)`, symmetric in
/// its two surfaces.
pub open spec fn spec_avg_exchange(data: InData, i: int, j: int) -> int {
    let n = data.n_rad_srf as int;
    let m = spec_raw_matrix(data);
    tdiv(
        spec_surf_area(data, i) * m[i * n + j] + spec_surf_area(data, j) * m[j * n + i],
        2,
    )
}

/// A valid surface has a positive area.
pub proof fn lemma_area_pos(data: InData, i: int)
    requires
        spec_data_valid(data),
        0 <= i < data.n_rad_srf,
    ensures
        0 < spec_surf_area(data, i),
{
    assert(crate::catalog::spec_surf_geom_valid(data, i));
}

/// Flat indices of entries `(i, j)` lie in the matrix.
pub proof fn lemma_in_matrix(data: InData, i: int, j: int)
    requires
        spec_data_valid(data),
        0 <= i < data.n_rad_srf,
        0 <= j < data.n_rad_srf,
    ensures
        0 <= i * (data.n_rad_srf as int) + j < (data.n_rad_srf as int) * (data.n_rad_srf as int),
        (i * (data.n_rad_srf as int) + j) / (data.n_rad_srf as int) == i,
        (i * (data.n_rad_srf as int) + j) % (data.n_rad_srf as int) == j,
{
    let n = data.n_rad_srf as int;
    assert(0 <= i * n + j < n * n) by (nonlinear_arith)
        requires
            0 <= i < n,
            0 <= j < n,
    ;
    vstd::arithmetic::div_mod::lemma_fundamental_div_mod_converse(i * n + j, n, i, j);
}

/// A raw entry read back from the matrix is in `[0, F_SAT]`.
pub proof fn lemma_raw_in_range(data: InData, i: int, j: int)
    requires
        spec_data_valid(data),
        0 <= i < data.n_rad_srf,
        0 <= j < data.n_rad_srf,
    ensures
        ({
            let n = data.n_rad_srf as int;
            let m = spec_raw_matrix(data);
            0 <= m[i * n + j] <= F_SAT && m[i * n + j] == crate::engine::spec_raw_entry(
                data,
                i,
                j,
            ).0
        }),
{
    lemma_in_matrix(data, i, j);
    lemma_raw_entry_in_range(data, i, j);
}

/// The raw entry value is in `[0, F_SAT]`.
pub proof fn lemma_raw_entry_in_range(data: InData, i: int, j: int)
    requires
        spec_data_valid(data),
        0 <= i < data.n_rad_srf,
        0 <= j < data.n_rad_srf,
    ensures
        0 <= crate::engine::spec_raw_entry(data, i, j).0 <= F_SAT,
{
    if i != j && crate::engine::spec_selected(data, i, j) {
        lemma_node_value_range(data, i, j);
        lemma_area_pos(data, i);
        let e = spec_node_value(data, i, j);
        assert(0 <= e * (FX_ONE as int)) by (nonlinear_arith)
            requires
                0 <= e,
                FX_ONE == 0x1_0000_0000,
        ;
        lemma_tdiv_ordered(0, e * (FX_ONE as int), spec_surf_area(data, i));
    }
}

/// The subdivision value of the pair `(i, j)`.
pub open spec fn spec_node_value(data: InData, i: int, j: int) -> int {
    crate::subdivide::spec_node_exchange(
        crate::geom::gq(crate::catalog::spec_surf_quad(data, i)),
        crate::geom::gq(crate::catalog::spec_surf_quad(data, j)),
        crate::engine::spec_pair_obs(data, i, j),
        0,
        data.opts.min_recursion as int,
        data.opts.max_recursion as int,
        data.opts.eps_adap as int,
    ).0
}

/// A subdivision value is a saturated non-negative exchange.
pub proof fn lemma_node_value_range(data: InData, i: int, j: int)
    ensures
        0 <= spec_node_value(data, i, j) <= crate::quadrature::EXCHANGE_SAT,
{
    lemma_node_range_rec(
        crate::geom::gq(crate::catalog::spec_surf_quad(data, i)),
        crate::geom::gq(crate::catalog::spec_surf_quad(data, j)),
        crate::engine::spec_pair_obs(data, i, j),
        0,
        data.opts.min_recursion as int,
        data.opts.max_recursion as int,
        data.opts.eps_adap as int,
    );
}

/// Recursive range bound on the subdivision controller's value.
#[verifier::rlimit(100)]
proof fn lemma_node_range_rec(
    g1: crate::geom::GQuad,
    g2: crate::geom::GQuad,
    obs: Seq<crate::geom::Quad>,
    depth: int,
    minr: int,
    maxr: int,
    eps: int,
)
    ensures
        0 <= crate::subdivide::spec_node_exchange(g1, g2, obs, depth, minr, maxr, eps).0
            <= crate::quadrature::EXCHANGE_SAT,
    decreases maxr - depth,
{
    reveal_with_fuel(crate::subdivide::spec_node_exchange, 1);
    crate::quadrature::lemma_eval_range(g1, g2);
    crate::subdivide::lemma_leaf_range(g1, g2, obs);
    crate::subdivide::lemma_refined_range(g1, g2, obs);
    let cls = crate::visibility::spec_classify(g1, g2, obs);
    if cls == crate::visibility::VisClass::Mixed && depth < maxr {
        if crate::geom::spec_area(g1) >= crate::geom::spec_area(g2) {
            let s = crate::geom::g_split(g1);
            lemma_node_range_rec(s.0, g2, obs, depth + 1, minr, maxr, eps);
            lemma_node_range_rec(s.1, g2, obs, depth + 1, minr, maxr, eps);
            lemma_node_range_rec(s.2, g2, obs, depth + 1, minr, maxr, eps);
            lemma_node_range_rec(s.3, g2, obs, depth + 1, minr, maxr, eps);
        } else {
            let s = crate::geom::g_split(g2);
            lemma_node_range_rec(g1, s.0, obs, depth + 1, minr, maxr, eps);
            lemma_node_range_rec(g1, s.1, obs, depth + 1, minr, maxr, eps);
            lemma_node_range_rec(g1, s.2, obs, depth + 1, minr, maxr, eps);
            lemma_node_range_rec(g1, s.3, obs, depth + 1, minr, maxr, eps);
        }
    }
}

/// Partial sum of the scaled entries of row `i`: each entry of the
/// reciprocity matrix times one, divided by the row sum `s`.
pub open spec fn spec_scaled_partial(data: InData, m: Seq<i64>, i: int, s: int, c: int) -> int
    decreases c,
{
    let n = data.n_rad_srf as int;
    if c <= 0 {
        0
    } else {
        spec_scaled_partial(data, m, i, s, c - 1) + tdiv(m[i * n + (c - 1)] * (FX_ONE as int), s)
    }
}

/// An entry of the reciprocity matrix is in `[0, F_SAT]`.
pub proof fn lemma_recip_in_range(data: InData, i: int, j: int)
    requires
        spec_data_valid(data),
        data.opts.row == 0,
        data.opts.col == 0,
        0 <= i < data.n_rad_srf,
        0 <= j < data.n_rad_srf,
    ensures
        ({
            let n = data.n_rad_srf as int;
            let mr = spec_recip_matrix(data);
            0 <= mr[i * n + j] <= F_SAT && mr[i * n + j] == spec_recip_entry(
                data,
                spec_raw_matrix(data),
                i,
                j,
            ) as i64
        }),
{
    let n = data.n_rad_srf as int;
    let m = spec_raw_matrix(data);
    lemma_in_matrix(data, i, j);
    lemma_in_matrix(data, j, i);
    lemma_raw_in_range(data, i, j);
    if i != j {
        lemma_raw_in_range(data, j, i);
        lemma_area_pos(data, i);
        lemma_area_pos(data, j);
        let ai = spec_surf_area(data, i);
        let aj = spec_surf_area(data, j);
        assert(0 <= ai * m[i * n + j] && 0 <= aj * m[j * n + i]) by (nonlinear_arith)
            requires
                0 < ai,
                0 < aj,
                0 <= m[i * n + j],
                0 <= m[j * n + i],
        ;
        lemma_tdiv_ordered(0, ai * m[i * n + j] + aj * m[j * n + i], 2);
        let e = tdiv(ai * m[i * n + j] + aj * m[j * n + i], 2);
        lemma_tdiv_ordered(0, e, ai);
    }
}

/// The partial sums of a scaled row straddle the exact ratio: with
/// `s` the row sum and each quotient truncated, `c` steps lose less
/// than `c` units of the scale.
proof fn lemma_scaled_row_parts(data: InData, m: Seq<i64>, i: int, s: int, c: int)
    requires
        spec_data_valid(data),
        data.opts.row == 0,
        data.opts.col == 0,
        m == spec_recip_matrix(data),
        0 <= i < data.n_rad_srf,
        s > 0,
        0 <= c <= data.n_rad_srf,
    ensures
        ({
            let t = spec_scaled_partial(data, m, i, s, c);
            let part = spec_row_sum(data, m, i, c);
            s * t <= (FX_ONE as int) * part && (FX_ONE as int) * part <= s * t + c * s && 0 <= t
        }),
    decreases c,
{
    let n = data.n_rad_srf as int;
    if c > 0 {
        lemma_scaled_row_parts(data, m, i, s, c - 1);
        lemma_recip_in_range(data, i, c - 1);
        lemma_in_matrix(data, i, c - 1);
        let x = m[i * n + (c - 1)] as int;
        assert(0 <= x * (FX_ONE as int)) by (nonlinear_arith)
            requires
                0 <= x,
                FX_ONE == 0x1_0000_0000,
        ;
        let q = tdiv(x * (FX_ONE as int), s);
        lemma_tdiv_exact(x * (FX_ONE as int), s);
        lemma_tdiv_ordered(0, x * (FX_ONE as int), s);
        let t0 = spec_scaled_partial(data, m, i, s, c - 1);
        let p0 = spec_row_sum(data, m, i, c - 1);
        assert(s * (t0 + q) == s * t0 + s * q) by (nonlinear_arith);
        assert((FX_ONE as int) * (p0 + x) == (FX_ONE as int) * p0 + (FX_ONE as int) * x)
            by (nonlinear_arith);
        assert(c * s == (c - 1) * s + s) by (nonlinear_arith);
    }
}

/// Two matrices equal on a row prefix have equal partial row sums.
proof fn lemma_row_sum_agrees(data: InData, m1: Seq<i64>, m2: Seq<i64>, i: int, c: int)
    requires
        0 <= c,
        forall|j: int|
            0 <= j < c ==> #[trigger] m1[i * (data.n_rad_srf as int) + j] == m2[i * (
            data.n_rad_srf as int) + j],
    ensures
        spec_row_sum(data, m1, i, c) == spec_row_sum(data, m2, i, c),
    decreases c,
{
    if c > 0 {
        lemma_row_sum_agrees(data, m1, m2, i, c - 1);
    }
}

/// The scaled partial sums equal the enclosure matrix's row sums,
/// under the saturation guard.
proof fn lemma_encl_row_is_scaled(data: InData, i: int, s: int, c: int)
    requires
        spec_data_valid(data),
        data.opts.enclosure,
        data.opts.row == 0,
        data.opts.col == 0,
        0 <= i < data.n_rad_srf,
        0 <= c <= data.n_rad_srf,
        s == spec_row_sum(data, spec_recip_matrix(data), i, data.n_rad_srf as int),
        s > 0,
        !(s - FX_ONE <= data.opts.eps_adap && FX_ONE - s <= data.opts.eps_adap),
        forall|j: int|
            0 <= j < data.n_rad_srf ==> #[trigger] tdiv(
                spec_recip_matrix(data)[i * (data.n_rad_srf as int) + j] * (FX_ONE as int),
                s,
            ) <= F_SAT,
    ensures
        spec_row_sum(data, spec_encl_matrix(data), i, c) == spec_scaled_partial(
            data,
            spec_recip_matrix(data),
            i,
            s,
            c,
        ),
    decreases c,
{
    let n = data.n_rad_srf as int;
    let m = spec_recip_matrix(data);
    let me = spec_encl_matrix(data);
    if c > 0 {
        lemma_encl_row_is_scaled(data, i, s, c - 1);
        lemma_in_matrix(data, i, c - 1);
        lemma_recip_in_range(data, i, c - 1);
        let x = m[i * n + (c - 1)] as int;
        assert(0 <= x * (FX_ONE as int)) by (nonlinear_arith)
            requires
                0 <= x,
                FX_ONE == 0x1_0000_0000,
        ;
        lemma_tdiv_ordered(0, x * (FX_ONE as int), s);
        assert(me[i * n + (c - 1)] == crate::engine::spec_encl_entry(data, m, i, c - 1) as i64);
    }
}

/// Law (row bound under enclosure): after enclosure normalization a
/// row whose pre-scaling sum was positive obeys the unit-energy
/// bound. A row already within the configured tolerance of one keeps
/// its sum; a scaled row sums to at most one, and to no less than
/// one minus `n` truncation units (that is, `1 - n / 2^32`). Holds
/// wherever scaling stays below the clamp at one, which
/// well-resolved geometry does not reach.
pub proof fn lemma_enclosure_row_bound(data: InData, i: int)
    requires
        spec_data_valid(data),
        data.opts.enclosure,
        data.opts.row == 0,
        data.opts.col == 0,
        0 <= i < data.n_rad_srf,
        spec_row_sum(data, spec_recip_matrix(data), i, data.n_rad_srf as int) > 0,
        forall|j: int|
            0 <= j < data.n_rad_srf ==> #[trigger] tdiv(
                spec_recip_matrix(data)[i * (data.n_rad_srf as int) + j] * (FX_ONE as int),
                spec_row_sum(data, spec_recip_matrix(data), i, data.n_rad_srf as int),
            ) <= F_SAT,
    ensures
        ({
            let n = data.n_rad_srf as int;
            let s = spec_row_sum(data, spec_recip_matrix(data), i, n);
            let total = spec_row_sum(data, spec_encl_matrix(data), i, n);
            if s - FX_ONE <= data.opts.eps_adap && FX_ONE - s <= data.opts.eps_adap {
                total == s
            } else {
                FX_ONE - n <= total <= FX_ONE
            }
        }),
{
    let n = data.n_rad_srf as int;
    let m = spec_recip_matrix(data);
    let me = spec_encl_matrix(data);
    let s = spec_row_sum(data, m, i, n);
    if s - FX_ONE <= data.opts.eps_adap && FX_ONE - s <= data.opts.eps_adap {
        assert forall|j: int| 0 <= j < n implies #[trigger] me[i * n + j] == m[i * n + j] by {
            lemma_in_matrix(data, i, j);
            lemma_recip_in_range(data, i, j);
            assert(me[i * n + j] == crate::engine::spec_encl_entry(data, m, i, j) as i64);
        }
        lemma_row_sum_agrees(data, me, m, i, n);
    } else {
        lemma_encl_row_is_scaled(data, i, s, n);
        lemma_scaled_row_parts(data, m, i, s, n);
        let t = spec_scaled_partial(data, m, i, s, n);
        assert(s * t <= (FX_ONE as int) * s && (FX_ONE as int) * s <= s * t + n * s);
        assert(t <= FX_ONE) by (nonlinear_arith)
            requires
                s > 0,
                s * t <= (FX_ONE as int) * s,
                FX_ONE == 0x1_0000_0000,
        ;
        assert(FX_ONE - n <= t) by (nonlinear_arith)
            requires
                s > 0,
                (FX_ONE as int) * s <= s * t + n * s,
                FX_ONE == 0x1_0000_0000,
        ;
    }
}

/// Law (reflection symmetry): two catalogs that present the same two
/// radiating patches in opposite order — no aggregation, identical
/// full-matrix options without enclosure scaling — produce mirrored
/// matrices: each view factor of the reflected catalog equals the
/// opposite-direction view factor of the original, bit for bit.
pub proof fn lemma_swap_reflection(d1: InData, d2: InData)
    requires
        spec_data_valid(d1),
        spec_data_valid(d2),
        d1.n_rad_srf == 2,
        d1.n_all_srf == 2,
        d2.n_rad_srf == 2,
        d2.n_all_srf == 2,
        crate::engine::spec_target0(d1, 0) == 0,
        crate::engine::spec_target0(d1, 1) == 1,
        crate::engine::spec_target0(d2, 0) == 0,
        crate::engine::spec_target0(d2, 1) == 1,
        d1.opts.row == 0 && d1.opts.col == 0 && !d1.opts.enclosure,
        d2.opts.row == 0 && d2.opts.col == 0 && !d2.opts.enclosure,
        d1.opts.min_recursion == d2.opts.min_recursion,
        d1.opts.max_recursion == d2.opts.max_recursion,
        d1.opts.eps_adap == d2.opts.eps_adap,
        crate::catalog::spec_surf_quad(d2, 0) == crate::catalog::spec_surf_quad(d1, 1),
        crate::catalog::spec_surf_quad(d2, 1) == crate::catalog::spec_surf_quad(d1, 0),
    ensures
        crate::engine::spec_final_matrix(d2)[1] == crate::engine::spec_final_matrix(d1)[2],
        crate::engine::spec_final_matrix(d2)[2] == crate::engine::spec_final_matrix(d1)[1],
{
    reveal_with_fuel(crate::engine::spec_kept_upto, 3);
    assert(crate::engine::spec_kept(d1).len() == 2);
    assert(crate::engine::spec_kept(d2).len() == 2);
    lemma_swap_in_catalog(d1, d2, 0, 1);
}

/// The radiative kernel is symmetric in its two samples: swapping the
/// roles of emitter and receiver flips the separation vector, and
/// every factor of the summand is even under that flip.
pub proof fn lemma_kernel_symmetric(p: crate::vec3::GV, n1: crate::vec3::GV, q: crate::vec3::GV, n2: crate::vec3::GV)
    ensures
        crate::quadrature::g_kernel(p, n1, q, n2) == crate::quadrature::g_kernel(q, n2, p, n1),
{
    let r = crate::vec3::g_sub(q, p);
    let rr = crate::vec3::g_sub(p, q);
    assert(rr.x * rr.x + rr.y * rr.y + rr.z * rr.z == r.x * r.x + r.y * r.y + r.z * r.z)
        by (nonlinear_arith)
        requires
            rr.x == -r.x && rr.y == -r.y && rr.z == -r.z,
    ;
    assert(n1.x * rr.x + n1.y * rr.y + n1.z * rr.z == -(n1.x * r.x + n1.y * r.y + n1.z * r.z))
        by (nonlinear_arith)
        requires
            rr.x == -r.x && rr.y == -r.y && rr.z == -r.z,
    ;
    assert(n2.x * rr.x + n2.y * rr.y + n2.z * rr.z == -(n2.x * r.x + n2.y * r.y + n2.z * r.z))
        by (nonlinear_arith)
        requires
            rr.x == -r.x && rr.y == -r.y && rr.z == -r.z,
    ;
    assert(crate::vec3::g_dot(rr, rr) == crate::vec3::g_dot(r, r));
    assert(crate::vec3::g_dot(n1, rr) == -crate::vec3::g_dot(n1, r));
    assert(crate::vec3::g_dot(n2, rr) == -crate::vec3::g_dot(n2, r));
    crate::fx::lemma_tdiv_neg(crate::vec3::g_dot(n1, r), crate::fx::FX_ONE_W as int);
    crate::fx::lemma_tdiv_neg(crate::vec3::g_dot(n2, r), crate::fx::FX_ONE_W as int);
    let t1 = tdiv(crate::vec3::g_dot(n1, r), crate::fx::FX_ONE_W as int);
    let t2 = tdiv(-crate::vec3::g_dot(n2, r), crate::fx::FX_ONE_W as int);
    assert(t1 * t2 == t2 * t1) by (nonlinear_arith);
}

/// The summand at node pair `(i1, i2)` of the ordered pair.
pub open spec fn spec_term_at(q1: crate::geom::GQuad, q2: crate::geom::GQuad, i1: int, i2: int) -> int {
    crate::quadrature::g_sample_term(q1, q2, i1 * 100 + i2)
}

/// A summand is symmetric under swapping the pair together with its
/// node indices.
pub proof fn lemma_term_symmetric(q1: crate::geom::GQuad, q2: crate::geom::GQuad, i1: int, i2: int)
    requires
        0 <= i1 < 100,
        0 <= i2 < 100,
    ensures
        spec_term_at(q1, q2, i1, i2) == spec_term_at(q2, q1, i2, i1),
{
    vstd::arithmetic::div_mod::lemma_fundamental_div_mod_converse(i1 * 100 + i2, 100, i1, i2);
    vstd::arithmetic::div_mod::lemma_fundamental_div_mod_converse(i2 * 100 + i1, 100, i2, i1);
    lemma_kernel_symmetric(
        crate::geom::g_bilerp(q1, crate::quadrature::spec_node(i1 / 10), crate::quadrature::spec_node(i1 % 10)),
        crate::geom::g_patch_normal(q1, crate::quadrature::spec_node(i1 / 10), crate::quadrature::spec_node(i1 % 10)),
        crate::geom::g_bilerp(q2, crate::quadrature::spec_node(i2 / 10), crate::quadrature::spec_node(i2 % 10)),
        crate::geom::g_patch_normal(q2, crate::quadrature::spec_node(i2 / 10), crate::quadrature::spec_node(i2 % 10)),
    );
    let w1 = tdiv(
        crate::quadrature::spec_weight(i1 / 10) * crate::quadrature::spec_weight(i1 % 10),
        crate::quadrature::W_SCALE as int,
    );
    let w2 = tdiv(
        crate::quadrature::spec_weight(i2 / 10) * crate::quadrature::spec_weight(i2 % 10),
        crate::quadrature::W_SCALE as int,
    );
    assert(w1 * w2 == w2 * w1) by (nonlinear_arith);
}

/// The sum of the first `c` summands of node row `i1`.
pub open spec fn spec_term_row(q1: crate::geom::GQuad, q2: crate::geom::GQuad, i1: int, c: int) -> int
    decreases c,
{
    if c <= 0 {
        0
    } else {
        spec_term_row(q1, q2, i1, c - 1) + spec_term_at(q1, q2, i1, c - 1)
    }
}

/// The sum of the first `r` node rows.
pub open spec fn spec_term_grid(q1: crate::geom::GQuad, q2: crate::geom::GQuad, r: int) -> int
    decreases r,
{
    if r <= 0 {
        0
    } else {
        spec_term_grid(q1, q2, r - 1) + spec_term_row(q1, q2, r - 1, 100)
    }
}

/// The flat Gauss accumulation equals the row-by-row grid sum.
proof fn lemma_accum_is_grid(q1: crate::geom::GQuad, q2: crate::geom::GQuad, m: int)
    requires
        0 <= m <= 10000,
    ensures
        crate::quadrature::g_accum(q1, q2, m) == spec_term_grid(q1, q2, m / 100) + spec_term_row(
            q1,
            q2,
            m / 100,
            m % 100,
        ),
    decreases m,
{
    if m == 0 {
    } else {
        lemma_accum_is_grid(q1, q2, m - 1);
        vstd::arithmetic::div_mod::lemma_fundamental_div_mod(m - 1, 100);
        vstd::arithmetic::div_mod::lemma_fundamental_div_mod(m, 100);
        let i1 = (m - 1) / 100;
        let i2 = (m - 1) % 100;
        vstd::arithmetic::div_mod::lemma_fundamental_div_mod_converse(m - 1, 100, i1, i2);
        assert(crate::quadrature::g_sample_term(q1, q2, m - 1) == spec_term_at(q1, q2, i1, i2));
        if i2 == 99 {
            vstd::arithmetic::div_mod::lemma_fundamental_div_mod_converse(m, 100, i1 + 1, 0);
        } else {
            vstd::arithmetic::div_mod::lemma_fundamental_div_mod_converse(m, 100, i1, i2 + 1);
        }
    }
}

/// One transposed row: the sum over the first `r` rows of the
/// summands in column `i2`.
pub open spec fn spec_term_col(q1: crate::geom::GQuad, q2: crate::geom::GQuad, i2: int, r: int) -> int
    decreases r,
{
    if r <= 0 {
        0
    } else {
        spec_term_col(q1, q2, i2, r - 1) + spec_term_at(q1, q2, r - 1, i2)
    }
}

/// Exchanging the order of a double sum: the first `r` rows of `c`
/// columns equal the first `c` columns of `r` rows.
proof fn lemma_grid_transpose(q1: crate::geom::GQuad, q2: crate::geom::GQuad, r: int, c: int)
    requires
        r >= 0,
        c >= 0,
    ensures
        spec_grid_to(q1, q2, r, c) == spec_grid_cols(q1, q2, c, r),
    decreases r,
{
    if r > 0 {
        lemma_grid_transpose(q1, q2, r - 1, c);
        lemma_cols_peel(q1, q2, c, r);
    } else {
        lemma_cols_empty(q1, q2, c);
    }
}

/// Every column of zero rows sums to nothing.
proof fn lemma_cols_empty(q1: crate::geom::GQuad, q2: crate::geom::GQuad, c: int)
    requires
        c >= 0,
    ensures
        spec_grid_cols(q1, q2, c, 0) == 0,
    decreases c,
{
    if c > 0 {
        lemma_cols_empty(q1, q2, c - 1);
    }
}

/// The first `r` rows, each over `c` columns.
pub open spec fn spec_grid_to(q1: crate::geom::GQuad, q2: crate::geom::GQuad, r: int, c: int) -> int
    decreases r,
{
    if r <= 0 {
        0
    } else {
        spec_grid_to(q1, q2, r - 1, c) + spec_term_row(q1, q2, r - 1, c)
    }
}

/// The first `c` columns, each over `r` rows.
pub open spec fn spec_grid_cols(q1: crate::geom::GQuad, q2: crate::geom::GQuad, c: int, r: int) -> int
    decreases c,
{
    if c <= 0 {
        0
    } else {
        spec_grid_cols(q1, q2, c - 1, r) + spec_term_col(q1, q2, c - 1, r)
    }
}

/// Peeling the last row off every column sums that row.
proof fn lemma_cols_peel(q1: crate::geom::GQuad, q2: crate::geom::GQuad, c: int, r: int)
    requires
        c >= 0,
        r >= 1,
    ensures
        spec_grid_cols(q1, q2, c, r) == spec_grid_cols(q1, q2, c, r - 1) + spec_term_row(
            q1,
            q2,
            r - 1,
            c,
        ),
    decreases c,
{
    if c > 0 {
        lemma_cols_peel(q1, q2, c - 1, r);
    }
}

/// Column sums of the pair are row sums of the swapped pair.
proof fn lemma_col_is_swapped_row(q1: crate::geom::GQuad, q2: crate::geom::GQuad, i2: int, r: int)
    requires
        0 <= i2 < 100,
        0 <= r <= 100,
    ensures
        spec_term_col(q1, q2, i2, r) == spec_term_row(q2, q1, i2, r),
    decreases r,
{
    if r > 0 {
        lemma_col_is_swapped_row(q1, q2, i2, r - 1);
        lemma_term_symmetric(q1, q2, r - 1, i2);
    }
}

/// The transposed grid of the pair is the grid of the swapped pair.
proof fn lemma_grid_swap(q1: crate::geom::GQuad, q2: crate::geom::GQuad, c: int)
    requires
        0 <= c <= 100,
    ensures
        spec_grid_cols(q1, q2, c, 100) == spec_grid_to(q2, q1, c, 100),
    decreases c,
{
    if c > 0 {
        lemma_grid_swap(q1, q2, c - 1);
        lemma_col_is_swapped_row(q1, q2, c - 1, 100);
    }
}

/// The two grid notions agree at full size.
proof fn lemma_grid_full(q1: crate::geom::GQuad, q2: crate::geom::GQuad, r: int)
    requires
        0 <= r,
    ensures
        spec_term_grid(q1, q2, r) == spec_grid_to(q1, q2, r, 100),
    decreases r,
{
    if r > 0 {
        lemma_grid_full(q1, q2, r - 1);
    }
}

/// Law (evaluator symmetry): the unobstructed mutual exchange of a
/// pair of patches does not depend on their order, bit for bit — the
/// analytic reciprocity `area1 * F(1->2) = area2 * F(2->1)` of the
/// contour-free quadrature holds exactly in this arithmetic, so
/// reflecting which of two surfaces comes first leaves the computed
/// exchange identical.
pub proof fn lemma_exchange_symmetric(q1: crate::geom::GQuad, q2: crate::geom::GQuad)
    ensures
        crate::quadrature::spec_eval_exchange(q1, q2) == crate::quadrature::spec_eval_exchange(
            q2,
            q1,
        ),
{
    reveal(crate::quadrature::spec_eval_exchange);
    lemma_accum_is_grid(q1, q2, 10000);
    lemma_accum_is_grid(q2, q1, 10000);
    lemma_grid_full(q1, q2, 100);
    lemma_grid_full(q2, q1, 100);
    lemma_grid_transpose(q1, q2, 100, 100);
    lemma_grid_swap(q1, q2, 100);
    assert(crate::quadrature::g_accum(q1, q2, 10000) == crate::quadrature::g_accum(
        q2,
        q1,
        10000,
    ));
}

/// With every radiating surface reported (no aggregation), no
/// enclosure scaling and no selective range, the reported matrix is
/// the reciprocity-averaged one.
pub proof fn lemma_final_is_recip(data: InData)
    requires
        spec_data_valid(data),
        data.opts.row == 0,
        data.opts.col == 0,
        !data.opts.enclosure,
        crate::engine::spec_kept(data).len() == data.n_rad_srf,
    ensures
        crate::engine::spec_final_matrix(data) == spec_recip_matrix(data),
{
}

/// Law (reciprocity of the reported matrix): where the engine reports
/// every surface unscaled — no aggregation, no enclosure option, full
/// matrix — the reported factors themselves satisfy reciprocity to
/// within one truncation step of each area, under the same
/// saturation guard as the averaging pass.
pub proof fn lemma_reciprocity_reported(data: InData, i: int, j: int)
    requires
        spec_data_valid(data),
        data.opts.row == 0,
        data.opts.col == 0,
        !data.opts.enclosure,
        crate::engine::spec_kept(data).len() == data.n_rad_srf,
        0 <= i < data.n_rad_srf,
        0 <= j < data.n_rad_srf,
        i != j,
        spec_avg_exchange(data, i, j) <= (F_SAT as int) * spec_surf_area(data, i),
        spec_avg_exchange(data, i, j) <= (F_SAT as int) * spec_surf_area(data, j),
    ensures
        ({
            let n = data.n_rad_srf as int;
            let mf = crate::engine::spec_final_matrix(data);
            let ai = spec_surf_area(data, i);
            let aj = spec_surf_area(data, j);
            -(ai + aj) < ai * mf[i * n + j] - aj * mf[j * n + i] < ai + aj
        }),
{
    lemma_final_is_recip(data);
    lemma_reciprocity(data, i, j);
}

/// Law (hard zero for a fully obstructed pair): when the resolver
/// finds every sampled line of sight of a pair cut, in both
/// directions, and no aggregation folds other surfaces into the two,
/// the reported factors of that pair are exactly zero — the blocked
/// verdict short-circuits integration, and averaging, scaling and
/// lookup all preserve the zero.
pub proof fn lemma_blocked_pair_zero(data: InData, i: int, j: int)
    requires
        spec_data_valid(data),
        data.opts.row == 0,
        data.opts.col == 0,
        crate::engine::spec_kept(data).len() == data.n_rad_srf,
        0 <= i < data.n_rad_srf,
        0 <= j < data.n_rad_srf,
        i != j,
        crate::visibility::spec_classify(
            crate::geom::gq(crate::catalog::spec_surf_quad(data, i)),
            crate::geom::gq(crate::catalog::spec_surf_quad(data, j)),
            crate::engine::spec_pair_obs(data, i, j),
        ) == crate::visibility::VisClass::Blocked,
        crate::visibility::spec_classify(
            crate::geom::gq(crate::catalog::spec_surf_quad(data, j)),
            crate::geom::gq(crate::catalog::spec_surf_quad(data, i)),
            crate::engine::spec_pair_obs(data, j, i),
        ) == crate::visibility::VisClass::Blocked,
    ensures
        crate::engine::spec_final_matrix(data)[i * (data.n_rad_srf as int) + j] == 0,
        crate::engine::spec_final_matrix(data)[j * (data.n_rad_srf as int) + i] == 0,
{
    let n = data.n_rad_srf as int;
    let m = spec_raw_matrix(data);
    lemma_in_matrix(data, i, j);
    lemma_in_matrix(data, j, i);
    lemma_area_pos(data, i);
    lemma_area_pos(data, j);
    let ai = spec_surf_area(data, i);
    let aj = spec_surf_area(data, j);
    assert(spec_node_value(data, i, j) == 0 && spec_node_value(data, j, i) == 0) by {
        reveal_with_fuel(crate::subdivide::spec_node_exchange, 1);
    };
    assert(0int / ai == 0 && 0int / aj == 0) by (nonlinear_arith)
        requires
            ai > 0,
            aj > 0,
    ;
    assert(crate::engine::spec_raw_entry(data, i, j).0 == 0);
    assert(crate::engine::spec_raw_entry(data, j, i).0 == 0);
    assert(m[i * n + j] == 0 && m[j * n + i] == 0);
    let mr = spec_recip_matrix(data);
    assert(spec_recip_entry(data, m, i, j) == 0 && spec_recip_entry(data, m, j, i) == 0);
    assert(mr[i * n + j] == 0 && mr[j * n + i] == 0);
    let me = spec_encl_matrix(data);
    if data.opts.enclosure {
        let si = spec_row_sum(data, mr, i, n);
        let sj = spec_row_sum(data, mr, j, n);
        if si > 0 {
            assert(0int / si == 0) by (nonlinear_arith)
                requires
                    si > 0,
            ;
        }
        if sj > 0 {
            assert(0int / sj == 0) by (nonlinear_arith)
                requires
                    sj > 0,
            ;
        }
        assert(me[i * n + j] == crate::engine::spec_encl_entry(data, mr, i, j) as i64);
        assert(me[j * n + i] == crate::engine::spec_encl_entry(data, mr, j, i) as i64);
        assert(me[i * n + j] == 0 && me[j * n + i] == 0);
    }
}

/// The obstruction set of a pair does not depend on the order of the
/// pair: the exclusion of the pair's own surfaces is symmetric.
proof fn lemma_obs_symmetric(data: InData, i: int, j: int, k: int)
    requires
        k >= 0,
    ensures
        crate::engine::spec_obs_upto(data, i, j, k) == crate::engine::spec_obs_upto(
            data,
            j,
            i,
            k,
        ),
    decreases k,
{
    if k > 0 {
        lemma_obs_symmetric(data, i, j, k - 1);
    }
}

/// Two catalogs whose surfaces outside `{i, j}` agree in role and
/// patch give the pair `(i, j)` the same obstruction set.
proof fn lemma_obs_agree(d1: InData, d2: InData, i: int, j: int, k: int)
    requires
        0 <= k <= d1.surfaces.len(),
        d1.surfaces.len() == d2.surfaces.len(),
        forall|m: int|
            0 <= m < d1.surfaces.len() && m != i && m != j ==> #[trigger] d2.surfaces[m].type_
                == d1.surfaces[m].type_ && crate::catalog::spec_surf_quad(d2, m)
                == crate::catalog::spec_surf_quad(d1, m),
    ensures
        crate::engine::spec_obs_upto(d2, i, j, k) == crate::engine::spec_obs_upto(d1, i, j, k),
    decreases k,
{
    if k > 0 {
        lemma_obs_agree(d1, d2, i, j, k - 1);
    }
}

/// Law (reflection inside a catalog): two catalogs identical but for
/// surfaces `i` and `j` trading patches — with no aggregation, no
/// enclosure scaling and the full matrix computed — report the
/// transposed entries for the reflected pair, bit for bit:
/// `F'(i,j) == F(j,i)` and `F'(j,i) == F(i,j)`.
pub proof fn lemma_swap_in_catalog(d1: InData, d2: InData, i: int, j: int)
    requires
        spec_data_valid(d1),
        spec_data_valid(d2),
        d1.n_rad_srf == d2.n_rad_srf,
        d1.surfaces.len() == d2.surfaces.len(),
        d1.opts.row == 0 && d1.opts.col == 0 && !d1.opts.enclosure,
        d2.opts.row == 0 && d2.opts.col == 0 && !d2.opts.enclosure,
        d1.opts.min_recursion == d2.opts.min_recursion,
        d1.opts.max_recursion == d2.opts.max_recursion,
        d1.opts.eps_adap == d2.opts.eps_adap,
        crate::engine::spec_kept(d1).len() == d1.n_rad_srf,
        crate::engine::spec_kept(d2).len() == d2.n_rad_srf,
        0 <= i < d1.n_rad_srf,
        0 <= j < d1.n_rad_srf,
        i != j,
        crate::catalog::spec_surf_quad(d2, i) == crate::catalog::spec_surf_quad(d1, j),
        crate::catalog::spec_surf_quad(d2, j) == crate::catalog::spec_surf_quad(d1, i),
        forall|m: int|
            0 <= m < d1.surfaces.len() && m != i && m != j ==> #[trigger] d2.surfaces[m].type_
                == d1.surfaces[m].type_ && crate::catalog::spec_surf_quad(d2, m)
                == crate::catalog::spec_surf_quad(d1, m),
    ensures
        ({
            let n = d1.n_rad_srf as int;
            let mf1 = crate::engine::spec_final_matrix(d1);
            let mf2 = crate::engine::spec_final_matrix(d2);
            mf2[i * n + j] == mf1[j * n + i] && mf2[j * n + i] == mf1[i * n + j]
        }),
{
    let n = d1.n_rad_srf as int;
    let na = d1.surfaces.len() as int;
    lemma_obs_agree(d1, d2, i, j, na);
    lemma_obs_symmetric(d1, i, j, na);
    assert(crate::engine::spec_pair_obs(d2, i, j) == crate::engine::spec_pair_obs(d1, j, i));
    lemma_obs_agree(d1, d2, j, i, na);
    lemma_obs_symmetric(d1, j, i, na);
    assert(crate::engine::spec_pair_obs(d2, j, i) == crate::engine::spec_pair_obs(d1, i, j));
    assert(spec_surf_area(d2, i) == spec_surf_area(d1, j));
    assert(spec_surf_area(d2, j) == spec_surf_area(d1, i));
    assert(crate::engine::spec_raw_entry(d2, i, j) == crate::engine::spec_raw_entry(d1, j, i));
    assert(crate::engine::spec_raw_entry(d2, j, i) == crate::engine::spec_raw_entry(d1, i, j));
    lemma_raw_in_range(d1, i, j);
    lemma_raw_in_range(d1, j, i);
    lemma_raw_in_range(d2, i, j);
    lemma_raw_in_range(d2, j, i);
    let m1 = spec_raw_matrix(d1);
    let m2 = spec_raw_matrix(d2);
    assert(m2[i * n + j] == m1[j * n + i] && m2[j * n + i] == m1[i * n + j]);
    lemma_recip_in_range(d1, i, j);
    lemma_recip_in_range(d1, j, i);
    lemma_recip_in_range(d2, i, j);
    lemma_recip_in_range(d2, j, i);
    assert(spec_recip_entry(d2, m2, i, j) == spec_recip_entry(d1, m1, j, i));
    assert(spec_recip_entry(d2, m2, j, i) == spec_recip_entry(d1, m1, i, j));
    lemma_final_is_recip(d1);
    lemma_final_is_recip(d2);
}

} // verus!
