//! The view-factor engine: the full pipeline from a validated catalog
//! to the reported matrix.
//!
//! For every ordered pair of radiating surfaces the resolver,
//! evaluator and subdivision controller produce a raw view factor;
//! the normalizer then averages reciprocal pairs, rescales rows for
//! closed enclosures, and folds subsurfaces into their aggregation
//! targets. Every stage is a pure function of the input, stated
//! exactly by the `spec_` mirrors here, so re-running the engine on
//! the same catalog and options yields the same bits.

use vstd::prelude::*;

verus! {

use crate::catalog::InData;
use crate::catalog::VFWarning;
use crate::catalog::ViewError;
use crate::catalog::spec_config_valid;
use crate::catalog::spec_counts_valid;
use crate::catalog::spec_data_valid;
use crate::catalog::spec_geometry_valid;
use crate::catalog::spec_surf_geom_valid;
use crate::catalog::spec_surf_quad;
use crate::catalog::spec_surf_shape_valid;
use crate::catalog::spec_vertices_valid;
use crate::catalog::surf_quad;
use crate::fx::FX_ONE;
use crate::fx::FX_ONE_W;
use crate::fx::lemma_tdiv_bound;
use crate::fx::lemma_tdiv_ordered;
use crate::fx::tdiv;
use crate::fx::tdiv128;
use crate::geom::Quad;
use crate::geom::COORD_LIM;
use crate::geom::gq;
use crate::geom::quad_bounded;
use crate::geom::spec_area;
use crate::quadrature::EXCHANGE_SAT;
use crate::subdivide::spec_node_exchange;

/// Upper clamp for one reported view factor: one, at 32 fractional
/// bits. A view factor is a fraction of emitted energy, so one is its
/// physical maximum; quadrature overshoot beyond it (possible only
/// for touching, ill-resolved geometry) is clamped rather than
/// reported.
pub const F_SAT: i64 = 0x1_0000_0000;

/// The computed results: the row-major matrix of view factors over
/// the reported surfaces, their areas and emissivities, the enclosure
/// flag echoed, and the non-fatal diagnostics gathered along the way.
/// All scalars carry 32 fractional bits.
#[derive(Clone, Debug)]
pub struct VFResults {
    /// Number of reported surfaces (radiating surfaces that were not
    /// folded into an aggregation target).
    pub n_surfs: u32,
    /// Whether enclosure normalization was applied.
    pub encl: bool,
    /// Area of each reported surface, aggregated subsurfaces included.
    pub areas: Vec<i64>,
    /// Emissivity of each reported surface.
    pub emit: Vec<i64>,
    /// The row-major `n_surfs * n_surfs` view-factor matrix.
    pub values: Vec<i64>,
    /// Non-fatal diagnostics: precision and enclosure warnings.
    pub warnings: Vec<VFWarning>,
}

impl VFResults {
    /// The view factor from surface `a` to surface `b`, one-based. An
    /// out-of-range pair yields an absent value — a caller
    /// convenience, not an error.
    pub fn vf(&self, a: usize, b: usize) -> (r: Option<i64>)
        ensures
            r == (if 1 <= a && a <= self.n_surfs && 1 <= b && b <= self.n_surfs && (a - 1)
                * self.n_surfs + (b - 1) < self.values.len() {
                Some(self.values[(a - 1) * self.n_surfs + (b - 1)])
            } else {
                None::<i64>
            }),
    {
        if a < 1 || b < 1 || a > self.n_surfs as usize || b > self.n_surfs as usize {
            return None;
        }
        proof {
            assert((a - 1) * (self.n_surfs as int) <= 0xffff_ffff * 0xffff_ffff)
                by (nonlinear_arith)
                requires
                    0 <= a - 1 <= 0xffff_ffff,
                    0 <= self.n_surfs <= 0xffff_ffff,
            ;
        }
        let index: u64 = (a as u64 - 1) * (self.n_surfs as u64) + (b as u64 - 1);
        if index < self.values.len() as u64 {
            Some(self.values[index as usize])
        } else {
            None
        }
    }
}

/// The area of surface `i`.
pub open spec fn spec_surf_area(data: InData, i: int) -> int {
    spec_area(gq(spec_surf_quad(data, i)))
}

/// The obstruction set seen by the pair `(i, j)` (zero-based): the
/// patches of the first `k` surfaces whose role includes obstruction,
/// the pair's own surfaces excluded.
pub open spec fn spec_obs_upto(data: InData, i: int, j: int, k: int) -> Seq<Quad>
    decreases k,
{
    if k <= 0 {
        Seq::empty()
    } else {
        let rest = spec_obs_upto(data, i, j, k - 1);
        let t = data.surfaces[k - 1].type_;
        if (t == 1 || t == 2) && k - 1 != i && k - 1 != j {
            rest.push(spec_surf_quad(data, k - 1))
        } else {
            rest
        }
    }
}

/// The obstruction set seen by the pair `(i, j)`.
pub open spec fn spec_pair_obs(data: InData, i: int, j: int) -> Seq<Quad> {
    spec_obs_upto(data, i, j, data.surfaces.len() as int)
}

/// Whether the selective row/column options ask for entry `(i, j)`
/// (zero-based).
pub open spec fn spec_selected(data: InData, i: int, j: int) -> bool {
    &&& (data.opts.row == 0 || i + 1 == data.opts.row)
    &&& (data.opts.col == 0 || j + 1 == data.opts.col)
}

/// Saturate a view factor.
pub open spec fn spec_sat_f(v: int) -> int {
    if v > F_SAT {
        F_SAT as int
    } else {
        v
    }
}

/// The raw matrix entry `(i, j)` (zero-based) and its precision flag:
/// zero on the diagonal and outside the selected range, else the
/// pair's exchange divided by the emitting surface's area.
pub open spec fn spec_raw_entry(data: InData, i: int, j: int) -> (int, bool) {
    if i == j || !spec_selected(data, i, j) {
        (0, false)
    } else {
        let e = spec_node_exchange(
            gq(spec_surf_quad(data, i)),
            gq(spec_surf_quad(data, j)),
            spec_pair_obs(data, i, j),
            0,
            data.opts.min_recursion as int,
            data.opts.max_recursion as int,
            data.opts.eps_adap as int,
        );
        (spec_sat_f(tdiv(e.0 * (FX_ONE as int), spec_surf_area(data, i))), e.1)
    }
}

/// The raw matrix, row-major over the radiating surfaces.
pub open spec fn spec_raw_matrix(data: InData) -> Seq<i64> {
    let n = data.n_rad_srf as int;
    Seq::new((n * n) as nat, |k: int| spec_raw_entry(data, k / n, k % n).0 as i64)
}

/// The precision warnings gathered over the first `m` entries, in
/// row-major order.
pub open spec fn spec_prec_warns_upto(data: InData, m: int) -> Seq<VFWarning>
    decreases m,
{
    let n = data.n_rad_srf as int;
    if m <= 0 {
        Seq::empty()
    } else {
        let rest = spec_prec_warns_upto(data, m - 1);
        if spec_raw_entry(data, (m - 1) / n, (m - 1) % n).1 {
            rest.push(
                VFWarning::PrecisionWarning((((m - 1) / n) + 1) as i32, (((m - 1) % n) + 1) as i32),
            )
        } else {
            rest
        }
    }
}

/// Build the obstruction list seen by the pair `(i, j)`.
#[verifier::loop_isolation(false)]
fn pair_obs(data: &InData, i: usize, j: usize) -> (r: Vec<Quad>)
    requires
        spec_counts_valid(*data),
        spec_vertices_valid(*data),
        forall|k: int| 0 <= k < data.surfaces.len() ==> #[trigger] spec_surf_shape_valid(*data, k),
    ensures
        r@ == spec_pair_obs(*data, i as int, j as int),
        forall|k: int| 0 <= k < r.len() ==> quad_bounded(#[trigger] r[k], COORD_LIM as int),
{
    let mut obs: Vec<Quad> = Vec::new();
    let mut k: usize = 0;
    while k < data.surfaces.len()
        invariant
            k <= data.surfaces.len(),
            obs@ == spec_obs_upto(*data, i as int, j as int, k as int),
            forall|m: int| 0 <= m < obs.len() ==> quad_bounded(#[trigger] obs[m], COORD_LIM as int),
        decreases data.surfaces.len() - k,
    {
        let t = data.surfaces[k].type_;
        if (t == 1 || t == 2) && k != i && k != j {
            let q = surf_quad(data, k);
            obs.push(q);
        }
        k = k + 1;
    }
    obs
}

/// Compute one raw entry.
#[verifier::rlimit(100)]
fn raw_entry(data: &InData, i: usize, j: usize) -> (r: (i64, bool))
    requires
        spec_data_valid(*data),
        i < data.n_rad_srf,
        j < data.n_rad_srf,
    ensures
        r.0 == spec_raw_entry(*data, i as int, j as int).0 as i64,
        r.1 == spec_raw_entry(*data, i as int, j as int).1,
        0 <= r.0 <= F_SAT,
{
    let sel = (data.opts.row == 0 || i as i32 + 1 == data.opts.row) && (data.opts.col == 0
        || j as i32 + 1 == data.opts.col);
    if i == j || !sel {
        (0, false)
    } else {
        let qi = surf_quad(data, i);
        let qj = surf_quad(data, j);
        let obs = pair_obs(data, i, j);
        let (_ni, ai) = crate::geom::normal_and_area(&qi);
        proof {
            assert(spec_surf_geom_valid(*data, i as int));
        }
        let e = crate::subdivide::node_exchange(
            &qi,
            &qj,
            &obs,
            0,
            data.opts.min_recursion,
            data.opts.max_recursion,
            data.opts.eps_adap,
        );
        proof {
            assert(0 <= (e.0 as int) * (FX_ONE as int) <= 0x4_0000_0000_0000_0000_0000_0000)
                by (nonlinear_arith)
                requires
                    0 <= e.0 <= EXCHANGE_SAT,
                    EXCHANGE_SAT == 0x4_0000_0000_0000,
                    FX_ONE == 0x1_0000_0000,
            ;
            lemma_tdiv_ordered(0, (e.0 as int) * (FX_ONE as int), ai as int);
        }
        let f: i128 = tdiv128((e.0 as i128) * FX_ONE_W, ai as i128);
        let fv: i64 = if f > F_SAT as i128 {
            F_SAT
        } else {
            f as i64
        };
        (fv, e.1)
    }
}

/// Compute the raw matrix and the precision warnings.
#[verifier::rlimit(100)]
#[verifier::loop_isolation(false)]
fn raw_matrix(data: &InData) -> (r: (Vec<i64>, Vec<VFWarning>))
    requires
        spec_data_valid(*data),
    ensures
        r.0@ == spec_raw_matrix(*data),
        r.1@ == spec_prec_warns_upto(
            *data,
            (data.n_rad_srf as int) * (data.n_rad_srf as int),
        ),
        r.0.len() == (data.n_rad_srf as int) * (data.n_rad_srf as int),
        forall|k: int| 0 <= k < r.0.len() ==> 0 <= #[trigger] r.0@[k] <= F_SAT,
{
    let n: usize = data.n_rad_srf as usize;
    let mut vals: Vec<i64> = Vec::new();
    let mut warns: Vec<VFWarning> = Vec::new();
    let mut k: usize = 0;
    proof {
        assert(spec_counts_valid(*data));
        assert(n <= 256);
        assert(n * n == (data.n_rad_srf as int) * (data.n_rad_srf as int) && n * n <= 65536)
            by (nonlinear_arith)
            requires
                n == data.n_rad_srf,
                0 < data.n_rad_srf <= 256,
        ;
    }
    while k < n * n
        invariant
            k <= n * n,
            vals.len() == k,
            forall|m: int|
                0 <= m < k ==> #[trigger] vals@[m] == spec_raw_entry(
                    *data,
                    m / (n as int),
                    m % (n as int),
                ).0 as i64 && 0 <= vals@[m] <= F_SAT,
            warns@ == spec_prec_warns_upto(*data, k as int),
        decreases n * n - k,
    {
        let i: usize = k / n;
        let j: usize = k % n;
        proof {
            assert(i < n) by (nonlinear_arith)
                requires
                    k < n * n,
                    i == k / n,
                    n > 0,
            ;
        }
        let e = raw_entry(data, i, j);
        vals.push(e.0);
        if e.1 {
            warns.push(VFWarning::PrecisionWarning(i as i32 + 1, j as i32 + 1));
        }
        k = k + 1;
    }
    proof {
        assert(vals@ =~= spec_raw_matrix(*data));
    }
    (vals, warns)
}

/// The reciprocity-averaged entry `(i, j)`: both directions replaced
/// by the averaged mutual exchange divided back by each area, so that
/// numerical error is spread symmetrically.
pub open spec fn spec_recip_entry(data: InData, m: Seq<i64>, i: int, j: int) -> int {
    let n = data.n_rad_srf as int;
    if i == j {
        m[i * n + j] as int
    } else {
        let ai = spec_surf_area(data, i);
        let aj = spec_surf_area(data, j);
        let e = tdiv(ai * m[i * n + j] + aj * m[j * n + i], 2);
        spec_sat_f(tdiv(e, ai))
    }
}

/// The matrix after the reciprocity pass; the pass is skipped when a
/// selective row or column restricts the computation.
pub open spec fn spec_recip_matrix(data: InData) -> Seq<i64> {
    let m = spec_raw_matrix(data);
    let n = data.n_rad_srf as int;
    if data.opts.row != 0 || data.opts.col != 0 {
        m
    } else {
        Seq::new((n * n) as nat, |k: int| spec_recip_entry(data, m, k / n, k % n) as i64)
    }
}

/// Apply the reciprocity pass.
#[verifier::loop_isolation(false)]
fn recip_matrix(data: &InData, vals: Vec<i64>) -> (r: Vec<i64>)
    requires
        spec_data_valid(*data),
        vals@ == spec_raw_matrix(*data),
        vals.len() == (data.n_rad_srf as int) * (data.n_rad_srf as int),
        forall|k: int| 0 <= k < vals.len() ==> 0 <= #[trigger] vals@[k] <= F_SAT,
    ensures
        r@ == spec_recip_matrix(*data),
        r.len() == (data.n_rad_srf as int) * (data.n_rad_srf as int),
        forall|k: int| 0 <= k < r.len() ==> 0 <= #[trigger] r@[k] <= F_SAT,
{
    if data.opts.row != 0 || data.opts.col != 0 {
        return vals;
    }
    let n: usize = data.n_rad_srf as usize;
    proof {
        assert(n * n == (data.n_rad_srf as int) * (data.n_rad_srf as int)) by (nonlinear_arith)
            requires
                n == data.n_rad_srf,
                0 < data.n_rad_srf <= 256,
        ;
    }
    let mut out: Vec<i64> = Vec::new();
    let mut k: usize = 0;
    while k < n * n
        invariant
            k <= n * n,
            out.len() == k,
            forall|m: int|
                0 <= m < k ==> #[trigger] out@[m] == spec_recip_entry(
                    *data,
                    vals@,
                    m / (n as int),
                    m % (n as int),
                ) as i64 && 0 <= out@[m] <= F_SAT,
        decreases n * n - k,
    {
        let i: usize = k / n;
        let j: usize = k % n;
        proof {
            assert(i < n) by (nonlinear_arith)
                requires
                    k < n * n,
                    i == k / n,
                    n > 0,
            ;
            assert(0 <= (i as int) * (n as int) + (j as int) < (n as int) * (n as int))
                by (nonlinear_arith)
                requires
                    i < n,
                    j < n,
            ;
            assert(0 <= (j as int) * (n as int) + (i as int) < (n as int) * (n as int))
                by (nonlinear_arith)
                requires
                    i < n,
                    j < n,
            ;
        }
        if i == j {
            out.push(vals[k]);
            proof {
                assert(k as int == (i as int) * (n as int) + (j as int)) by (nonlinear_arith)
                    requires
                        i == k / n,
                        j == k % n,
                        n > 0,
                        k < n * n,
                ;
            }
        } else {
            let qi = surf_quad(data, i);
            let qj = surf_quad(data, j);
            let (_ni, ai) = crate::geom::normal_and_area(&qi);
            let (_nj, aj) = crate::geom::normal_and_area(&qj);
            proof {
                assert(spec_surf_geom_valid(*data, i as int));
                assert(spec_surf_geom_valid(*data, j as int));
            }
            let fij: i64 = vals[i * n + j];
            let fji: i64 = vals[j * n + i];
            proof {
                assert(0 <= (ai as int) * (fij as int) <= 0x4_0000_0000_0000_0000_0000)
                    by (nonlinear_arith)
                    requires
                        0 <= ai < 0x1_0000_0000_0000,
                        0 <= fij <= F_SAT,
                        F_SAT == 0x1_0000_0000,
                ;
                assert(0 <= (aj as int) * (fji as int) <= 0x4_0000_0000_0000_0000_0000)
                    by (nonlinear_arith)
                    requires
                        0 <= aj < 0x1_0000_0000_0000,
                        0 <= fji <= F_SAT,
                        F_SAT == 0x1_0000_0000,
                ;
            }
            let ex: i128 = tdiv128(
                (ai as i128) * (fij as i128) + (aj as i128) * (fji as i128),
                2,
            );
            proof {
                lemma_tdiv_ordered(
                    0,
                    (ai as int) * (fij as int) + (aj as int) * (fji as int),
                    2,
                );
                lemma_tdiv_ordered(0, ex as int, ai as int);
            }
            let f: i128 = tdiv128(ex, ai as i128);
            let fv: i64 = if f > F_SAT as i128 {
                F_SAT
            } else {
                f as i64
            };
            out.push(fv);
            proof {
                assert(k as int == (i as int) * (n as int) + (j as int)) by (nonlinear_arith)
                    requires
                        i == k / n,
                        j == k % n,
                        n > 0,
                        k < n * n,
                ;
                assert(out@[k as int] == spec_recip_entry(*data, vals@, i as int, j as int) as i64);
            }
        }
        k = k + 1;
    }
    proof {
        assert(out@ =~= spec_recip_matrix(*data));
    }
    out
}

/// The sum of the first `c` entries of row `i`.
pub open spec fn spec_row_sum(data: InData, m: Seq<i64>, i: int, c: int) -> int
    decreases c,
{
    let n = data.n_rad_srf as int;
    if c <= 0 {
        0
    } else {
        spec_row_sum(data, m, i, c - 1) + m[i * n + (c - 1)]
    }
}

/// Whether enclosure scaling of row `i` deserves a consistency
/// warning: a non-positive row sum (left unscaled) or one further
/// than half a unit from one.
pub open spec fn spec_encl_warn(data: InData, m: Seq<i64>, i: int) -> bool {
    let s = spec_row_sum(data, m, i, data.n_rad_srf as int);
    s <= 0 || s - FX_ONE > 0x8000_0000 || FX_ONE - s > 0x8000_0000
}

/// The enclosure-normalized entry `(i, j)`: rows already within the
/// configured tolerance of one, and rows with a non-positive sum, are
/// left alone; every other row is scaled to sum to one.
pub open spec fn spec_encl_entry(data: InData, m: Seq<i64>, i: int, j: int) -> int {
    let n = data.n_rad_srf as int;
    let s = spec_row_sum(data, m, i, n);
    if s <= 0 || (s - FX_ONE <= data.opts.eps_adap && FX_ONE - s <= data.opts.eps_adap) {
        m[i * n + j] as int
    } else {
        spec_sat_f(tdiv(m[i * n + j] * (FX_ONE as int), s))
    }
}

/// The matrix after enclosure normalization; applied only when the
/// enclosure option is set and no selective row or column is active.
pub open spec fn spec_encl_matrix(data: InData) -> Seq<i64> {
    let m = spec_recip_matrix(data);
    let n = data.n_rad_srf as int;
    if !data.opts.enclosure || data.opts.row != 0 || data.opts.col != 0 {
        m
    } else {
        Seq::new((n * n) as nat, |k: int| spec_encl_entry(data, m, k / n, k % n) as i64)
    }
}

/// The enclosure warnings over the first `c` rows.
pub open spec fn spec_encl_warns_upto(data: InData, m: Seq<i64>, c: int) -> Seq<VFWarning>
    decreases c,
{
    if c <= 0 {
        Seq::empty()
    } else {
        let rest = spec_encl_warns_upto(data, m, c - 1);
        if spec_encl_warn(data, m, c - 1) {
            rest.push(VFWarning::EnclosureInconsistency(c as i32))
        } else {
            rest
        }
    }
}

/// Compute the sum of row `i`.
#[verifier::loop_isolation(false)]
fn row_sum(data: &InData, vals: &Vec<i64>, i: usize) -> (r: i64)
    requires
        spec_counts_valid(*data),
        vals.len() == (data.n_rad_srf as int) * (data.n_rad_srf as int),
        forall|k: int| 0 <= k < vals.len() ==> 0 <= #[trigger] vals@[k] <= F_SAT,
        i < data.n_rad_srf,
    ensures
        r == spec_row_sum(*data, vals@, i as int, data.n_rad_srf as int),
        0 <= r <= 256 * F_SAT,
{
    let n: usize = data.n_rad_srf as usize;
    let mut total: i64 = 0;
    let mut c: usize = 0;
    proof {
        assert((i as int) * (n as int) + (n as int) <= (n as int) * (n as int))
            by (nonlinear_arith)
            requires
                i < n,
        ;
    }
    while c < n
        invariant
            c <= n,
            total == spec_row_sum(*data, vals@, i as int, c as int),
            0 <= total <= c * F_SAT,
        decreases n - c,
    {
        proof {
            assert(0 <= (i as int) * (n as int) + (c as int) < vals.len());
        }
        total = total + vals[i * n + c];
        c = c + 1;
    }
    total
}

/// Apply enclosure normalization, appending its warnings.
#[verifier::loop_isolation(false)]
fn encl_matrix(data: &InData, vals: Vec<i64>, warns: &mut Vec<VFWarning>) -> (r: Vec<i64>)
    requires
        spec_data_valid(*data),
        vals@ == spec_recip_matrix(*data),
        vals.len() == (data.n_rad_srf as int) * (data.n_rad_srf as int),
        forall|k: int| 0 <= k < vals.len() ==> 0 <= #[trigger] vals@[k] <= F_SAT,
    ensures
        r@ == spec_encl_matrix(*data),
        r.len() == (data.n_rad_srf as int) * (data.n_rad_srf as int),
        forall|k: int| 0 <= k < r.len() ==> 0 <= #[trigger] r@[k] <= F_SAT,
        final(warns)@ == old(warns)@ + (if data.opts.enclosure && data.opts.row == 0
            && data.opts.col == 0 {
            spec_encl_warns_upto(*data, vals@, data.n_rad_srf as int)
        } else {
            Seq::empty()
        }),
{
    if !data.opts.enclosure || data.opts.row != 0 || data.opts.col != 0 {
        proof {
            assert(warns@ =~= old(warns)@ + Seq::<VFWarning>::empty());
        }
        return vals;
    }
    let n: usize = data.n_rad_srf as usize;
    proof {
        assert(n * n == (data.n_rad_srf as int) * (data.n_rad_srf as int)) by (nonlinear_arith)
            requires
                n == data.n_rad_srf,
                0 < data.n_rad_srf <= 256,
        ;
    }
    let mut i: usize = 0;
    while i < n
        invariant
            i <= n,
            warns@ == old(warns)@ + spec_encl_warns_upto(*data, vals@, i as int),
        decreases n - i,
    {
        let s = row_sum(data, &vals, i);
        if s <= 0 || s - FX_ONE > 0x8000_0000 || FX_ONE - s > 0x8000_0000 {
            warns.push(VFWarning::EnclosureInconsistency(i as i32 + 1));
        }
        i = i + 1;
    }
    let mut out: Vec<i64> = Vec::new();
    let mut k: usize = 0;
    while k < n * n
        invariant
            k <= n * n,
            out.len() == k,
            forall|m: int|
                0 <= m < k ==> #[trigger] out@[m] == spec_encl_entry(
                    *data,
                    vals@,
                    m / (n as int),
                    m % (n as int),
                ) as i64 && 0 <= out@[m] <= F_SAT,
        decreases n * n - k,
    {
        let i2: usize = k / n;
        let j2: usize = k % n;
        proof {
            assert(i2 < n) by (nonlinear_arith)
                requires
                    k < n * n,
                    i2 == k / n,
                    n > 0,
            ;
            assert(k as int == (i2 as int) * (n as int) + (j2 as int)) by (nonlinear_arith)
                requires
                    i2 == k / n,
                    j2 == k % n,
                    n > 0,
                    k < n * n,
            ;
        }
        let s = row_sum(data, &vals, i2);
        if s <= 0 || (s - FX_ONE <= data.opts.eps_adap && FX_ONE - s <= data.opts.eps_adap) {
            out.push(vals[k]);
        } else {
            proof {
                assert(0 <= (vals@[k as int] as int) * (FX_ONE as int)
                    <= 0x4_0000_0000_0000_0000) by (nonlinear_arith)
                    requires
                        0 <= vals@[k as int] <= F_SAT,
                        F_SAT == 0x1_0000_0000,
                        FX_ONE == 0x1_0000_0000,
                ;
                lemma_tdiv_ordered(0, (vals@[k as int] as int) * (FX_ONE as int), s as int);
            }
            let f: i128 = tdiv128((vals[k] as i128) * FX_ONE_W, s as i128);
            let fv: i64 = if f > F_SAT as i128 {
                F_SAT
            } else {
                f as i64
            };
            out.push(fv);
        }
        k = k + 1;
    }
    proof {
        assert(out@ =~= spec_encl_matrix(*data));
    }
    out
}

/// The zero-based aggregation target of surface `i`: itself when it
/// stands alone.
pub open spec fn spec_target0(data: InData, i: int) -> int {
    crate::catalog::spec_target(data.surfaces[i]) - 1
}

/// The kept (reported) surfaces among the first `k` radiating ones:
/// those that are their own target.
pub open spec fn spec_kept_upto(data: InData, k: int) -> Seq<int>
    decreases k,
{
    if k <= 0 {
        Seq::empty()
    } else {
        let rest = spec_kept_upto(data, k - 1);
        if spec_target0(data, k - 1) == k - 1 {
            rest.push(k - 1)
        } else {
            rest
        }
    }
}

/// The kept surfaces.
pub open spec fn spec_kept(data: InData) -> Seq<int> {
    spec_kept_upto(data, data.n_rad_srf as int)
}

/// The aggregated area of target `t`: the areas of the first `c`
/// radiating surfaces folded into it, its own included.
pub open spec fn spec_merged_area(data: InData, t: int, c: int) -> int
    decreases c,
{
    if c <= 0 {
        0
    } else {
        spec_merged_area(data, t, c - 1) + (if spec_target0(data, c - 1) == t {
            spec_surf_area(data, c - 1)
        } else {
            0
        })
    }
}

/// The exchange carried from row `i` into target column `tb`, over
/// the first `c` columns: `area_i * F(i, j)` summed over the group.
pub open spec fn spec_group_row(data: InData, m: Seq<i64>, i: int, tb: int, c: int) -> int
    decreases c,
{
    let n = data.n_rad_srf as int;
    if c <= 0 {
        0
    } else {
        spec_group_row(data, m, i, tb, c - 1) + (if spec_target0(data, c - 1) == tb && c - 1
            != i {
            spec_surf_area(data, i) * m[i * n + (c - 1)]
        } else {
            0
        })
    }
}

/// The mutual exchange between target groups `ta` and `tb`, over the
/// first `c` rows.
pub open spec fn spec_merged_ex(data: InData, m: Seq<i64>, ta: int, tb: int, c: int) -> int
    decreases c,
{
    if c <= 0 {
        0
    } else {
        spec_merged_ex(data, m, ta, tb, c - 1) + (if spec_target0(data, c - 1) == ta {
            spec_group_row(data, m, c - 1, tb, data.n_rad_srf as int)
        } else {
            0
        })
    }
}

/// The reported entry for kept surfaces `ta`, `tb`: the group
/// exchange divided by the aggregated emitting area.
pub open spec fn spec_final_entry(data: InData, m: Seq<i64>, ta: int, tb: int) -> int {
    spec_sat_f(
        tdiv(
            spec_merged_ex(data, m, ta, tb, data.n_rad_srf as int),
            spec_merged_area(data, ta, data.n_rad_srf as int),
        ),
    )
}

/// The reported matrix: unchanged when no surface aggregates, else
/// the group-merged matrix over the kept surfaces.
pub open spec fn spec_final_matrix(data: InData) -> Seq<i64> {
    let m = spec_encl_matrix(data);
    let kept = spec_kept(data);
    let kn = kept.len() as int;
    if kn == data.n_rad_srf as int {
        m
    } else {
        Seq::new(
            (kn * kn) as nat,
            |k: int| spec_final_entry(data, m, kept[k / kn], kept[k % kn]) as i64,
        )
    }
}

/// The reported per-surface areas, subsurfaces folded in.
pub open spec fn spec_final_areas(data: InData) -> Seq<i64> {
    let kept = spec_kept(data);
    Seq::new(
        kept.len(),
        |a: int| spec_merged_area(data, kept[a], data.n_rad_srf as int) as i64,
    )
}

/// The reported per-surface emissivities: each kept surface's own.
pub open spec fn spec_final_emit(data: InData) -> Seq<i64> {
    let kept = spec_kept(data);
    Seq::new(kept.len(), |a: int| data.surfaces[kept[a]].emit)
}

/// All diagnostics of a run, in order: precision warnings over the
/// pairs, then enclosure warnings over the rows.
pub open spec fn spec_warnings(data: InData) -> Seq<VFWarning> {
    let n = data.n_rad_srf as int;
    spec_prec_warns_upto(data, n * n) + (if data.opts.enclosure && data.opts.row == 0
        && data.opts.col == 0 {
        spec_encl_warns_upto(data, spec_recip_matrix(data), n)
    } else {
        Seq::<VFWarning>::empty()
    })
}

/// What the engine promises of a successful run.
pub open spec fn spec_results_ok(data: InData, res: VFResults) -> bool {
    &&& res.n_surfs == spec_kept(data).len()
    &&& res.encl == data.opts.enclosure
    &&& res.values@ == spec_final_matrix(data)
    &&& res.areas@ == spec_final_areas(data)
    &&& res.emit@ == spec_final_emit(data)
    &&& res.warnings@ == spec_warnings(data)
    &&& res.values.len() == res.n_surfs * res.n_surfs
    &&& res.areas.len() == res.n_surfs
    &&& res.emit.len() == res.n_surfs
    &&& 1 <= res.n_surfs <= data.n_rad_srf
    &&& forall|k: int| 0 <= k < res.values.len() ==> 0 <= #[trigger] res.values@[k] <= F_SAT
    &&& (res.n_surfs == data.n_rad_srf ==> forall|i: int|
        0 <= i < res.n_surfs ==> #[trigger] res.values@[i * res.n_surfs + i] == 0)
}

/// With no subsurface aggregation, every diagonal entry of the
/// reported matrix is zero: a planar surface cannot see itself, and
/// neither pass disturbs a zero.
pub proof fn lemma_diagonal_zero(data: InData, i: int)
    requires
        spec_data_valid(data),
        spec_kept(data).len() == data.n_rad_srf,
        0 <= i < data.n_rad_srf,
    ensures
        spec_final_matrix(data)[i * (data.n_rad_srf as int) + i] == 0,
{
    let n = data.n_rad_srf as int;
    let k = i * n + i;
    assert(0 <= i * n + i < n * n) by (nonlinear_arith)
        requires
            0 <= i < n,
    ;
    vstd::arithmetic::div_mod::lemma_fundamental_div_mod_converse(k, n, i, i);
    let m = spec_raw_matrix(data);
    assert(m[k] == 0);
    let mr = spec_recip_matrix(data);
    assert(mr[k] == 0);
    let me = spec_encl_matrix(data);
    if data.opts.enclosure && data.opts.row == 0 && data.opts.col == 0 {
        let s = spec_row_sum(data, mr, i, n);
        if s > 0 {
            crate::fx::lemma_tdiv_ordered(0, 0, s);
        }
        assert(me[k] == spec_encl_entry(data, mr, i, i) as i64);
        assert(me[k] == 0);
    }
}

/// Membership in the kept list.
pub proof fn lemma_kept_mem(data: InData, k: int)
    requires
        k >= 0,
    ensures
        forall|a: int| #![auto]
            0 <= a < spec_kept_upto(data, k).len() ==> 0 <= spec_kept_upto(data, k)[a] < k
                && spec_target0(data, spec_kept_upto(data, k)[a]) == spec_kept_upto(data, k)[a],
        forall|i: int|
            0 <= i < k && #[trigger] spec_target0(data, i) == i ==> spec_kept_upto(
                data,
                k,
            ).contains(i),
    decreases k,
{
    if k > 0 {
        lemma_kept_mem(data, k - 1);
        assert forall|i: int|
            0 <= i < k && #[trigger] spec_target0(data, i) == i implies spec_kept_upto(
            data,
            k,
        ).contains(i) by {
            if i < k - 1 {
                let a = choose|a: int|
                    0 <= a < spec_kept_upto(data, k - 1).len() && (#[trigger] spec_kept_upto(
                        data,
                        k - 1,
                    )[a]) == i;
                assert(spec_kept_upto(data, k)[a] == i);
            } else {
                assert(spec_kept_upto(data, k).last() == i);
            }
        }
    }
}

/// The kept list is never empty for a valid catalog.
pub proof fn lemma_kept_nonempty(data: InData)
    requires
        spec_data_valid(data),
    ensures
        spec_kept(data).len() >= 1,
{
    let n = data.n_rad_srf as int;
    lemma_kept_mem(data, n);
    let t0 = spec_target0(data, 0);
    assert(spec_surf_shape_valid(data, 0));
    if t0 == 0 {
        assert(spec_kept(data).contains(0));
    } else {
        assert(spec_target0(data, t0) == t0) by {
            assert(spec_targets_valid_unfold(data, 0));
        };
        assert(0 <= t0 < n);
        assert(spec_kept(data).contains(t0));
    }
}

/// One instance of the no-chain rule.
pub open spec fn spec_targets_valid_unfold(data: InData, i: int) -> bool {
    let t = crate::catalog::spec_target(data.surfaces[i]);
    t == i + 1 || (1 <= t <= data.surfaces.len() && crate::catalog::spec_target(
        data.surfaces[t - 1],
    ) == t)
}

/// Aggregated area lower bound: a kept target's group contains at
/// least its own area.
pub proof fn lemma_merged_area_lb(data: InData, t: int, c: int)
    requires
        spec_data_valid(data),
        0 <= t < data.n_rad_srf,
        spec_target0(data, t) == t,
        0 <= c <= data.n_rad_srf,
    ensures
        c <= t ==> spec_merged_area(data, t, c) >= 0,
        c > t ==> spec_merged_area(data, t, c) >= spec_surf_area(data, t),
    decreases c,
{
    if c > 0 {
        lemma_merged_area_lb(data, t, c - 1);
        assert(spec_surf_geom_valid(data, c - 1));
    }
}

/// The kept list as indices.
#[verifier::loop_isolation(false)]
fn kept_list(data: &InData) -> (r: Vec<usize>)
    requires
        spec_data_valid(*data),
    ensures
        r.len() == spec_kept(*data).len(),
        r.len() <= data.n_rad_srf,
        forall|a: int|
            0 <= a < r.len() ==> #[trigger] r@[a] == spec_kept(*data)[a] && r@[a]
                < data.n_rad_srf && spec_target0(*data, r@[a] as int) == r@[a],
{
    let n: usize = data.n_rad_srf as usize;
    let mut kept: Vec<usize> = Vec::new();
    let mut i: usize = 0;
    while i < n
        invariant
            i <= n,
            kept.len() <= i,
            kept.len() == spec_kept_upto(*data, i as int).len(),
            forall|a: int|
                0 <= a < kept.len() ==> #[trigger] kept@[a] == spec_kept_upto(*data, i as int)[a]
                    && kept@[a] < data.n_rad_srf && spec_target0(*data, kept@[a] as int)
                    == kept@[a],
        decreases n - i,
    {
        proof {
            assert(spec_surf_shape_valid(*data, i as int));
        }
        let srf = &data.surfaces[i];
        let t: i32 = if srf.base > 0 {
            srf.base
        } else if srf.cmbn > 0 {
            srf.cmbn
        } else {
            srf.nr
        };
        if t == i as i32 + 1 {
            kept.push(i);
        }
        i = i + 1;
    }
    kept
}

/// The aggregated area of target `t`.
#[verifier::loop_isolation(false)]
fn merged_area_of(data: &InData, t: usize) -> (r: i64)
    requires
        spec_data_valid(*data),
        t < data.n_rad_srf,
        spec_target0(*data, t as int) == t,
    ensures
        r == spec_merged_area(*data, t as int, data.n_rad_srf as int),
        crate::catalog::AREA_MIN <= r <= 0x100_0000_0000_0000,
{
    let n: usize = data.n_rad_srf as usize;
    let mut total: i64 = 0;
    let mut i: usize = 0;
    while i < n
        invariant
            i <= n,
            total == spec_merged_area(*data, t as int, i as int),
            0 <= total <= i * 0x1_0000_0000_0000,
        decreases n - i,
    {
        proof {
            assert(spec_surf_shape_valid(*data, i as int));
            assert(spec_surf_geom_valid(*data, i as int));
        }
        let srf = &data.surfaces[i];
        let ti: i32 = if srf.base > 0 {
            srf.base
        } else if srf.cmbn > 0 {
            srf.cmbn
        } else {
            srf.nr
        };
        if ti == t as i32 + 1 {
            let q = surf_quad(data, i);
            let (_nv, a) = crate::geom::normal_and_area(&q);
            total = total + a;
        }
        i = i + 1;
    }
    proof {
        lemma_merged_area_lb(*data, t as int, data.n_rad_srf as int);
        assert(spec_surf_geom_valid(*data, t as int));
    }
    total
}

/// The exchange carried from row `i` into target column `tb`.
#[verifier::loop_isolation(false)]
fn group_row_of(data: &InData, m: &Vec<i64>, i: usize, tb: usize) -> (r: i128)
    requires
        spec_data_valid(*data),
        i < data.n_rad_srf,
        tb < data.n_rad_srf,
        m.len() == (data.n_rad_srf as int) * (data.n_rad_srf as int),
        forall|k: int| 0 <= k < m.len() ==> 0 <= #[trigger] m@[k] <= F_SAT,
    ensures
        r == spec_group_row(*data, m@, i as int, tb as int, data.n_rad_srf as int),
        0 <= r <= 0x400_0000_0000_0000_0000_0000,
{
    let n: usize = data.n_rad_srf as usize;
    let ghost gm: Seq<i64> = m@;
    let qi = surf_quad(data, i);
    let (_ni, ai) = crate::geom::normal_and_area(&qi);
    proof {
        assert(spec_surf_geom_valid(*data, i as int));
        assert((i as int) * (n as int) + (n as int) <= (n as int) * (n as int))
            by (nonlinear_arith)
            requires
                i < n,
        ;
    }
    let mut total: i128 = 0;
    let mut c: usize = 0;
    while c < n
        invariant
            c <= n,
            total == spec_group_row(*data, gm, i as int, tb as int, c as int),
            0 <= total <= c * 0x4_0000_0000_0000_0000_0000,
        decreases n - c,
    {
        proof {
            assert(spec_surf_shape_valid(*data, c as int));
            assert(0 <= (i as int) * (n as int) + (c as int) < m.len());
        }
        let srf = &data.surfaces[c];
        let tc: i32 = if srf.base > 0 {
            srf.base
        } else if srf.cmbn > 0 {
            srf.cmbn
        } else {
            srf.nr
        };
        if tc == tb as i32 + 1 && c != i {
            proof {
                assert(0 <= (ai as int) * (m@[(i as int) * (n as int) + (c as int)] as int)
                    <= 0x4_0000_0000_0000_0000_0000) by (nonlinear_arith)
                    requires
                        0 <= ai < 0x1_0000_0000_0000,
                        0 <= m@[(i as int) * (n as int) + (c as int)] <= F_SAT,
                        F_SAT == 0x1_0000_0000,
                ;
            }
            total = total + (ai as i128) * (m[i * n + c] as i128);
        }
        c = c + 1;
    }
    total
}

/// The mutual exchange between target groups.
#[verifier::loop_isolation(false)]
fn merged_ex_of(data: &InData, m: &Vec<i64>, ta: usize, tb: usize) -> (r: i128)
    requires
        spec_data_valid(*data),
        ta < data.n_rad_srf,
        tb < data.n_rad_srf,
        m.len() == (data.n_rad_srf as int) * (data.n_rad_srf as int),
        forall|k: int| 0 <= k < m.len() ==> 0 <= #[trigger] m@[k] <= F_SAT,
    ensures
        r == spec_merged_ex(*data, m@, ta as int, tb as int, data.n_rad_srf as int),
        0 <= r <= 0x4_0000_0000_0000_0000_0000_0000,
{
    let n: usize = data.n_rad_srf as usize;
    let mut total: i128 = 0;
    let mut i: usize = 0;
    while i < n
        invariant
            i <= n,
            total == spec_merged_ex(*data, m@, ta as int, tb as int, i as int),
            0 <= total <= i * 0x400_0000_0000_0000_0000_0000,
        decreases n - i,
    {
        proof {
            assert(spec_surf_shape_valid(*data, i as int));
        }
        let srf = &data.surfaces[i];
        let ti: i32 = if srf.base > 0 {
            srf.base
        } else if srf.cmbn > 0 {
            srf.cmbn
        } else {
            srf.nr
        };
        if ti == ta as i32 + 1 {
            let g = group_row_of(data, m, i, tb);
            total = total + g;
        }
        i = i + 1;
    }
    total
}

/// Run the whole engine: validate the catalog, compute every selected
/// pair through the resolver, evaluator and subdivision controller,
/// average reciprocal pairs, normalize enclosures, and fold
/// subsurfaces into their targets. `Ok` exactly on a valid input; the
/// result is the exact function of the input stated by
/// `spec_results_ok`.
#[verifier::rlimit(100)]
#[verifier::loop_isolation(false)]
pub fn process_v3d(data: InData) -> (r: Result<VFResults, ViewError>)
    ensures
        r is Ok <==> spec_data_valid(data),
        r == Err::<VFResults, ViewError>(ViewError::InvalidConfiguration)
            <==> !spec_config_valid(data),
        (r matches Err(e) && e matches ViewError::DegenerateGeometry(_)) <==> (spec_config_valid(
            data,
        ) && !spec_geometry_valid(data)),
        r matches Ok(res) ==> spec_results_ok(data, res),
{
    match crate::catalog::validate(&data) {
        Err(e) => Err(e),
        Ok(()) => {
            let n: usize = data.n_rad_srf as usize;
            proof {
                assert(n * n == (data.n_rad_srf as int) * (data.n_rad_srf as int) && n * n
                    <= 65536) by (nonlinear_arith)
                    requires
                        n == data.n_rad_srf,
                        0 < data.n_rad_srf <= 256,
                ;
            }
            let (vals0, mut warns) = raw_matrix(&data);
            let vals1 = recip_matrix(&data, vals0);
            let vals = encl_matrix(&data, vals1, &mut warns);
            let kept = kept_list(&data);
            proof {
                lemma_kept_nonempty(data);
            }
            let kn: usize = kept.len();
            let mut areas: Vec<i64> = Vec::new();
            let mut emit: Vec<i64> = Vec::new();
            let mut a: usize = 0;
            while a < kn
                invariant
                    a <= kn,
                    areas.len() == a,
                    emit.len() == a,
                    forall|b: int|
                        0 <= b < a ==> #[trigger] areas@[b] == spec_final_areas(data)[b],
                    forall|b: int|
                        0 <= b < a ==> #[trigger] emit@[b] == spec_final_emit(data)[b],
                decreases kn - a,
            {
                let t: usize = kept[a];
                areas.push(merged_area_of(&data, t));
                emit.push(data.surfaces[t].emit);
                a = a + 1;
            }
            let values: Vec<i64> = if kn == n {
                vals
            } else {
                proof {
                    assert(kn * kn <= 65536) by (nonlinear_arith)
                        requires
                            kn <= n,
                            n <= 256,
                    ;
                }
                let mut out: Vec<i64> = Vec::new();
                let mut k: usize = 0;
                while k < kn * kn
                    invariant
                        k <= kn * kn,
                        out.len() == k,
                        forall|b: int|
                            0 <= b < k ==> #[trigger] out@[b] == spec_final_matrix(data)[b] && 0
                                <= out@[b] <= F_SAT,
                    decreases kn * kn - k,
                {
                    let ka: usize = k / kn;
                    let kb: usize = k % kn;
                    proof {
                        assert(ka < kn) by (nonlinear_arith)
                            requires
                                k < kn * kn,
                                ka == k / kn,
                                kn > 0,
                        ;
                    }
                    let ta: usize = kept[ka];
                    let tb: usize = kept[kb];
                    let ex = merged_ex_of(&data, &vals, ta, tb);
                    let ar = merged_area_of(&data, ta);
                    proof {
                        lemma_tdiv_ordered(0, ex as int, ar as int);
                    }
                    let f: i128 = tdiv128(ex, ar as i128);
                    let fv: i64 = if f > F_SAT as i128 {
                        F_SAT
                    } else {
                        f as i64
                    };
                    out.push(fv);
                    k = k + 1;
                }
                proof {
                    assert(out@ =~= spec_final_matrix(data));
                }
                out
            };
            proof {
                assert(areas@ =~= spec_final_areas(data));
                assert(emit@ =~= spec_final_emit(data));
                assert(warns@ =~= spec_warnings(data));
                if kn == n {
                    assert forall|i: int| 0 <= i < kn implies #[trigger] values@[i * (kn as int)
                        + i] == 0 by {
                        lemma_diagonal_zero(data, i);
                    }
                }
            }
            Ok(
                VFResults {
                    n_surfs: kn as u32,
                    encl: data.opts.enclosure,
                    areas,
                    emit,
                    values,
                    warnings: warns,
                },
            )
        },
    }
}

} // verus!
