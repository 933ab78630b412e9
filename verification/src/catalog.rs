//! The surface catalog: input records, validation, and the normalized
//! geometry the engine computes on.
//!
//! Input uses the conventions of the surface-description format this
//! engine serves: vertices and surfaces are numbered from one;
//! radiating surfaces come first, obstruction-only surfaces after
//! them; a surface is a planar polygon of three or four vertex
//! references. Validation is fail-fast: a corrupt catalog produces an
//! error before any computation, since nothing useful can be computed
//! from it.

use vstd::prelude::*;

verus! {

use crate::fx::FX_ONE;
use crate::geom::COORD_LIM;
use crate::geom::GQuad;
use crate::geom::Quad;
use crate::geom::gq;
use crate::geom::quad_bounded;
use crate::geom::spec_area;
use crate::vec3::Vec3;
use crate::vec3::gv;
use crate::vec3::v3_bounded;

/// Fatal input errors.
#[derive(Clone, Copy, Debug, PartialEq, Eq, Structural)]
pub enum ViewError {
    /// A surface (by its number; zero for the vertex table) is
    /// geometrically unusable: bad or repeated vertex references,
    /// near-zero area, a non-planar or self-crossing quadrilateral,
    /// or coordinates beyond the engine's fixed-point range.
    DegenerateGeometry(i32),
    /// The solver options are contradictory: a non-positive
    /// convergence tolerance, a recursion floor above the recursion
    /// cap, a cap beyond the supported depth, a selective row or
    /// column out of range, counts that do not match the surface
    /// list, or an out-of-range emissivity when exchange factors are
    /// requested.
    InvalidConfiguration,
}

/// Non-fatal diagnostics surfaced alongside the result.
#[derive(Clone, Copy, Debug, PartialEq, Eq, Structural)]
pub enum VFWarning {
    /// The pair (one-based row, column) reached the maximum recursion
    /// depth without converging; its entry is a best-effort estimate.
    PrecisionWarning(i32, i32),
    /// The one-based row's sum deviated far from one before enclosure
    /// scaling; scaling was still applied (or the row was left alone
    /// when its sum was not positive).
    EnclosureInconsistency(i32),
}

/// One surface record.
#[derive(Clone, Debug)]
pub struct Surf {
    /// One-based surface number; must equal its position in the list.
    pub nr: i32,
    /// Number of vertices: three or four.
    pub nv: i32,
    /// Role tag: zero radiating, one obstruction-only, two both.
    pub type_: i32,
    /// Zero, or the number of the radiating base surface into which
    /// this subsurface is folded after normalization.
    pub base: i32,
    /// Zero, or the number of the radiating surface this one is
    /// combined into after normalization.
    pub cmbn: i32,
    /// Emissivity at 32 fractional bits, in `(0, 1]`; consulted only
    /// when exchange factors are requested.
    pub emit: i64,
    /// One-based references into the vertex table; for a triangle the
    /// fourth entry is ignored.
    pub vertex_indices: [i32; 4],
    /// Display label; never used in computation.
    pub name: String,
}

/// Solver options.
#[derive(Clone, Debug)]
pub struct InOptions {
    /// Run title; never used in computation.
    pub title: String,
    /// Convergence tolerance at 32 fractional bits; must be positive.
    pub eps_adap: i64,
    /// Accepted for input-format compatibility; the fixed-order
    /// evaluator takes no per-integral recursion bound.
    pub max_recurs_ali: i32,
    /// Depth below which a convergence check is not trusted.
    pub min_recursion: i32,
    /// Hard recursion cap; reaching it forces acceptance of the best
    /// estimate with a precision warning.
    pub max_recursion: i32,
    /// Apply row-sum-to-unity enclosure normalization.
    pub enclosure: bool,
    /// Also validate emissivities and echo them for exchange-factor
    /// consumers.
    pub emittances: bool,
    /// Zero, or the single one-based row to compute.
    pub row: i32,
    /// Zero, or the single one-based column to compute.
    pub col: i32,
    /// Reverse the winding (and so the facing) of every surface: the
    /// sign convention of the projection.
    pub prj_reverse: bool,
}

/// The in-memory input: options, counts, vertex table, surface list.
#[derive(Clone, Debug)]
pub struct InData {
    pub opts: InOptions,
    pub n_all_srf: i32,
    pub n_rad_srf: i32,
    pub n_obstr_srf: i32,
    pub n_vertices: i32,
    pub vertices: Vec<Vec3>,
    pub surfaces: Vec<Surf>,
}

/// Deepest supported recursion cap.
pub const MAX_DEPTH: i32 = 16;

/// Smallest area accepted as non-degenerate (about `1e-6` square
/// units at 32 fractional bits).
pub const AREA_MIN: i64 = 0x1000;

/// The options are self-consistent.
pub open spec fn spec_opts_valid(o: InOptions, n_rad: int) -> bool {
    &&& 0 < o.eps_adap <= FX_ONE
    &&& 0 <= o.min_recursion <= o.max_recursion <= MAX_DEPTH
    &&& 0 <= o.max_recurs_ali
    &&& 0 <= o.row <= n_rad
    &&& 0 <= o.col <= n_rad
}

/// The quad of surface `i`: vertex references resolved, a triangle's
/// last corner repeated, winding reversed under the reversed
/// projection convention.
pub open spec fn spec_surf_quad(data: InData, i: int) -> Quad {
    let s = data.surfaces[i];
    let v0 = data.vertices[s.vertex_indices@[0] - 1];
    let v1 = data.vertices[s.vertex_indices@[1] - 1];
    let v2 = data.vertices[s.vertex_indices@[2] - 1];
    let v3 = if s.nv == 3 {
        v2
    } else {
        data.vertices[s.vertex_indices@[3] - 1]
    };
    if data.opts.prj_reverse {
        Quad { p0: v3, p1: v2, p2: v1, p3: v0 }
    } else {
        Quad { p0: v0, p1: v1, p2: v2, p3: v3 }
    }
}

/// Structural validity of surface record `i`: consistent numbering
/// and role for its position, vertex references in range and
/// pairwise distinct, aggregation targets radiating and distinct from
/// the surface itself, emissivity in range when consulted.
pub open spec fn spec_surf_shape_valid(data: InData, i: int) -> bool {
    let s = data.surfaces[i];
    let k0 = s.vertex_indices@[0];
    let k1 = s.vertex_indices@[1];
    let k2 = s.vertex_indices@[2];
    let k3 = s.vertex_indices@[3];
    &&& s.nr == i + 1
    &&& (s.nv == 3 || s.nv == 4)
    &&& 1 <= k0 <= data.n_vertices
    &&& 1 <= k1 <= data.n_vertices
    &&& 1 <= k2 <= data.n_vertices
    &&& k0 != k1 && k0 != k2 && k1 != k2
    &&& (s.nv == 4 ==> 1 <= k3 <= data.n_vertices && k3 != k0 && k3 != k1 && k3 != k2)
    &&& (i < data.n_rad_srf ==> s.type_ == 0 || s.type_ == 2)
    &&& (i >= data.n_rad_srf ==> s.type_ == 1)
    &&& 0 <= s.base <= data.n_rad_srf && s.base != s.nr
    &&& 0 <= s.cmbn <= data.n_rad_srf && s.cmbn != s.nr
    &&& !(s.base > 0 && s.cmbn > 0)
    &&& (i >= data.n_rad_srf ==> s.base == 0 && s.cmbn == 0)
}

/// When exchange factors are requested, every emissivity must lie in
/// `(0, 1]`.
pub open spec fn spec_emits_valid(data: InData) -> bool {
    data.opts.emittances ==> forall|i: int|
        0 <= i < data.surfaces.len() ==> 0 < #[trigger] data.surfaces[i].emit <= FX_ONE
}

/// The configuration class of validity: counts, options, emissivities.
pub open spec fn spec_config_valid(data: InData) -> bool {
    &&& spec_counts_valid(data)
    &&& spec_opts_valid(data.opts, data.n_rad_srf as int)
    &&& spec_emits_valid(data)
}

/// The geometry class of validity: vertex range, surface records,
/// aggregation targets, resolved polygons.
pub open spec fn spec_geometry_valid(data: InData) -> bool {
    &&& spec_vertices_valid(data)
    &&& (forall|i: int|
        0 <= i < data.surfaces.len() ==> #[trigger] spec_surf_shape_valid(data, i))
    &&& spec_targets_valid(data)
    &&& (forall|i: int|
        0 <= i < data.surfaces.len() ==> #[trigger] spec_surf_geom_valid(data, i))
}

/// An aggregation target must itself stand alone: no chains.
pub open spec fn spec_targets_valid(data: InData) -> bool {
    forall|i: int|
        0 <= i < data.surfaces.len() ==> {
            let t = spec_target(#[trigger] data.surfaces[i]);
            t == i + 1 || (1 <= t <= data.surfaces.len() && spec_target(data.surfaces[t - 1]) == t)
        }
}

/// The surface a record's result is folded into: its base, else its
/// combine target, else itself.
pub open spec fn spec_target(s: Surf) -> int {
    if s.base > 0 {
        s.base as int
    } else if s.cmbn > 0 {
        s.cmbn as int
    } else {
        s.nr as int
    }
}

/// Geometric validity of surface `i`: the resolved polygon has a
/// usable area, and a quadrilateral is flat and free of
/// self-crossing, judged by its corner winding.
pub open spec fn spec_surf_geom_valid(data: InData, i: int) -> bool {
    let q = gq(spec_surf_quad(data, i));
    &&& spec_area(q) >= AREA_MIN
    &&& (data.surfaces[i].nv == 4 ==> spec_quad_flat(q) && spec_quad_winding_ok(q))
}

/// A quadrilateral is flat enough: the gap of its fourth corner off
/// the plane of the winding normal stays below a sliver of its area.
pub open spec fn spec_quad_flat(q: GQuad) -> bool {
    let n = crate::geom::g_cross_sum(q);
    let gap = crate::fx::tdiv(crate::vec3::g_dot(n, crate::vec3::g_sub(q.d, q.a)), 0x1_0000_0000);
    let lim = crate::fx::tdiv(spec_area(q), 0x8000) + 1;
    -lim <= gap <= lim
}

/// The side of corner `k`'s turn relative to the winding normal.
pub open spec fn spec_corner_side(q: GQuad, k: int) -> int {
    let n = crate::geom::g_cross_sum(q);
    let a = spec_corner(q, k);
    let b = spec_corner(q, k + 1);
    let c = spec_corner(q, k + 2);
    crate::vec3::g_dot(
        crate::vec3::g_shrink(crate::vec3::g_cross(crate::vec3::g_sub(b, a), crate::vec3::g_sub(c, b))),
        n,
    )
}

/// Corner `k` of a patch, cyclically.
pub open spec fn spec_corner(q: GQuad, k: int) -> crate::vec3::GV {
    let m = k % 4;
    if m == 0 {
        q.a
    } else if m == 1 {
        q.b
    } else if m == 2 {
        q.c
    } else {
        q.d
    }
}

/// At most one corner turns against the winding normal: accepts
/// convex and simple concave quadrilaterals, rejects self-crossing
/// ones, whose corners alternate.
pub open spec fn spec_quad_winding_ok(q: GQuad) -> bool {
    spec_neg_corners(q) <= 1
}

/// How many of the four corner turns point against the winding
/// normal.
pub open spec fn spec_neg_corners(q: GQuad) -> int {
    (if spec_corner_side(q, 0) < 0 {
        1int
    } else {
        0int
    }) + (if spec_corner_side(q, 1) < 0 {
        1int
    } else {
        0int
    }) + (if spec_corner_side(q, 2) < 0 {
        1int
    } else {
        0int
    }) + (if spec_corner_side(q, 3) < 0 {
        1int
    } else {
        0int
    })
}

/// The whole catalog is well-formed.
pub open spec fn spec_data_valid(data: InData) -> bool {
    spec_config_valid(data) && spec_geometry_valid(data)
}

/// The declared counts match the tables.
pub open spec fn spec_counts_valid(data: InData) -> bool {
    &&& 0 < data.n_rad_srf
    &&& 0 <= data.n_obstr_srf
    &&& data.n_all_srf == data.n_rad_srf + data.n_obstr_srf
    &&& data.surfaces.len() == data.n_all_srf
    &&& data.vertices.len() == data.n_vertices
    &&& data.n_all_srf <= 256
    &&& data.n_vertices <= 1024
}

/// Every vertex is within the engine's fixed-point coordinate range.
pub open spec fn spec_vertices_valid(data: InData) -> bool {
    forall|i: int|
        0 <= i < data.vertices.len() ==> v3_bounded(#[trigger] data.vertices[i], COORD_LIM as int)
}

/// A well-formed surface's quad is coordinate-bounded.
pub proof fn lemma_surf_quad_bounded(data: InData, i: int)
    requires
        spec_counts_valid(data),
        spec_vertices_valid(data),
        spec_surf_shape_valid(data, i),
        0 <= i < data.surfaces.len(),
    ensures
        quad_bounded(spec_surf_quad(data, i), COORD_LIM as int),
{
}

/// Resolve surface `i` to its patch.
pub fn surf_quad(data: &InData, i: usize) -> (r: Quad)
    requires
        spec_counts_valid(*data),
        spec_vertices_valid(*data),
        i < data.surfaces.len(),
        spec_surf_shape_valid(*data, i as int),
    ensures
        r == spec_surf_quad(*data, i as int),
        quad_bounded(r, COORD_LIM as int),
{
    proof {
        lemma_surf_quad_bounded(*data, i as int);
    }
    let s = &data.surfaces[i];
    let v0 = data.vertices[(s.vertex_indices[0] - 1) as usize];
    let v1 = data.vertices[(s.vertex_indices[1] - 1) as usize];
    let v2 = data.vertices[(s.vertex_indices[2] - 1) as usize];
    let v3 = if s.nv == 3 {
        v2
    } else {
        data.vertices[(s.vertex_indices[3] - 1) as usize]
    };
    if data.opts.prj_reverse {
        Quad { p0: v3, p1: v2, p2: v1, p3: v0 }
    } else {
        Quad { p0: v0, p1: v1, p2: v2, p3: v3 }
    }
}

/// The corner turn side of corner `k` of a patch.
fn corner_side(q: &Quad, k: usize, n: &Vec3) -> (r: i128)
    requires
        quad_bounded(*q, COORD_LIM as int),
        v3_bounded(*n, 0x1_0000_0000_0000),
        k < 4,
        gv(*n) == crate::geom::g_cross_sum(gq(*q)),
    ensures
        r == spec_corner_side(gq(*q), k as int),
{
    let a = corner(q, k);
    let b = corner(q, k + 1);
    let c = corner(q, k + 2);
    let ghost cl: int = COORD_LIM as int;
    let e1 = crate::vec3::v3_sub(&b, &a);
    let e2 = crate::vec3::v3_sub(&c, &b);
    let cr = crate::vec3::v3_cross(&e1, &e2, Ghost(2 * cl), Ghost(2 * cl));
    proof {
        crate::vec3::lemma_scaled_prod(2 * cl, 2 * cl);
        assert(2 * ((2 * cl) * (2 * cl)) == 0x8000_0000_0000_0000_0000) by (nonlinear_arith)
            requires
                cl == 0x40_0000_0000,
        ;
        assert(0x8000_0000_0000_0000_0000int / 0x1_0000_0000int == 0x8000_0000_0000);
    }
    let sh = crate::vec3::w3_shrink(&cr, Ghost(0x8000_0000_0000_0000_0000));
    crate::vec3::v3_dot(&sh, n, Ghost(0x8000_0000_0000), Ghost(0x1_0000_0000_0000))
}

/// Corner `k` of a patch, cyclically.
fn corner(q: &Quad, k: usize) -> (r: Vec3)
    requires
        quad_bounded(*q, COORD_LIM as int),
        k < 8,
    ensures
        gv(r) == spec_corner(gq(*q), k as int),
        v3_bounded(r, COORD_LIM as int),
{
    let m = k % 4;
    if m == 0 {
        q.p0
    } else if m == 1 {
        q.p1
    } else if m == 2 {
        q.p2
    } else {
        q.p3
    }
}

/// Validate a whole catalog: `Ok` exactly when every class of checks
/// passes; a contradictory configuration reports
/// `InvalidConfiguration`, and any unusable geometry reports
/// `DegenerateGeometry` with an offending surface's number (zero for
/// the vertex table).
#[verifier::loop_isolation(false)]
pub fn validate(data: &InData) -> (r: Result<(), ViewError>)
    ensures
        r is Ok <==> spec_data_valid(*data),
        r == Err::<(), ViewError>(ViewError::InvalidConfiguration) <==> !spec_config_valid(*data),
        (r matches Err(e) && e matches ViewError::DegenerateGeometry(_)) <==> (spec_config_valid(
            *data,
        ) && !spec_geometry_valid(*data)),
{
    let n_all = data.n_all_srf;
    let n_rad = data.n_rad_srf;
    if !(0 < n_rad && 0 <= data.n_obstr_srf && 0 <= data.n_vertices && (n_all as i64) == (
    n_rad as i64) + (data.n_obstr_srf as i64) && n_all <= 256 && data.n_vertices <= 1024) {
        return Err(ViewError::InvalidConfiguration);
    }
    if data.surfaces.len() != n_all as usize || data.vertices.len() != data.n_vertices as usize {
        return Err(ViewError::InvalidConfiguration);
    }
    let o = &data.opts;
    if !(0 < o.eps_adap && o.eps_adap <= FX_ONE && 0 <= o.min_recursion && o.min_recursion
        <= o.max_recursion && o.max_recursion <= MAX_DEPTH && 0 <= o.max_recurs_ali && 0 <= o.row
        && o.row <= n_rad && 0 <= o.col && o.col <= n_rad) {
        return Err(ViewError::InvalidConfiguration);
    }
    if data.opts.emittances {
        let mut i: usize = 0;
        while i < data.surfaces.len()
            invariant
                i <= data.surfaces.len(),
                forall|j: int| 0 <= j < i ==> 0 < #[trigger] data.surfaces[j].emit <= FX_ONE,
            decreases data.surfaces.len() - i,
        {
            if !(0 < data.surfaces[i].emit && data.surfaces[i].emit <= FX_ONE) {
                return Err(ViewError::InvalidConfiguration);
            }
            i = i + 1;
        }
    }
    let mut i: usize = 0;
    while i < data.vertices.len()
        invariant
            i <= data.vertices.len(),
            forall|j: int|
                0 <= j < i ==> v3_bounded(#[trigger] data.vertices[j], COORD_LIM as int),
        decreases data.vertices.len() - i,
    {
        let v = &data.vertices[i];
        if !(-COORD_LIM <= v.x && v.x <= COORD_LIM && -COORD_LIM <= v.y && v.y <= COORD_LIM
            && -COORD_LIM <= v.z && v.z <= COORD_LIM) {
            return Err(ViewError::DegenerateGeometry(0));
        }
        i = i + 1;
    }
    let mut i: usize = 0;
    while i < data.surfaces.len()
        invariant
            i <= data.surfaces.len(),
            spec_counts_valid(*data),
            forall|j: int| 0 <= j < i ==> #[trigger] spec_surf_shape_valid(*data, j),
        decreases data.surfaces.len() - i,
    {
        if !surf_shape_ok(data, i) {
            return Err(ViewError::DegenerateGeometry(i as i32 + 1));
        }
        i = i + 1;
    }
    let mut i: usize = 0;
    while i < data.surfaces.len()
        invariant
            i <= data.surfaces.len(),
            spec_counts_valid(*data),
            forall|j: int| 0 <= j < data.surfaces.len() ==> #[trigger] spec_surf_shape_valid(
                *data,
                j,
            ),
            forall|j: int|
                0 <= j < i ==> {
                    let t = spec_target(#[trigger] data.surfaces[j]);
                    t == j + 1 || (1 <= t <= data.surfaces.len() && spec_target(
                        data.surfaces[t - 1],
                    ) == t)
                },
        decreases data.surfaces.len() - i,
    {
        let s = &data.surfaces[i];
        let t: i32 = if s.base > 0 {
            s.base
        } else if s.cmbn > 0 {
            s.cmbn
        } else {
            s.nr
        };
        if t != i as i32 + 1 {
            if !(1 <= t && t as usize <= data.surfaces.len()) {
                return Err(ViewError::DegenerateGeometry(i as i32 + 1));
            }
            let st = &data.surfaces[(t - 1) as usize];
            let tt: i32 = if st.base > 0 {
                st.base
            } else if st.cmbn > 0 {
                st.cmbn
            } else {
                st.nr
            };
            if tt != t {
                return Err(ViewError::DegenerateGeometry(i as i32 + 1));
            }
        }
        i = i + 1;
    }
    let mut i: usize = 0;
    while i < data.surfaces.len()
        invariant
            i <= data.surfaces.len(),
            spec_counts_valid(*data),
            spec_vertices_valid(*data),
            forall|j: int| 0 <= j < data.surfaces.len() ==> #[trigger] spec_surf_shape_valid(
                *data,
                j,
            ),
            forall|j: int| 0 <= j < i ==> #[trigger] spec_surf_geom_valid(*data, j),
        decreases data.surfaces.len() - i,
    {
        let q = surf_quad(data, i);
        let (n, area) = crate::geom::normal_and_area(&q);
        if area < AREA_MIN {
            proof {
                assert(!spec_surf_geom_valid(*data, i as int));
            }
            return Err(ViewError::DegenerateGeometry(i as i32 + 1));
        }
        if data.surfaces[i].nv == 4 {
            let gapw = crate::vec3::v3_dot(
                &n,
                &crate::vec3::v3_sub(&q.p3, &q.p0),
                Ghost(0x1_0000_0000_0000),
                Ghost(2 * COORD_LIM as int),
            );
            let gap = crate::fx::tdiv128(gapw, crate::fx::FX_ONE_W);
            proof {
                crate::fx::lemma_tdiv_bound(
                    gapw as int,
                    crate::fx::FX_ONE_W as int,
                    0x180_0000_0000_0000_0000_0000,
                );
                assert(3 * 0x1_0000_0000_0000int * (2 * COORD_LIM as int)
                    == 0x180_0000_0000_0000_0000_0000) by (nonlinear_arith)
                    requires
                        COORD_LIM == 0x40_0000_0000,
                ;
            }
            let lim: i64 = crate::fx::tdiv128(area as i128, 0x8000) as i64 + 1;
            proof {
                crate::fx::lemma_tdiv_bound(area as int, 0x8000, 0x1_0000_0000_0000);
            }
            if !(-(lim as i128) <= gap && gap <= lim as i128) {
                proof {
                    assert(!spec_quad_flat(gq(q)));
                    assert(!spec_surf_geom_valid(*data, i as int));
                }
                return Err(ViewError::DegenerateGeometry(i as i32 + 1));
            }
            let mut neg: i32 = 0;
            let mut k: usize = 0;
            while k < 4
                invariant
                    k <= 4,
                    quad_bounded(q, COORD_LIM as int),
                    v3_bounded(n, 0x1_0000_0000_0000),
                    gv(n) == crate::geom::g_cross_sum(gq(q)),
                    neg == spec_neg_corners_upto(gq(q), k as int),
                    0 <= neg <= k,
                decreases 4 - k,
            {
                if corner_side(&q, k, &n) < 0 {
                    neg = neg + 1;
                }
                k = k + 1;
            }
            proof {
                reveal_with_fuel(spec_neg_corners_upto, 5);
                assert(spec_neg_corners_upto(gq(q), 4) == spec_neg_corners(gq(q)));
            }
            if neg > 1 {
                proof {
                    assert(!spec_quad_winding_ok(gq(q)));
                    assert(!spec_surf_geom_valid(*data, i as int));
                }
                return Err(ViewError::DegenerateGeometry(i as i32 + 1));
            }
        }
        i = i + 1;
    }
    Ok(())
}

/// The count of corner turns against the winding normal among the
/// first `k` corners.
pub open spec fn spec_neg_corners_upto(q: GQuad, k: int) -> int
    decreases k,
{
    if k <= 0 {
        0
    } else {
        spec_neg_corners_upto(q, k - 1) + (if spec_corner_side(q, k - 1) < 0 {
            1int
        } else {
            0int
        })
    }
}

/// Structural check of one surface record.
fn surf_shape_ok(data: &InData, i: usize) -> (r: bool)
    requires
        spec_counts_valid(*data),
        i < data.surfaces.len(),
    ensures
        r == spec_surf_shape_valid(*data, i as int),
{
    let s = &data.surfaces[i];
    let k0 = s.vertex_indices[0];
    let k1 = s.vertex_indices[1];
    let k2 = s.vertex_indices[2];
    let k3 = s.vertex_indices[3];
    s.nr == i as i32 + 1 && (s.nv == 3 || s.nv == 4) && 1 <= k0 && k0 <= data.n_vertices && 1 <= k1
        && k1 <= data.n_vertices && 1 <= k2 && k2 <= data.n_vertices && k0 != k1 && k0 != k2 && k1
        != k2 && (s.nv != 4 || (1 <= k3 && k3 <= data.n_vertices && k3 != k0 && k3 != k1 && k3
        != k2)) && ((i as i32) >= data.n_rad_srf || s.type_ == 0 || s.type_ == 2) && ((i as i32)
        < data.n_rad_srf || s.type_ == 1) && 0 <= s.base && s.base <= data.n_rad_srf && s.base
        != s.nr && 0 <= s.cmbn && s.cmbn <= data.n_rad_srf && s.cmbn != s.nr && !(s.base > 0
        && s.cmbn > 0) && ((i as i32) < data.n_rad_srf || (s.base == 0 && s.cmbn == 0))
}

} // verus!
