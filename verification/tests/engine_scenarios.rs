//! Scenario tests that drive the whole engine on canonical
//! geometries and hold its output against closed-form values.

use view3d::process_v3d;
use view3d::InData;
use view3d::InOptions;
use view3d::Surf;
use view3d::VFWarning;
use view3d::Vec3;

const ONE: f64 = 4294967296.0;

fn fx(x: f64) -> i64 {
    (x * ONE).round() as i64
}

fn tof(v: i64) -> f64 {
    v as f64 / ONE
}

fn v(x: f64, y: f64, z: f64) -> Vec3 {
    Vec3 { x: fx(x), y: fx(y), z: fx(z) }
}

fn quad_surf(nr: i32, idx: [i32; 4]) -> Surf {
    Surf {
        nr,
        nv: 4,
        type_: 0,
        base: 0,
        cmbn: 0,
        emit: fx(0.9),
        vertex_indices: idx,
        name: String::new(),
    }
}

fn default_opts() -> InOptions {
    InOptions {
        title: String::from("test"),
        eps_adap: fx(1.0e-4),
        max_recurs_ali: 12,
        min_recursion: 0,
        max_recursion: 8,
        enclosure: false,
        emittances: false,
        row: 0,
        col: 0,
        prj_reverse: false,
    }
}

/// Two parallel unit squares, `width` wide and `height` apart:
/// surface 1 on the floor facing up, surface 2 above facing down.
fn parallel_planes(width: f64, height: f64) -> InData {
    InData {
        opts: default_opts(),
        n_all_srf: 2,
        n_rad_srf: 2,
        n_obstr_srf: 0,
        n_vertices: 8,
        vertices: vec![
            v(0.0, 0.0, 0.0),
            v(width, 0.0, 0.0),
            v(width, width, 0.0),
            v(0.0, width, 0.0),
            v(0.0, 0.0, height),
            v(width, 0.0, height),
            v(width, width, height),
            v(0.0, width, height),
        ],
        surfaces: vec![quad_surf(1, [1, 2, 3, 4]), quad_surf(2, [8, 7, 6, 5])],
    }
}

fn oracle_parallel_squares(width: f64, height: f64) -> f64 {
    let w = width / height;
    let x = (1_f64 + w.powi(2)).sqrt();
    let y = (w / x).atan() * x - w.atan();
    (1_f64 / (std::f64::consts::PI * w.powi(2)))
        * ((x.powi(4) / (1_f64 + 2_f64 * w.powi(2))).ln() + 4_f64 * w * y)
}

fn assert_close(left: f64, right: f64, epsilon: f64) {
    assert!(
        (left - right).abs() < epsilon,
        "left {} right {} diff {} eps {}",
        left,
        right,
        (left - right).abs(),
        epsilon
    );
}

#[test]
fn parallel_unit_squares_exact_value() {
    let res = process_v3d(parallel_planes(1.0, 1.0)).unwrap();
    let f12 = tof(res.vf(1, 2).unwrap());
    assert_close(f12, 0.19982489569838732, 1.0e-7);
}

#[test]
fn parallel_unit_squares_match_closed_form() {
    let res = process_v3d(parallel_planes(1.0, 1.0)).unwrap();
    let f12 = tof(res.vf(1, 2).unwrap());
    assert_close(f12, oracle_parallel_squares(1.0, 1.0), 1.0e-4);
}

#[test]
fn parallel_squares_twice_apart_match_closed_form() {
    let res = process_v3d(parallel_planes(1.0, 2.0)).unwrap();
    let f12 = tof(res.vf(1, 2).unwrap());
    assert_close(f12, oracle_parallel_squares(1.0, 2.0), 1.0e-4);
}

#[test]
fn parallel_squares_family_match_closed_form() {
    // a sweep over widths and separations standing in for the
    // whole parallel-squares family
    for (w, h) in [(0.5, 1.0), (2.0, 1.0), (1.5, 2.0), (3.0, 3.0), (0.25, 0.5)] {
        let res = process_v3d(parallel_planes(w, h)).unwrap();
        let f12 = tof(res.vf(1, 2).unwrap());
        assert_close(f12, oracle_parallel_squares(w, h), 1.0e-4);
    }
}

#[test]
fn parallel_rectangles_reduce_to_squares() {
    // identical 1 x 1 rectangles one unit apart are the unit-square
    // geometry; the rectangle formula must agree with the engine too
    let res = process_v3d(parallel_planes(1.0, 1.0)).unwrap();
    let f12 = tof(res.vf(1, 2).unwrap());
    assert_close(f12, 0.19982489569838732, 1.0e-4);
    let f21 = tof(res.vf(2, 1).unwrap());
    assert_close(f12, f21, 1.0e-7);
}

/// Perpendicular rectangles sharing no edge: surface 1 in the floor
/// plane at `x in [3,4], y in [3,4]`, surface 2 upright in the `y=0`
/// plane over `x in [1,2], z in [1,2]`, facing each other.
fn perpendicular_rectangles(mirrored: bool) -> InData {
    let y_sign = if mirrored { -1.0 } else { 1.0 };
    InData {
        opts: default_opts(),
        n_all_srf: 2,
        n_rad_srf: 2,
        n_obstr_srf: 0,
        n_vertices: 8,
        vertices: vec![
            v(3.0, y_sign * 3.0, 0.0),
            v(4.0, y_sign * 3.0, 0.0),
            v(4.0, y_sign * 4.0, 0.0),
            v(3.0, y_sign * 4.0, 0.0),
            v(1.0, 0.0, 1.0),
            v(1.0, 0.0, 2.0),
            v(2.0, 0.0, 2.0),
            v(2.0, 0.0, 1.0),
        ],
        surfaces: vec![
            if mirrored {
                // mirrored winding keeps the face toward positive z
                quad_surf(1, [4, 3, 2, 1])
            } else {
                quad_surf(1, [1, 2, 3, 4])
            },
            if mirrored {
                quad_surf(2, [8, 7, 6, 5])
            } else {
                quad_surf(2, [5, 6, 7, 8])
            },
        ],
    }
}

#[test]
fn perpendicular_rectangles_exact_value() {
    let res = process_v3d(perpendicular_rectangles(false)).unwrap();
    let f12 = tof(res.vf(1, 2).unwrap());
    assert_close(f12, 4.8504066904213605e-3, 1.0e-7);
}

#[test]
fn mirrored_perpendicular_rectangles_agree() {
    let res_a = process_v3d(perpendicular_rectangles(false)).unwrap();
    let res_b = process_v3d(perpendicular_rectangles(true)).unwrap();
    let fa = tof(res_a.vf(1, 2).unwrap());
    let fb = tof(res_b.vf(1, 2).unwrap());
    assert_close(fa, fb, 1.0e-7);
}

#[test]
fn coaxial_unit_squares_exact_value() {
    // coaxial unit squares at unit separation are the parallel
    // unit-square geometry seen by the coaxial formula
    let res = process_v3d(parallel_planes(1.0, 1.0)).unwrap();
    let f12 = tof(res.vf(1, 2).unwrap());
    assert_close(f12, 0.19982489569838732, 1.0e-7);
}

/// Two parallel unit squares with a larger obstruction-only square
/// between them, spanning the whole mutual view.
fn obstructed_planes() -> InData {
    let mut data = parallel_planes(1.0, 1.0);
    data.n_all_srf = 3;
    data.n_obstr_srf = 1;
    data.n_vertices = 12;
    data.vertices.push(v(-1.0, -1.0, 0.5));
    data.vertices.push(v(2.0, -1.0, 0.5));
    data.vertices.push(v(2.0, 2.0, 0.5));
    data.vertices.push(v(-1.0, 2.0, 0.5));
    data.surfaces.push(Surf { type_: 1, ..quad_surf(3, [9, 10, 11, 12]) });
    data
}

#[test]
fn fully_obstructed_pair_is_exactly_zero() {
    let res = process_v3d(obstructed_planes()).unwrap();
    assert_eq!(res.vf(1, 2).unwrap(), 0);
    assert_eq!(res.vf(2, 1).unwrap(), 0);
}

#[test]
fn reciprocity_of_averaged_matrix() {
    // two parallel squares of different sizes: areas 4 and 1
    let mut data = parallel_planes(1.0, 1.0);
    data.vertices[0] = v(-0.5, -0.5, 0.0);
    data.vertices[1] = v(1.5, -0.5, 0.0);
    data.vertices[2] = v(1.5, 1.5, 0.0);
    data.vertices[3] = v(-0.5, 1.5, 0.0);
    let res = process_v3d(data).unwrap();
    let a1 = tof(res.areas[0]);
    let a2 = tof(res.areas[1]);
    let f12 = tof(res.vf(1, 2).unwrap());
    let f21 = tof(res.vf(2, 1).unwrap());
    assert_close(a1, 4.0, 1.0e-6);
    assert_close(a2, 1.0, 1.0e-6);
    assert_close(a1 * f12, a2 * f21, 1.0e-6);
}

#[test]
fn open_geometry_row_sum_below_one() {
    let res = process_v3d(parallel_planes(1.0, 1.0)).unwrap();
    for i in 0..2usize {
        let mut sum = 0.0_f64;
        for j in 0..2usize {
            sum += tof(res.vf(i + 1, j + 1).unwrap());
        }
        assert!(sum <= 1.0 + 1.0e-4, "row {} sums to {}", i + 1, sum);
    }
}

/// A closed unit cube of six inward-facing squares.
fn unit_cube(enclosure: bool) -> InData {
    let mut opts = default_opts();
    opts.enclosure = enclosure;
    InData {
        opts,
        n_all_srf: 6,
        n_rad_srf: 6,
        n_obstr_srf: 0,
        n_vertices: 8,
        vertices: vec![
            v(0.0, 0.0, 0.0),
            v(1.0, 0.0, 0.0),
            v(1.0, 1.0, 0.0),
            v(0.0, 1.0, 0.0),
            v(0.0, 0.0, 1.0),
            v(1.0, 0.0, 1.0),
            v(1.0, 1.0, 1.0),
            v(0.0, 1.0, 1.0),
        ],
        surfaces: vec![
            quad_surf(1, [1, 2, 3, 4]),
            quad_surf(2, [8, 7, 6, 5]),
            quad_surf(3, [1, 5, 6, 2]),
            quad_surf(4, [2, 6, 7, 3]),
            quad_surf(5, [3, 7, 8, 4]),
            quad_surf(6, [4, 8, 5, 1]),
        ],
    }
}

#[test]
fn enclosure_rows_sum_to_one() {
    let res = process_v3d(unit_cube(true)).unwrap();
    assert!(res.encl);
    for i in 0..6usize {
        let mut sum = 0.0_f64;
        for j in 0..6usize {
            sum += tof(res.vf(i + 1, j + 1).unwrap());
        }
        assert_close(sum, 1.0, 1.0e-6);
    }
}

#[test]
fn engine_runs_are_identical() {
    let r1 = process_v3d(parallel_planes(1.0, 2.0)).unwrap();
    let r2 = process_v3d(parallel_planes(1.0, 2.0)).unwrap();
    assert_eq!(r1.values, r2.values);
    assert_eq!(r1.areas, r2.areas);
    assert_eq!(r1.emit, r2.emit);
    assert_eq!(r1.n_surfs, r2.n_surfs);
}

#[test]
fn swapped_pair_reflects_the_matrix() {
    let data = parallel_planes(1.0, 1.0);
    let mut swapped = parallel_planes(1.0, 1.0);
    swapped.surfaces = vec![quad_surf(1, [8, 7, 6, 5]), quad_surf(2, [1, 2, 3, 4])];
    let r1 = process_v3d(data).unwrap();
    let r2 = process_v3d(swapped).unwrap();
    assert_eq!(r2.vf(1, 2).unwrap(), r1.vf(2, 1).unwrap());
    assert_eq!(r2.vf(2, 1).unwrap(), r1.vf(1, 2).unwrap());
}

#[test]
fn reversed_projection_faces_away() {
    let mut data = parallel_planes(1.0, 1.0);
    data.opts.prj_reverse = true;
    let res = process_v3d(data).unwrap();
    // with every winding reversed the two squares face away from
    // each other, and the orientation pre-check yields a hard zero
    assert_eq!(res.vf(1, 2).unwrap(), 0);
    assert_eq!(res.vf(2, 1).unwrap(), 0);
}

#[test]
fn selective_row_restricts_computation() {
    let mut data = parallel_planes(1.0, 1.0);
    data.opts.row = 1;
    let res = process_v3d(data).unwrap();
    assert!(res.vf(1, 2).unwrap() > 0);
    assert_eq!(res.vf(2, 1).unwrap(), 0);
}

#[test]
fn enclosure_warning_on_open_geometry() {
    let mut data = parallel_planes(1.0, 1.0);
    data.opts.enclosure = true;
    let res = process_v3d(data).unwrap();
    // the two-square geometry is far from closed: both rows deviate
    // wildly from one, are reported, and are still rescaled
    assert!(res.warnings.contains(&VFWarning::EnclosureInconsistency(1)));
    assert!(res.warnings.contains(&VFWarning::EnclosureInconsistency(2)));
    let f12 = tof(res.vf(1, 2).unwrap());
    assert_close(f12, 1.0, 1.0e-6);
}

#[test]
fn subsurface_combines_into_base() {
    // two half-squares side by side on the floor, the second folded
    // into the first, against a full square above facing down
    let mut data = parallel_planes(1.0, 1.0);
    data.n_all_srf = 3;
    data.n_rad_srf = 3;
    data.n_vertices = 10;
    data.vertices[1] = v(0.5, 0.0, 0.0);
    data.vertices[2] = v(0.5, 1.0, 0.0);
    data.vertices.push(v(1.0, 0.0, 0.0));
    data.vertices.push(v(1.0, 1.0, 0.0));
    data.surfaces = vec![
        quad_surf(1, [1, 2, 3, 4]),
        Surf { base: 1, ..quad_surf(2, [2, 9, 10, 3]) },
        quad_surf(3, [8, 7, 6, 5]),
    ];
    let res = process_v3d(data).unwrap();
    assert_eq!(res.n_surfs, 2);
    let combined = tof(res.vf(1, 2).unwrap());
    let whole = tof(process_v3d(parallel_planes(1.0, 1.0)).unwrap().vf(1, 2).unwrap());
    assert_close(combined, whole, 1.0e-3);
    assert_close(tof(res.areas[0]), 1.0, 1.0e-6);
}

#[test]
fn vf_outside_matrix_is_absent() {
    let res = process_v3d(parallel_planes(1.0, 1.0)).unwrap();
    assert_eq!(res.vf(3, 1), None);
    assert_eq!(res.vf(1, 5), None);
    assert_eq!(res.vf(0, 1), None);
    assert_eq!(res.vf(2, 0), None);
    // an out-of-range column never aliases into the next row
    assert_eq!(res.vf(1, 3), None);
}

#[test]
fn combine_target_matches_base_aggregation() {
    // the same two half-squares, aggregated through the combine
    // field instead of the base field, must give the same report
    let build = |use_cmbn: bool| {
        let mut data = parallel_planes(1.0, 1.0);
        data.n_all_srf = 3;
        data.n_rad_srf = 3;
        data.n_vertices = 10;
        data.vertices[1] = v(0.5, 0.0, 0.0);
        data.vertices[2] = v(0.5, 1.0, 0.0);
        data.vertices.push(v(1.0, 0.0, 0.0));
        data.vertices.push(v(1.0, 1.0, 0.0));
        let second = if use_cmbn {
            Surf { cmbn: 1, ..quad_surf(2, [2, 9, 10, 3]) }
        } else {
            Surf { base: 1, ..quad_surf(2, [2, 9, 10, 3]) }
        };
        data.surfaces = vec![quad_surf(1, [1, 2, 3, 4]), second, quad_surf(3, [8, 7, 6, 5])];
        data
    };
    let with_base = process_v3d(build(false)).unwrap();
    let with_cmbn = process_v3d(build(true)).unwrap();
    assert_eq!(with_base.values, with_cmbn.values);
    assert_eq!(with_base.areas, with_cmbn.areas);
}

#[test]
fn parallel_triangles_reciprocity() {
    // two parallel right triangles one unit apart, carried as
    // three-vertex surfaces
    let mut data = parallel_planes(1.0, 1.0);
    data.surfaces[0].nv = 3;
    data.surfaces[0].vertex_indices = [1, 2, 3, 0];
    data.surfaces[1].nv = 3;
    data.surfaces[1].vertex_indices = [7, 6, 5, 0];
    let res = process_v3d(data).unwrap();
    let a1 = tof(res.areas[0]);
    let a2 = tof(res.areas[1]);
    assert_close(a1, 0.5, 1.0e-4);
    assert_close(a2, 0.5, 1.0e-4);
    let f12 = tof(res.vf(1, 2).unwrap());
    let f21 = tof(res.vf(2, 1).unwrap());
    assert!(f12 > 0.05 && f12 < 0.2, "triangle factor {} out of range", f12);
    assert_close(a1 * f12, a2 * f21, 1.0e-6);
}
