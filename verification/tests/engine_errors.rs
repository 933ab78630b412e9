//! Validation and diagnostics: every error kind has an input that
//! produces it, and precision warnings surface without aborting.

use view3d::process_v3d;
use view3d::InData;
use view3d::InOptions;
use view3d::Surf;
use view3d::VFWarning;
use view3d::Vec3;
use view3d::ViewError;

const ONE: f64 = 4294967296.0;

fn fx(x: f64) -> i64 {
    (x * ONE).round() as i64
}

fn v(x: f64, y: f64, z: f64) -> Vec3 {
    Vec3 { x: fx(x), y: fx(y), z: fx(z) }
}

fn quad_surf(nr: i32, idx: [i32; 4]) -> Surf {
    Surf {
        nr,
        nv: 4,
        type_: 0,
        base: 0,
        cmbn: 0,
        emit: fx(0.9),
        vertex_indices: idx,
        name: String::new(),
    }
}

fn default_opts() -> InOptions {
    InOptions {
        title: String::from("test"),
        eps_adap: fx(1.0e-4),
        max_recurs_ali: 12,
        min_recursion: 0,
        max_recursion: 8,
        enclosure: false,
        emittances: false,
        row: 0,
        col: 0,
        prj_reverse: false,
    }
}

fn parallel_planes() -> InData {
    InData {
        opts: default_opts(),
        n_all_srf: 2,
        n_rad_srf: 2,
        n_obstr_srf: 0,
        n_vertices: 8,
        vertices: vec![
            v(0.0, 0.0, 0.0),
            v(1.0, 0.0, 0.0),
            v(1.0, 1.0, 0.0),
            v(0.0, 1.0, 0.0),
            v(0.0, 0.0, 1.0),
            v(1.0, 0.0, 1.0),
            v(1.0, 1.0, 1.0),
            v(0.0, 1.0, 1.0),
        ],
        surfaces: vec![quad_surf(1, [1, 2, 3, 4]), quad_surf(2, [8, 7, 6, 5])],
    }
}

#[test]
fn non_positive_tolerance_is_invalid() {
    let mut data = parallel_planes();
    data.opts.eps_adap = 0;
    assert_eq!(process_v3d(data).unwrap_err(), ViewError::InvalidConfiguration);
    let mut data = parallel_planes();
    data.opts.eps_adap = -fx(0.1);
    assert_eq!(process_v3d(data).unwrap_err(), ViewError::InvalidConfiguration);
}

#[test]
fn recursion_floor_above_cap_is_invalid() {
    let mut data = parallel_planes();
    data.opts.min_recursion = 9;
    data.opts.max_recursion = 8;
    assert_eq!(process_v3d(data).unwrap_err(), ViewError::InvalidConfiguration);
}

#[test]
fn selective_row_out_of_range_is_invalid() {
    let mut data = parallel_planes();
    data.opts.row = 3;
    assert_eq!(process_v3d(data).unwrap_err(), ViewError::InvalidConfiguration);
}

#[test]
fn emissivity_out_of_range_is_invalid_when_requested() {
    let mut data = parallel_planes();
    data.surfaces[1].emit = fx(1.5);
    // without exchange factors the emissivity is not consulted
    assert!(process_v3d(data).is_ok());
    let mut data = parallel_planes();
    data.surfaces[1].emit = fx(1.5);
    data.opts.emittances = true;
    assert_eq!(process_v3d(data).unwrap_err(), ViewError::InvalidConfiguration);
}

#[test]
fn collinear_vertices_are_degenerate() {
    let mut data = parallel_planes();
    // flatten surface 2 into a line
    data.vertices[4] = v(0.0, 0.0, 1.0);
    data.vertices[5] = v(1.0, 0.0, 1.0);
    data.vertices[6] = v(2.0, 0.0, 1.0);
    data.vertices[7] = v(3.0, 0.0, 1.0);
    assert_eq!(process_v3d(data).unwrap_err(), ViewError::DegenerateGeometry(2));
}

#[test]
fn repeated_vertex_reference_is_degenerate() {
    let mut data = parallel_planes();
    data.surfaces[0].vertex_indices = [1, 2, 2, 4];
    assert_eq!(process_v3d(data).unwrap_err(), ViewError::DegenerateGeometry(1));
}

#[test]
fn vertex_reference_out_of_range_is_degenerate() {
    let mut data = parallel_planes();
    data.surfaces[0].vertex_indices = [1, 2, 3, 9];
    assert_eq!(process_v3d(data).unwrap_err(), ViewError::DegenerateGeometry(1));
}

#[test]
fn self_crossing_quad_is_degenerate() {
    let mut data = parallel_planes();
    // swap two adjacent corners of surface 1: a bowtie
    data.surfaces[0].vertex_indices = [1, 2, 4, 3];
    assert_eq!(process_v3d(data).unwrap_err(), ViewError::DegenerateGeometry(1));
}

#[test]
fn coordinate_out_of_range_is_degenerate() {
    let mut data = parallel_planes();
    data.vertices[0] = v(100.0, 0.0, 0.0);
    assert_eq!(process_v3d(data).unwrap_err(), ViewError::DegenerateGeometry(0));
}

#[test]
fn forced_acceptance_raises_precision_warning() {
    // a pair whose view is partially blocked, with no recursion
    // allowed: the controller must force-accept and say so
    let mut data = parallel_planes();
    data.opts.max_recursion = 0;
    data.n_all_srf = 3;
    data.n_obstr_srf = 1;
    data.n_vertices = 12;
    data.vertices.push(v(-1.0, -1.0, 0.5));
    data.vertices.push(v(0.5, -1.0, 0.5));
    data.vertices.push(v(0.5, 2.0, 0.5));
    data.vertices.push(v(-1.0, 2.0, 0.5));
    data.surfaces.push(Surf { type_: 1, ..quad_surf(3, [9, 10, 11, 12]) });
    let res = process_v3d(data).unwrap();
    assert!(res.warnings.contains(&VFWarning::PrecisionWarning(1, 2)));
    let f12 = res.vf(1, 2).unwrap();
    assert!(f12 > 0, "a best-effort value still comes back");
}

#[test]
fn partial_obstruction_reduces_the_view() {
    // the same half-cover obstruction, refined properly this time
    let mut data = parallel_planes();
    data.n_all_srf = 3;
    data.n_obstr_srf = 1;
    data.n_vertices = 12;
    data.vertices.push(v(-1.0, -1.0, 0.5));
    data.vertices.push(v(0.5, -1.0, 0.5));
    data.vertices.push(v(0.5, 2.0, 0.5));
    data.vertices.push(v(-1.0, 2.0, 0.5));
    data.surfaces.push(Surf { type_: 1, ..quad_surf(3, [9, 10, 11, 12]) });
    let res = process_v3d(data).unwrap();
    let f12 = res.vf(1, 2).unwrap() as f64 / ONE;
    let open = process_v3d(parallel_planes()).unwrap().vf(1, 2).unwrap() as f64 / ONE;
    assert!(f12 > 0.0);
    assert!(f12 < open, "covering half the view must lower the factor");
}

#[test]
fn counts_mismatch_is_invalid() {
    let mut data = parallel_planes();
    data.n_rad_srf = 3;
    data.n_all_srf = 3;
    assert_eq!(process_v3d(data).unwrap_err(), ViewError::InvalidConfiguration);
}
