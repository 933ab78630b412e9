//! Closed-form view-factor formulas for canonical geometries, used
//! purely as independent oracles: self-checks here, and cross-checks
//! of the engine in the scenario tests.

/// View factor between two parallel squares of side `width`,
/// `height` apart.
fn analytic_1(width: f64, height: f64) -> f64 {
    if width <= 0_f64 || height <= 0_f64 {
        panic!("Cannot use analytic_1 with non-positive values");
    }
    let w = width / height;
    let x = (1_f64 + w.powi(2)).sqrt();
    let y = (w / x).atan() * x - w.atan();
    (1_f64 / (std::f64::consts::PI * w.powi(2)))
        * ((x.powi(4) / (1_f64 + 2_f64 * w.powi(2))).ln() + 4_f64 * w * y)
}

/// View factor between two identical parallel rectangles `a` by `b`,
/// separated by `c`.
fn analytic_c11(a: f64, b: f64, c: f64) -> f64 {
    if a <= 0_f64 || b <= 0_f64 || c <= 0_f64 {
        panic!("Cannot use analytic_c11 with non-positive values");
    }
    let big_x = a / c;
    let big_y = b / c;
    let t1 = (((1_f64 + big_x.powi(2)) * (1_f64 + big_y.powi(2)))
        / (1_f64 + big_x.powi(2) + big_y.powi(2)))
    .powf(0.5_f64);
    let t2 = big_x * (1_f64 + big_y.powi(2)).sqrt()
        * (big_x / (1_f64 + big_y.powi(2)).sqrt()).atan();
    let t3 = big_y * (1_f64 + big_x.powi(2)).sqrt()
        * (big_y / (1_f64 + big_x.powi(2)).sqrt()).atan();
    let t4 = big_x * big_x.atan();
    let t5 = big_y * big_y.atan();
    2_f64 / (std::f64::consts::PI * big_x * big_y) * (t1.ln() + t2 + t3 - t4 - t5)
}

/// Rectangle to rectangle in a perpendicular plane, boundaries
/// parallel or perpendicular to the shared axis; fails when the
/// rectangles share an edge.
fn analytic_c15(
    x1: f64,
    x2: f64,
    y1: f64,
    y2: f64,
    eta1: f64,
    eta2: f64,
    xi1: f64,
    xi2: f64,
) -> f64 {
    if x1 < 0_f64
        || x2 < 0_f64
        || y1 < 0_f64
        || y2 < 0_f64
        || eta1 < 0_f64
        || eta2 < 0_f64
        || xi1 < 0_f64
        || xi2 < 0_f64
    {
        panic!("Cannot use analytic_c15 with non-positive values");
    }
    if x2 <= x1 {
        panic!("x2 must be greater than x1");
    }
    if y2 <= y1 {
        panic!("y2 must be greater than y1");
    }
    if eta2 <= eta1 {
        panic!("eta2 must be greater than eta1");
    }
    if xi2 <= xi1 {
        panic!("xi2 must be greater than xi1");
    }
    let xs = [x1, x2];
    let ys = [y1, y2];
    let etas = [eta1, eta2];
    let xis = [xi1, xi2];
    let mut tht = 0_f64;
    for i in 1..=2 {
        for j in 1..=2 {
            for k in 1..=2 {
                for l in 1..=2 {
                    tht += analytic_c15_fd(xs, ys, etas, xis, [i, j, k, l]);
                }
            }
        }
    }
    (1_f64 / ((x2 - x1) * (y2 - y1))) * tht
}

fn analytic_c15_fd(xs: [f64; 2], ys: [f64; 2], etas: [f64; 2], xis: [f64; 2], indices: [i32; 4]) -> f64 {
    let [i, j, k, l] = indices;
    (-1_f64).powi(i + j + k + l)
        * analytic_c15_g(
            xs[(i - 1) as usize],
            ys[(j - 1) as usize],
            etas[(k - 1) as usize],
            xis[(l - 1) as usize],
        )
}

fn analytic_c15_g(x: f64, y: f64, eta: f64, xi: f64) -> f64 {
    let k = (y - eta) / (x.powi(2) + xi.powi(2)).powf(0.5_f64);
    (1_f64 / (2_f64 * std::f64::consts::PI))
        * ((y - eta) * (x.powi(2) + xi.powi(2)).powf(0.5) * k.atan()
            - (1_f64 / 4_f64)
                * ((x.powi(2) + xi.powi(2)) * (1_f64 + k.powi(2)).ln()
                    - (y - eta).powi(2) * (1_f64 + 1_f64 / k.powi(2)).ln()))
}

/// View factor between coaxial parallel squares of sides `width1`,
/// `width2`, `distance` apart.
fn analytic_coaxial_squares(width1: f64, width2: f64, distance: f64) -> f64 {
    let w1 = width1 / distance;
    let w2 = width2 / distance;
    let p = (w1.powi(2) + w2.powi(2) + 2_f64).powi(2);
    let x = w2 - w1;
    let y = w2 + w1;
    let q = (x.powi(2) + 2_f64) * (y.powi(2) + 2_f64);
    let u = (x.powi(2) + 4_f64).sqrt();
    let v = (y.powi(2) + 4_f64).sqrt();
    let s = u * (x * (x / u).atan() - y * (y / u).atan());
    let t = v * (x * (x / v).atan() - y * (y / v).atan());
    (1_f64 / (std::f64::consts::PI * w1.powi(2))) * ((p / q).ln() + s - t)
}

fn assert_close(left: f64, right: f64, epsilon: f64) {
    assert!(
        (left - right).abs() < epsilon,
        "left {} right {} diff {} eps {}",
        left,
        right,
        (left - right).abs(),
        epsilon
    );
}

#[test]
fn matches_1_c11() {
    let analytic_result_1 = analytic_1(1_f64, 1_f64);
    let analytic_result_c11 = analytic_c11(1_f64, 1_f64, 1_f64);
    assert_close(analytic_result_1, analytic_result_c11, 0.0000001);
}

#[test]
#[should_panic]
fn use_zero_values_analytic_1() {
    analytic_1(0_f64, 1_f64);
}

#[test]
#[should_panic]
fn use_negative_values_analytic_1() {
    analytic_1(-1_f64, 1_f64);
}

#[test]
fn use_analytic_c15() {
    let res = analytic_c15(3_f64, 4_f64, 3_f64, 4_f64, 1_f64, 2_f64, 1_f64, 2_f64);
    println!("analytic_c15: {}", res);
    let expected = 4.8504066904213605e-3_f64;
    assert_close(res, expected, 0.0000001);
}

#[test]
fn use_analytic_c15_symmetric_a() {
    let res = analytic_c15(3_f64, 4_f64, 5_f64, 6_f64, 3_f64, 4_f64, 3_f64, 4_f64);
    println!("analytic_c15_a: {}", res);
    let expected = 0.004768347753645874_f64;
    assert_close(res, expected, 0.0000001);
}

#[test]
fn use_analytic_c15_symmetric_b() {
    let res = analytic_c15(3_f64, 4_f64, 1_f64, 2_f64, 3_f64, 4_f64, 3_f64, 4_f64);
    println!("analytic_c15_b: {}", res);
    let expected = 0.004768347753645874_f64;
    assert_close(res, expected, 0.0000001);
}

#[test]
fn use_analytic_coaxial_squares() {
    let res = analytic_coaxial_squares(1_f64, 1_f64, 1_f64);
    println!("analytic_coaxial_squares: {}", res);
    let expected = 0.19982489569838732_f64;
    assert_close(res, expected, 0.0000001);
}

#[test]
fn use_analytic_coaxial_squares2() {
    let res = analytic_coaxial_squares(1_f64, 1_f64, 1_f64);
    println!("analytic_coaxial_squares: {}", res);
    let expected = 0.19982489569838732_f64;
    assert_close(res, expected, 0.0000001);
}
