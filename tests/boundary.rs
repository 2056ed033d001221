use linear_ode::boundary_value::{BoundaryError, Problem, Solutions};
use linear_ode::initial_value::Problem as InitialProblem;
use linear_ode::math::Ratio;
use linear_ode::solution::Solution;

const M: i32 = 1_000_000;
const DEN: i128 = 1_000_000_000_000;

fn coefficient(v: f64) -> Ratio {
    Ratio { num: (v * DEN as f64).round() as i128, den: DEN }
}

fn ratio(r: Ratio) -> f64 {
    r.num as f64 / r.den as f64
}

/// The affine coefficients of the pure oscillator `y'' + y = 0` with `y(0) = y0`:
/// `y(x1) = sin(x1)·y'(0) + y0·cos(x1)`.
fn oscillator(y0: f64, x1: f64) -> Solutions {
    Solutions { c: (coefficient(x1.sin()), coefficient(y0 * x1.cos())) }
}

#[test]
fn oscillator_boundary_reduces_to_unit_slope() {
    let x1 = std::f64::consts::FRAC_PI_2;
    let problem = Problem { a: 0, b: M, y0: 0, y1: M, x1: (x1 * M as f64).round() as i32 };
    let solutions = oscillator(0.0, x1);
    let reduced = problem.reduce(&solutions).unwrap();
    assert_eq!(reduced, InitialProblem { a: 0, b: M, y0: 0, y0_prime: M });
    let s = Solution::from_boundary(&problem, &solutions).unwrap();
    assert_eq!(s, Solution::from_initial(&reduced));
    match s {
        Solution::Complex { alpha, .. } => assert_eq!(alpha.num, 0),
        _ => panic!("expected complex roots"),
    }
}

#[test]
fn slope_solves_the_affine_relation() {
    // y(x1) = 2·s + 3; y1 = 7 gives s = 2
    let solutions = Solutions { c: (Ratio { num: 2, den: 1 }, Ratio { num: 3, den: 1 }) };
    assert_eq!(solutions.initial_slope(7 * M), Ok(2 * M));
    // y(x1) = -4·s + 1; y1 = 0 gives s = 0.25
    let solutions = Solutions { c: (Ratio { num: -4, den: 1 }, Ratio { num: 1, den: 1 }) };
    assert_eq!(solutions.initial_slope(0), Ok(250_000));
    // y(x1) = 3·s; y1 = 1 gives s = 0.333333 (rounded down)
    let solutions = Solutions { c: (Ratio { num: 3, den: 1 }, Ratio { num: 0, den: 1 }) };
    assert_eq!(solutions.initial_slope(M), Ok(333_333));
    assert_eq!(solutions.initial_slope(-M), Ok(-333_334));
}

#[test]
fn reduced_slope_meets_boundary_within_rounding() {
    let solutions = oscillator(1.5, 0.8);
    let y1 = 2_345_678;
    let s = solutions.initial_slope(y1).unwrap();
    let c0 = ratio(solutions.c.0);
    let value = c0 * s as f64 / M as f64 + ratio(solutions.c.1);
    let miss = value - y1 as f64 / M as f64;
    assert!(miss <= 1e-12 && miss > -c0.abs() / M as f64 - 1e-12);
}

#[test]
fn degenerate_boundary_is_unsolvable() {
    // y'' + y = 0 with x1 = π: y(π) = -y0 whatever the slope
    let solutions = Solutions { c: (Ratio { num: 0, den: DEN }, Ratio { num: -DEN, den: DEN }) };
    let problem = Problem { a: 0, b: M, y0: M, y1: M, x1: 3_141_593 };
    assert_eq!(problem.reduce(&solutions), Err(BoundaryError::Unsolvable));
    assert_eq!(Solution::from_boundary(&problem, &solutions), Err(BoundaryError::Unsolvable));
    // within the tolerance of zero
    let tiny = Solutions { c: (Ratio { num: 99, den: DEN }, Ratio { num: 0, den: 1 }) };
    assert_eq!(tiny.initial_slope(M), Err(BoundaryError::Unsolvable));
}

#[test]
fn slope_out_of_range_is_reported() {
    let solutions = Solutions { c: (Ratio { num: 1, den: 1_000 }, Ratio { num: 0, den: 1 }) };
    // s = 1000·y1 = 10^4, beyond 2147.48
    assert_eq!(solutions.initial_slope(10 * M), Err(BoundaryError::OutOfRange));
    let problem = Problem { a: 0, b: M, y0: 0, y1: 10 * M, x1: M };
    assert_eq!(problem.reduce(&solutions), Err(BoundaryError::OutOfRange));
}

#[test]
fn boundary_round_trip_in_each_regime() {
    // repeated root: y'' + 2y' + y = 0, y(x) = (s·x + y0)e^(-x) with y0 = 1
    let (y0, x1) = (1.0f64, 1.5f64);
    let e = (-x1).exp();
    let solutions = Solutions { c: (coefficient(x1 * e), coefficient(y0 * e * (1.0 + x1))) };
    let problem = Problem { a: 2 * M, b: M, y0: M, y1: 400_000, x1: 1_500_000 };
    let s = Solution::from_boundary(&problem, &solutions).unwrap();
    match s {
        Solution::Simple { r0, alpha, beta } => {
            let v = (ratio(alpha) * x1 + ratio(beta)) * (ratio(r0) * x1).exp();
            assert!((v - 0.4).abs() < 1e-5);
            assert_eq!(beta.num, beta.den);
        }
        _ => panic!("expected a repeated root"),
    }
    // distinct roots: y'' - 3y' + 2y = 0, roots 2 and 1, y0 = 0: y(x1) = s·(e^2x1 - e^x1)
    let x1 = 0.5f64;
    let c0 = (2.0 * x1).exp() - x1.exp();
    let solutions = Solutions { c: (coefficient(c0), Ratio { num: 0, den: 1 }) };
    let problem = Problem { a: -3 * M, b: 2 * M, y0: 0, y1: 3 * M, x1: 500_000 };
    let reduced = problem.reduce(&solutions).unwrap();
    let slope = reduced.y0_prime as f64 / M as f64;
    assert!((slope * c0 - 3.0).abs() < 1e-5);
    assert!(matches!(Solution::from_boundary(&problem, &solutions), Ok(Solution::Double { .. })));
}

#[test]
fn affine_value_at_boundary() {
    // y(x1) = 2·s + 3 at s = 1.5 is 6
    let solutions = Solutions { c: (Ratio { num: 2, den: 1 }, Ratio { num: 3, den: 1 }) };
    let v = solutions.y1(1_500_000).unwrap();
    assert_eq!(v.num, 6 * v.den);
    // y(x1) = -0.5·s + 0.25 at s = -2 is 1.25
    let solutions = Solutions { c: (Ratio { num: -1, den: 2 }, Ratio { num: 1, den: 4 }) };
    let v = solutions.y1(-2 * M).unwrap();
    assert_eq!(v.num * 4, 5 * v.den);
    // the numerator does not fit
    let huge = Solutions {
        c: (Ratio { num: i64::MAX as i128, den: 1 }, Ratio { num: 0, den: 1 << 40 }),
    };
    assert_eq!(huge.y1(i32::MAX), None);
    assert!(huge.y1(1).is_some());
}
