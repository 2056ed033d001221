//! Closed-form solutions, one shape per kind of root of `r² + a·r + b = 0`.
use vstd::prelude::*;

use crate::boundary_value::{BoundaryError, Problem as BoundaryProblem, Solutions};
use crate::initial_value::Problem;
use crate::math::{
    is_approx_zero, product, same_value, sum, Ratio, Surd, EPSILON_DEN, EPSILON_NUM, SCALE,
};

verus! {

/// The solution of an initial-value problem, with exact coefficients.
/// Field elements of `Double` and `Complex` are read over `√radicand`.
#[derive(Clone, Copy, Debug, PartialEq, Eq, Structural)]
#[allow(inconsistent_fields)]
pub enum Solution {
    /// Two distinct real roots: `y(x) = alpha·e^(r1·x) + beta·e^(r2·x)`, with `r1 > r2`.
    Double { radicand: i128, r1: Surd, r2: Surd, alpha: Surd, beta: Surd },
    /// One repeated root: `y(x) = (alpha·x + beta)·e^(r0·x)`.
    Simple { r0: Ratio, alpha: Ratio, beta: Ratio },
    /// Complex roots `p ± i·q`: `y(x) = e^(p·x)·(alpha·cos(q·x) + beta·sin(q·x))`.
    Complex { radicand: i128, p: Ratio, q: Surd, alpha: Ratio, beta: Surd },
}

/// A rational given by its numerator over `SCALE`, as a field element.
pub open spec fn scaled(v: int) -> (int, int, int) {
    (v, 0, SCALE as int)
}

impl Solution {
    /// All denominators are positive.
    pub open spec fn wf(&self) -> bool {
        match *self {
            Solution::Double { r1, r2, alpha, beta, .. } => r1.den > 0 && r2.den > 0
                && alpha.den > 0 && beta.den > 0,
            Solution::Simple { r0, alpha, beta } => r0.den > 0 && alpha.den > 0 && beta.den > 0,
            Solution::Complex { p, q, alpha, beta, .. } => p.den > 0 && q.den > 0 && alpha.den
                > 0 && beta.den > 0,
        }
    }

    /// `y(0)`: every exponential and cosine is one at zero, every sine is zero.
    pub open spec fn value_at_zero(&self) -> (int, int, int) {
        match *self {
            Solution::Double { alpha, beta, .. } => sum(alpha@, beta@),
            Solution::Simple { beta, .. } => beta.as_surd(),
            Solution::Complex { alpha, .. } => alpha.as_surd(),
        }
    }

    /// `y'(0)`, by differentiating the closed form and setting `x = 0`.
    pub open spec fn slope_at_zero(&self) -> (int, int, int) {
        match *self {
            Solution::Double { radicand, r1, r2, alpha, beta } => sum(
                product(alpha@, r1@, radicand as int),
                product(beta@, r2@, radicand as int),
            ),
            Solution::Simple { r0, alpha, beta } => sum(
                alpha.as_surd(),
                product(beta.as_surd(), r0.as_surd(), 0),
            ),
            Solution::Complex { radicand, p, q, alpha, beta } => sum(
                product(p.as_surd(), alpha.as_surd(), radicand as int),
                product(q@, beta@, radicand as int),
            ),
        }
    }

    /// The shape is the one that the discriminant selects, the roots are those of the
    /// characteristic equation (`r0 = −a/2`; `r1, r2 = (−a ± √Δ)/2`; `p = −a/2`,
    /// `q = √(−Δ)/2`), and the initial conditions hold exactly.
    pub open spec fn solves(&self, pb: Problem) -> bool {
        let a = pb.a as int;
        let d = SCALE as int;
        let n = pb.discriminant();
        &&& self.wf()
        &&& same_value(self.value_at_zero(), scaled(pb.y0 as int))
        &&& same_value(self.slope_at_zero(), scaled(pb.y0_prime as int))
        &&& match *self {
            Solution::Simple { r0, .. } => pb.has_repeated_root() && same_value(
                r0.as_surd(),
                (-a, 0, 2 * d),
            ),
            Solution::Double { radicand, r1, r2, .. } => {
                &&& !pb.has_repeated_root() && n > 0 && radicand == n
                &&& same_value(r1@, (-a, 1, 2 * d))
                &&& same_value(r2@, (-a, -1, 2 * d))
            },
            Solution::Complex { radicand, p, q, .. } => {
                &&& !pb.has_repeated_root() && n < 0 && radicand == -n
                &&& same_value(p.as_surd(), (-a, 0, 2 * d))
                &&& same_value(q@, (0, 1, 2 * d))
            },
        }
    }

    /// Solves the initial-value problem: classifies the discriminant against the zero
    /// tolerance and derives the coefficients that match `y(0)` and `y'(0)`.
    pub fn from_initial(problem: &Problem) -> (r: Solution)
        ensures
            r.solves(*problem),
    {
        let a = problem.a as i128;
        let b = problem.b as i128;
        let y0 = problem.y0 as i128;
        let y0p = problem.y0_prime as i128;
        let d = SCALE as i128;
        proof {
            lemma_input_bounds(a as int, b as int, y0 as int, y0p as int);
        }
        let delta = a * a - 4 * b * d;
        let k = 2 * d * y0p + a * y0;
        if is_approx_zero(
            Ratio { num: delta, den: d * d },
            Ratio { num: EPSILON_NUM, den: EPSILON_DEN },
        ) {
            let r0 = Ratio { num: -a, den: 2 * d };
            let alpha = Ratio { num: k, den: 2 * d * d };
            let beta = Ratio { num: y0, den: d };
            proof {
                lemma_simple(a as int, y0 as int, y0p as int, d as int);
            }
            return Solution::Simple { r0, alpha, beta };
        }
        proof {
            lemma_wide_bounds(y0 as int, delta as int);
        }
        if delta > 0 {
            let r1 = Surd { rational: -a, irrational: 1, den: 2 * d };
            let r2 = Surd { rational: -a, irrational: -1, den: 2 * d };
            let alpha = Surd { rational: y0 * delta, irrational: k, den: 2 * d * delta };
            let beta = Surd { rational: y0 * delta, irrational: -k, den: 2 * d * delta };
            proof {
                lemma_double(a as int, y0 as int, y0p as int, delta as int, d as int);
            }
            Solution::Double { radicand: delta, r1, r2, alpha, beta }
        } else {
            let m = -delta;
            let p = Ratio { num: -a, den: 2 * d };
            let q = Surd { rational: 0, irrational: 1, den: 2 * d };
            let alpha = Ratio { num: y0, den: d };
            let beta = Surd { rational: 0, irrational: k, den: d * m };
            proof {
                lemma_complex(a as int, y0 as int, y0p as int, m as int, d as int);
            }
            Solution::Complex { radicand: m, p, q, alpha, beta }
        }
    }

    /// Solves the boundary-value problem: reduces it to the initial-value problem whose
    /// slope meets `y(x1) = y1` through `solutions`, then solves that one.
    pub fn from_boundary(problem: &BoundaryProblem, solutions: &Solutions) -> (r: Result<
        Solution,
        BoundaryError,
    >)
        requires
            solutions.wf(),
        ensures
            match r {
                Ok(s) => problem.reducible(*solutions) && s.solves(problem.reduced(*solutions)),
                Err(e) => !problem.reducible(*solutions) && (e == BoundaryError::Unsolvable
                    <==> solutions.is_degenerate()),
            },
    {
        let initial = problem.reduce(solutions)?;
        Ok(Solution::from_initial(&initial))
    }
}

proof fn lemma_input_bounds(a: int, b: int, y0: int, y0p: int)
    requires
        -0x8000_0000 <= a < 0x8000_0000,
        -0x8000_0000 <= b < 0x8000_0000,
        -0x8000_0000 <= y0 < 0x8000_0000,
        -0x8000_0000 <= y0p < 0x8000_0000,
    ensures
        0 <= a * a <= 0x4000_0000_0000_0000,
        -0x20_0000_0000_0000 <= 4 * b * SCALE <= 0x20_0000_0000_0000,
        -0x20_0000_0000_0000 <= 2 * SCALE * y0p <= 0x20_0000_0000_0000,
        -0x4000_0000_0000_0000 <= a * y0 <= 0x4000_0000_0000_0000,
{
    assert(SCALE == 1_000_000);
    assert(-0x20_0000_0000_0000 <= 2 * SCALE * y0p <= 0x20_0000_0000_0000) by (nonlinear_arith)
        requires -0x8000_0000 <= y0p < 0x8000_0000, SCALE == 1_000_000;
    assert(0 <= a * a <= 0x4000_0000_0000_0000) by (nonlinear_arith)
        requires -0x8000_0000 <= a < 0x8000_0000;
    assert(-0x4000_0000_0000_0000 <= a * y0 <= 0x4000_0000_0000_0000) by (nonlinear_arith)
        requires -0x8000_0000 <= a < 0x8000_0000, -0x8000_0000 <= y0 < 0x8000_0000;
}

proof fn lemma_wide_bounds(y0: int, delta: int)
    requires
        -0x8000_0000 <= y0 < 0x8000_0000,
        -0x8000_0000_0000_0000 <= delta < 0x8000_0000_0000_0000,
    ensures
        -0x4000_0000_0000_0000_0000_0000 <= y0 * delta <= 0x4000_0000_0000_0000_0000_0000,
{
    assert(-0x4000_0000_0000_0000_0000_0000 <= y0 * delta <= 0x4000_0000_0000_0000_0000_0000)
        by (nonlinear_arith)
        requires
            -0x8000_0000 <= y0 < 0x8000_0000,
            -0x8000_0000_0000_0000 <= delta < 0x8000_0000_0000_0000,
    ;
}

/// With a repeated root `r0 = −a/2`, `alpha = y0′ − y0·r0` gives `alpha + y0·r0 = y0′`.
proof fn lemma_simple(a: int, y0: int, y0p: int, d: int)
    ensures
        same_value(
            sum((2 * d * y0p + a * y0, 0, 2 * d * d), product((y0, 0, d), (-a, 0, 2 * d), 0)),
            (y0p, 0, d),
        ),
{
    let k = 2 * d * y0p + a * y0;
    let e = 2 * d * d;
    let f = d * (2 * d);
    let x = y0 * -a + 0 * (0 * 0);
    assert(x == -(a * y0) && f == e) by (nonlinear_arith)
        requires x == y0 * -a + 0 * (0 * 0), f == d * (2 * d), e == 2 * d * d;
    assert(k * f + x * e == 2 * d * y0p * e) by (nonlinear_arith)
        requires k == 2 * d * y0p + a * y0, x == -(a * y0), f == e;
    assert(2 * d * y0p * e * d == y0p * (e * f)) by (nonlinear_arith)
        requires e == 2 * d * d, f == e;
    assert((0 * f + (y0 * 0 + 0 * -a) * e) * d == 0 * (e * f)) by (nonlinear_arith);
}

/// With distinct roots `(−a ± √n)/2`, the two coefficients match `y(0)` and `y′(0)`.
proof fn lemma_double(a: int, y0: int, y0p: int, n: int, d: int)
    ensures
        ({
            let k = 2 * d * y0p + a * y0;
            let alpha = (y0 * n, k, 2 * d * n);
            let beta = (y0 * n, -k, 2 * d * n);
            &&& same_value(sum(alpha, beta), (y0, 0, d))
            &&& same_value(
                sum(product(alpha, (-a, 1, 2 * d), n), product(beta, (-a, -1, 2 * d), n)),
                (y0p, 0, d),
            )
        }),
{
    let k = 2 * d * y0p + a * y0;
    let w = 2 * d * n;
    assert((y0 * n * w + y0 * n * w) * d == y0 * (w * w)) by (nonlinear_arith)
        requires w == 2 * d * n;
    assert((k * w + -k * w) * d == 0 * (w * w)) by (nonlinear_arith);
    let u = 2 * d;
    let x1 = y0 * n * -a + n * (k * 1);
    let i1 = y0 * n * 1 + k * -a;
    let x2 = y0 * n * -a + n * (-k * -1);
    let i2 = y0 * n * -1 + -k * -a;
    let wu = w * u;
    assert(x1 == w * y0p && x2 == w * y0p) by (nonlinear_arith)
        requires
            k == 2 * d * y0p + a * y0,
            w == 2 * d * n,
            x1 == y0 * n * -a + n * (k * 1),
            x2 == y0 * n * -a + n * (-k * -1),
    ;
    assert((w * y0p * wu + w * y0p * wu) * d == y0p * (wu * wu)) by (nonlinear_arith)
        requires wu == w * u, u == 2 * d;
    assert(i1 + i2 == 0) by (nonlinear_arith)
        requires
            i1 == y0 * n * 1 + k * -a,
            i2 == y0 * n * -1 + -k * -a,
    ;
    assert((i1 * wu + i2 * wu) * d == 0 * (wu * wu)) by (nonlinear_arith)
        requires i1 + i2 == 0;
}

/// With complex roots `p ± i·q`, `p = −a/2`, `q = √m/2`: `p·y0 + q·beta = y0′`.
proof fn lemma_complex(a: int, y0: int, y0p: int, m: int, d: int)
    ensures
        ({
            let k = 2 * d * y0p + a * y0;
            same_value(
                sum(product((-a, 0, 2 * d), (y0, 0, d), m), product((0, 1, 2 * d), (0, k, d * m), m)),
                (y0p, 0, d),
            )
        }),
{
    let k = 2 * d * y0p + a * y0;
    let x1 = -a * y0 + m * (0 * 0);
    let x2 = 0 * 0 + m * (1 * k);
    let e1 = 2 * d * d;
    let e2 = 2 * d * (d * m);
    assert(x1 == -(a * y0) && x2 == m * k) by (nonlinear_arith)
        requires x1 == -a * y0 + m * (0 * 0), x2 == 0 * 0 + m * (1 * k);
    assert(x1 * e2 + x2 * e1 == e2 * (2 * d * y0p)) by (nonlinear_arith)
        requires
            k == 2 * d * y0p + a * y0,
            x1 == -(a * y0),
            x2 == m * k,
            e1 == 2 * d * d,
            e2 == 2 * d * (d * m),
    ;
    assert(e2 * (2 * d * y0p) * d == y0p * (e1 * e2)) by (nonlinear_arith)
        requires e1 == 2 * d * d;
    let i1 = -a * 0 + 0 * y0;
    let i2 = 0 * k + 1 * 0;
    assert((i1 * e2 + i2 * e1) * d == 0 * (e1 * e2)) by (nonlinear_arith)
        requires i1 == -a * 0 + 0 * y0, i2 == 0 * k + 1 * 0;
}

} // verus!
