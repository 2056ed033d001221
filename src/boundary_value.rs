//! The boundary-value problem `y(0) = y0`, `y(x1) = y1`, reduced to an initial-value one.
//!
//! For fixed `a`, `b` and `y0`, the value `y(x1)` is an affine function of the unknown
//! initial slope, so the slope is found by solving one linear equation.
use vstd::arithmetic::div_mod::{
    lemma_fundamental_div_mod, lemma_fundamental_div_mod_converse, lemma_mod_pos_bound,
};
use vstd::prelude::*;

use crate::initial_value::Problem as InitialProblem;
use crate::math::{
    abs, approx_zero, is_approx_zero, product, same_value, sum, Ratio, EPSILON_DEN, EPSILON_NUM,
    SCALE, WIDE,
};

verus! {

/// Largest denominator accepted for an affine coefficient (2^40, above 10^12).
pub const COEFF_DEN_MAX: i128 = 0x100_0000_0000;

/// Coefficients and boundary values, each as an integer count of millionths, with `x1 ≠ 0`.
#[derive(Clone, Copy, Debug, PartialEq, Eq, Structural)]
pub struct Problem {
    pub a: i32,
    pub b: i32,
    pub y0: i32,
    pub y1: i32,
    pub x1: i32,
}

/// Why a boundary-value problem was not reduced.
#[derive(Clone, Copy, Debug, PartialEq, Eq, Structural)]
pub enum BoundaryError {
    /// `y(x1)` does not depend on the initial slope (up to the tolerance): the boundary
    /// condition has no solution or no unique one.
    Unsolvable,
    /// The slope that meets the boundary condition does not fit in an `i32` of millionths.
    OutOfRange,
}

/// `y(x1) = c.0·s + c.1` for the initial slope `s`, given `a`, `b`, `y0` and `x1`.
/// The coefficients hold exponentials, sines and cosines at `x1`, computed by the caller.
#[derive(Clone, Copy, Debug)]
pub struct Solutions {
    pub c: (Ratio, Ratio),
}

/// The zero tolerance, `EPSILON_NUM / EPSILON_DEN`.
pub open spec fn tolerance() -> Ratio {
    Ratio { num: EPSILON_NUM, den: EPSILON_DEN }
}

impl Solutions {
    /// Positive denominators of at most `COEFF_DEN_MAX`, numerators within `WIDE`.
    pub open spec fn wf(&self) -> bool {
        &&& 0 < self.c.0.den <= COEFF_DEN_MAX
        &&& 0 < self.c.1.den <= COEFF_DEN_MAX
        &&& -WIDE <= self.c.0.num <= WIDE
        &&& -WIDE <= self.c.1.num <= WIDE
    }

    /// `c.0` is zero up to the tolerance.
    pub open spec fn is_degenerate(&self) -> bool {
        approx_zero(self.c.0, tolerance())
    }

    /// Numerator of `(y1 − c.1) / c.0` in millionths, over `slope_den`.
    pub open spec fn slope_num(&self, y1: int) -> int {
        let n = (y1 * self.c.1.den - self.c.1.num * SCALE) * self.c.0.den;
        if self.c.0.num < 0 {
            -n
        } else {
            n
        }
    }

    /// Positive denominator of `(y1 − c.1) / c.0` in millionths.
    pub open spec fn slope_den(&self) -> int {
        self.c.1.den * abs(self.c.0.num as int)
    }

    /// The slope that meets `y(x1) = y1`, rounded down to a millionth.
    pub open spec fn slope(&self, y1: int) -> int {
        self.slope_num(y1) / self.slope_den()
    }

    /// `c.0·s + c.1`: the value at `x1` of the solution with initial slope `s` (in millionths).
    pub open spec fn value_at(&self, s: int) -> (int, int, int) {
        sum(product(self.c.0.as_surd(), (s, 0, SCALE as int), 0), self.c.1.as_surd())
    }

    /// Numerator of `value_at(s)` over the denominator `SCALE·c.0.den·c.1.den`.
    pub open spec fn value_num(&self, s: int) -> int {
        self.c.0.num * s * self.c.1.den + self.c.1.num * SCALE * self.c.0.den
    }

    /// `c.0·s + c.1 − y1` for `s` and `y1` in millionths, times `SCALE·c.0.den·c.1.den`.
    pub open spec fn miss(&self, s: int, y1: int) -> int {
        self.value_num(s) - y1 * self.c.0.den * self.c.1.den
    }

    /// The value at `x1` for the initial slope `s` (in millionths), exactly; `None` when
    /// its numerator over `SCALE·c.0.den·c.1.den` does not fit in an `i128`.
    pub fn y1(&self, s: i32) -> (r: Option<Ratio>)
        requires
            self.wf(),
        ensures
            match r {
                Some(v) => v.wf() && same_value(v.as_surd(), self.value_at(s as int)),
                None => !(i128::MIN <= self.c.0.num * s * self.c.1.den <= i128::MAX) || !(i128::MIN
                    <= self.value_num(s as int) <= i128::MAX),
            },
    {
        let c0 = self.c.0;
        let c1 = self.c.1;
        let d = SCALE as i128;
        proof {
            lemma_value_bounds(s as int, c0, c1);
        }
        let first = match (c0.num * s as i128).checked_mul(c1.den) {
            Some(v) => v,
            None => return None,
        };
        let num = match first.checked_add(c1.num * d * c0.den) {
            Some(v) => v,
            None => return None,
        };
        let den = d * c0.den * c1.den;
        proof {
            let (c0n, c0d, c1n, c1d) = (c0.num as int, c0.den as int, c1.num as int, c1.den as int);
            let si = s as int;
            let di = d as int;
            let x = self.value_at(si);
            assert(x == ((c0n * si + 0 * (0 * 0)) * c1d + c1n * (c0d * di), (c0n * 0 + 0 * si) * c1d
                + 0 * (c0d * di), c0d * di * c1d));
            assert(num * x.2 == x.0 * den && 0 * x.2 == x.1 * den && den > 0) by (nonlinear_arith)
                requires
                    num == c0n * si * c1d + c1n * di * c0d,
                    den == di * c0d * c1d,
                    x.0 == (c0n * si + 0 * (0 * 0)) * c1d + c1n * (c0d * di),
                    x.1 == (c0n * 0 + 0 * si) * c1d + 0 * (c0d * di),
                    x.2 == c0d * di * c1d,
                    di > 0,
                    c0d > 0,
                    c1d > 0,
            ;
        }
        Some(Ratio { num, den })
    }

    /// Solves `c.0·s + c.1 = y1` for the slope `s`, in millionths rounded down.
    pub fn initial_slope(&self, y1: i32) -> (r: Result<i32, BoundaryError>)
        requires
            self.wf(),
        ensures
            self.is_degenerate() ==> r == Err::<i32, BoundaryError>(BoundaryError::Unsolvable),
            !self.is_degenerate() && i32::MIN <= self.slope(y1 as int) <= i32::MAX ==> r == Ok::<
                i32,
                BoundaryError,
            >(self.slope(y1 as int) as i32),
            !self.is_degenerate() && !(i32::MIN <= self.slope(y1 as int) <= i32::MAX) ==> r
                == Err::<i32, BoundaryError>(BoundaryError::OutOfRange),
    {
        let c0 = self.c.0;
        let c1 = self.c.1;
        if is_approx_zero(c0, Ratio { num: EPSILON_NUM, den: EPSILON_DEN }) {
            return Err(BoundaryError::Unsolvable);
        }
        let d = SCALE as i128;
        proof {
            lemma_slope_bounds(y1 as int, c0, c1);
        }
        assert(EPSILON_NUM == 1 && EPSILON_DEN == 10_000_000_000);
        assert(!approx_zero(c0, tolerance()));
        assert(c0.num != 0) by (nonlinear_arith)
            requires
                !(abs(c0.num as int) * 10_000_000_000 < 1 * c0.den),
                c0.den > 0,
        ;
        let ghost c1d = c1.den as int;
        let ghost c0n = c0.num as int;
        assert(c1d * c0n != 0 && (c1d * c0n < 0 <==> c0n < 0) && c1d * -c0n == -(c1d * c0n))
            by (nonlinear_arith)
            requires c1d > 0, c0n != 0;
        let mut n = (y1 as i128 * c1.den - c1.num * d) * c0.den;
        let mut m = c1.den * c0.num;
        if m < 0 {
            n = -n;
            m = -m;
        }
        assert(n == self.slope_num(y1 as int) && m == self.slope_den() && m > 0);
        let q: i128 = if n >= 0 {
            ((n as u128) / (m as u128)) as i128
        } else {
            let t = ((-n) as u128 + (m as u128 - 1)) / (m as u128);
            proof {
                let x: int = -(n as int) + m as int - 1;
                let mi = m as int;
                let ti = t as int;
                lemma_fundamental_div_mod(x, mi);
                lemma_mod_pos_bound(x, mi);
                let r: int = x % mi;
                assert(ti == x / mi);
                assert(n == -ti * mi + (mi - 1 - r)) by (nonlinear_arith)
                    requires x == -(n as int) + mi - 1, x == mi * ti + r;
                lemma_fundamental_div_mod_converse(n as int, mi, -ti, mi - 1 - r);
            }
            -(t as i128)
        };
        assert(q == self.slope(y1 as int));
        if q < i32::MIN as i128 || q > i32::MAX as i128 {
            Err(BoundaryError::OutOfRange)
        } else {
            Ok(q as i32)
        }
    }
}

impl Problem {
    /// The boundary condition determines a slope, and it fits in an `i32` of millionths.
    pub open spec fn reducible(&self, s: Solutions) -> bool {
        !s.is_degenerate() && i32::MIN <= s.slope(self.y1 as int) <= i32::MAX
    }

    /// The initial-value problem whose slope meets `y(x1) = y1`.
    pub open spec fn reduced(&self, s: Solutions) -> InitialProblem {
        InitialProblem {
            a: self.a,
            b: self.b,
            y0: self.y0,
            y0_prime: s.slope(self.y1 as int) as i32,
        }
    }

    /// Replaces the condition at `x1` by the initial slope that meets it.
    pub fn reduce(&self, solutions: &Solutions) -> (r: Result<InitialProblem, BoundaryError>)
        requires
            solutions.wf(),
        ensures
            match r {
                Ok(p) => self.reducible(*solutions) && p == self.reduced(*solutions),
                Err(e) => !self.reducible(*solutions) && (e == BoundaryError::Unsolvable
                    <==> solutions.is_degenerate()),
            },
    {
        let y0_prime = solutions.initial_slope(self.y1)?;
        Ok(InitialProblem { a: self.a, b: self.b, y0: self.y0, y0_prime })
    }
}

/// The reduction meets the boundary condition through the affine relation: at the slope
/// found, `c.0·s + c.1` differs from `y1` by less than `|c.0| / SCALE`, the effect of
/// rounding the slope to a millionth.
pub proof fn lemma_reduced_slope_meets_boundary(problem: Problem, solutions: Solutions)
    requires
        solutions.wf(),
        problem.reducible(solutions),
    ensures
        abs(solutions.miss(problem.reduced(solutions).y0_prime as int, problem.y1 as int)) < abs(
            solutions.c.0.num as int,
        ) * solutions.c.1.den,
{
    let y1 = problem.y1 as int;
    let k = solutions.slope(y1);
    let n = solutions.slope_num(y1);
    let m = solutions.slope_den();
    let c0n = solutions.c.0.num as int;
    let c0d = solutions.c.0.den as int;
    let c1n = solutions.c.1.num as int;
    let c1d = solutions.c.1.den as int;
    assert(EPSILON_NUM == 1 && EPSILON_DEN == 10_000_000_000);
    assert(c0n != 0) by (nonlinear_arith)
        requires
            !(abs(c0n) * 10_000_000_000 < 1 * c0d),
            c0d > 0,
    ;
    assert(m > 0) by (nonlinear_arith)
        requires m == c1d * abs(c0n), c1d > 0, c0n != 0;
    lemma_fundamental_div_mod(n, m);
    assert(0 <= n % m < m);
    let r = n % m;
    let e = (y1 * c1d - c1n * SCALE) * c0d;
    let miss = solutions.miss(k, y1);
    assert(miss == c0n * k * c1d - e) by (nonlinear_arith)
        requires
            miss == c0n * k * c1d + c1n * SCALE * c0d - y1 * c0d * c1d,
            e == (y1 * c1d - c1n * SCALE) * c0d,
    ;
    if c0n < 0 {
        assert(miss == r) by (nonlinear_arith)
            requires
                miss == c0n * k * c1d - e,
                n == -e,
                m == c1d * -c0n,
                n == m * k + r,
        ;
    } else {
        assert(miss == -r) by (nonlinear_arith)
            requires
                miss == c0n * k * c1d - e,
                n == e,
                m == c1d * c0n,
                n == m * k + r,
        ;
    }
    assert(m == abs(c0n) * c1d) by (nonlinear_arith)
        requires m == c1d * abs(c0n);
}

proof fn lemma_value_bounds(s: int, c0: Ratio, c1: Ratio)
    requires
        -0x8000_0000 <= s < 0x8000_0000,
        0 < c0.den <= COEFF_DEN_MAX,
        0 < c1.den <= COEFF_DEN_MAX,
        -WIDE <= c0.num <= WIDE,
        -WIDE <= c1.num <= WIDE,
    ensures
        -0x4000_0000_0000_0000_0000_0000 <= c0.num * s <= 0x4000_0000_0000_0000_0000_0000,
        -0x10_0000_0000_0000_0000_0000 <= c1.num * SCALE <= 0x10_0000_0000_0000_0000_0000,
        -0x1000_0000_0000_0000_0000_0000_0000_0000 <= c1.num * SCALE * c0.den
            <= 0x1000_0000_0000_0000_0000_0000_0000_0000,
        0 < SCALE * c0.den <= 0x1000_0000_0000_0000,
        0 < SCALE * c0.den * c1.den <= 0x1000_0000_0000_0000_0000_0000_0000,
{
    assert(-0x4000_0000_0000_0000_0000_0000 <= c0.num * s <= 0x4000_0000_0000_0000_0000_0000)
        by (nonlinear_arith)
        requires -0x8000_0000 <= s < 0x8000_0000, -0x7fff_ffff_ffff_ffff <= c0.num <= 0x7fff_ffff_ffff_ffff;
    assert(SCALE == 1_000_000);
    let t = c1.num * SCALE;
    assert(-0x10_0000_0000_0000_0000_0000 <= t <= 0x10_0000_0000_0000_0000_0000) by (nonlinear_arith)
        requires -0x7fff_ffff_ffff_ffff <= c1.num <= 0x7fff_ffff_ffff_ffff, SCALE == 1_000_000, t == c1.num * SCALE;
    assert(-0x1000_0000_0000_0000_0000_0000_0000_0000 <= t * c0.den
        <= 0x1000_0000_0000_0000_0000_0000_0000_0000) by (nonlinear_arith)
        requires -0x10_0000_0000_0000_0000_0000 <= t <= 0x10_0000_0000_0000_0000_0000, 0 < c0.den <= 0x100_0000_0000;
    let u = SCALE * c0.den;
    assert(0 < u <= 0x1000_0000_0000_0000) by (nonlinear_arith)
        requires SCALE == 1_000_000, 0 < c0.den <= 0x100_0000_0000, u == SCALE * c0.den;
    assert(0 < u * c1.den <= 0x1000_0000_0000_0000_0000_0000_0000) by (nonlinear_arith)
        requires 0 < u <= 0x1000_0000_0000_0000, 0 < c1.den <= 0x100_0000_0000;
}

proof fn lemma_slope_bounds(y1: int, c0: Ratio, c1: Ratio)
    requires
        -0x8000_0000 <= y1 < 0x8000_0000,
        0 < c0.den <= COEFF_DEN_MAX,
        0 < c1.den <= COEFF_DEN_MAX,
        -WIDE <= c0.num <= WIDE,
        -WIDE <= c1.num <= WIDE,
    ensures
        -0x80_0000_0000_0000_0000 <= y1 * c1.den <= 0x80_0000_0000_0000_0000,
        -0x10_0000_0000_0000_0000_0000 <= c1.num * SCALE <= 0x10_0000_0000_0000_0000_0000,
        -0x2000_0000_0000_0000_0000_0000_0000_0000 <= (y1 * c1.den - c1.num * SCALE) * c0.den
            <= 0x2000_0000_0000_0000_0000_0000_0000_0000,
        -0x80_0000_0000_0000_0000_0000_0000 <= c1.den * c0.num <= 0x80_0000_0000_0000_0000_0000_0000,
{
    assert(-0x80_0000_0000_0000_0000 <= y1 * c1.den <= 0x80_0000_0000_0000_0000) by (nonlinear_arith)
        requires -0x8000_0000 <= y1 < 0x8000_0000, 0 < c1.den <= 0x100_0000_0000;
    assert(SCALE == 1_000_000);
    assert(-0x10_0000_0000_0000_0000_0000 <= c1.num * SCALE <= 0x10_0000_0000_0000_0000_0000)
        by (nonlinear_arith)
        requires -0x7fff_ffff_ffff_ffff <= c1.num <= 0x7fff_ffff_ffff_ffff, SCALE == 1_000_000;
    let e = y1 * c1.den - c1.num * SCALE;
    assert(-0x20_0000_0000_0000_0000_0000 <= e <= 0x20_0000_0000_0000_0000_0000);
    assert(-0x2000_0000_0000_0000_0000_0000_0000_0000 <= e * c0.den
        <= 0x2000_0000_0000_0000_0000_0000_0000_0000) by (nonlinear_arith)
        requires
            -0x20_0000_0000_0000_0000_0000 <= e <= 0x20_0000_0000_0000_0000_0000,
            0 < c0.den <= 0x100_0000_0000,
    ;
    assert(-0x80_0000_0000_0000_0000_0000_0000 <= c1.den * c0.num
        <= 0x80_0000_0000_0000_0000_0000_0000) by (nonlinear_arith)
        requires
            0 < c1.den <= 0x100_0000_0000,
            -0x7fff_ffff_ffff_ffff <= c0.num <= 0x7fff_ffff_ffff_ffff,
    ;
}

} // verus!
