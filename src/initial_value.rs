//! The initial-value problem `y'' + a·y' + b·y = 0`, `y(0) = y0`, `y'(0) = y0_prime`.
use vstd::prelude::*;

use crate::math::{abs, EPSILON_DEN, EPSILON_NUM, SCALE};

verus! {

/// Coefficients and initial conditions, each as an integer count of millionths:
/// the real value of `a` is `a / SCALE`, and likewise for the other fields.
#[derive(Clone, Copy, Debug, PartialEq, Eq, Structural)]
pub struct Problem {
    pub a: i32,
    pub b: i32,
    pub y0: i32,
    pub y0_prime: i32,
}

impl Problem {
    /// Numerator of the discriminant `a² − 4b`, whose denominator is `SCALE²`.
    pub open spec fn discriminant(&self) -> int {
        self.a * self.a - 4 * self.b * SCALE
    }

    /// The discriminant lies within the tolerance `EPSILON_NUM / EPSILON_DEN` of zero,
    /// so the characteristic equation is taken to have a repeated root.
    pub open spec fn has_repeated_root(&self) -> bool {
        abs(self.discriminant()) * EPSILON_DEN < EPSILON_NUM * (SCALE * SCALE)
    }
}

} // verus!
