//! Closed-form solutions of `y'' + a·y' + b·y = 0` with constant real coefficients.
//!
//! Inputs are exact fixed-point decimals (integer counts of millionths). The
//! coefficients of the closed form are computed exactly, as elements of a
//! quadratic field `(r + i·√n) / d`, and the initial conditions are proved to
//! hold exactly.

pub mod boundary_value;
pub mod initial_value;
pub mod math;
pub mod solution;
pub mod solver;
