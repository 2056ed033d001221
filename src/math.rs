//! Exact rational helpers and the zero-tolerance policy.
use vstd::prelude::*;

verus! {

/// Number of units in one: an input value `v` is stored as the integer `v · SCALE`.
pub const SCALE: i64 = 1_000_000;

/// Numerator of the absolute tolerance below which a value counts as zero.
pub const EPSILON_NUM: i128 = 1;

/// Denominator of the absolute tolerance below which a value counts as zero (1e-10).
pub const EPSILON_DEN: i128 = 10_000_000_000;

/// Largest magnitude accepted for the numerator or denominator of a tolerance test.
pub const WIDE: i128 = 0x7fff_ffff_ffff_ffff;

/// An exact rational number `num / den`; well formed when `den > 0`.
#[derive(Clone, Copy, Debug, PartialEq, Eq, Structural)]
pub struct Ratio {
    pub num: i128,
    pub den: i128,
}

pub open spec fn abs(x: int) -> int {
    if x < 0 {
        -x
    } else {
        x
    }
}

impl Ratio {
    pub open spec fn wf(&self) -> bool {
        self.den > 0
    }

    /// Both parts are within `WIDE`, so that cross products fit in `i128`.
    pub open spec fn narrow(&self) -> bool {
        -WIDE <= self.num <= WIDE && -WIDE <= self.den <= WIDE
    }
}

/// `|v| < tol`, over exact rationals with positive denominators.
pub open spec fn approx_zero(v: Ratio, tol: Ratio) -> bool {
    abs(v.num as int) * tol.den < tol.num * v.den
}

proof fn lemma_product_bound(x: int, y: int) by (nonlinear_arith)
    requires
        -WIDE <= x <= WIDE,
        -WIDE <= y <= WIDE,
    ensures
        -0x3fff_ffff_ffff_ffff_0000_0000_0000_0001 <= x * y <= 0x3fff_ffff_ffff_ffff_0000_0000_0000_0001,
{
}

/// Whether `val` is zero up to the absolute tolerance `tol`, that is `|val| < tol`.
pub fn is_approx_zero(val: Ratio, tol: Ratio) -> (r: bool)
    requires
        val.wf(),
        tol.wf(),
        val.narrow(),
        tol.narrow(),
    ensures
        r == approx_zero(val, tol),
{
    let n: i128 = if val.num < 0 {
        -val.num
    } else {
        val.num
    };
    proof {
        lemma_product_bound(n as int, tol.den as int);
        lemma_product_bound(tol.num as int, val.den as int);
    }
    n * tol.den < tol.num * val.den
}

/// An exact element `(rational + irrational·√n) / den` of a quadratic field,
/// for a radicand `n` held by whoever owns the value; well formed when `den > 0`.
#[derive(Clone, Copy, Debug, PartialEq, Eq, Structural)]
pub struct Surd {
    pub rational: i128,
    pub irrational: i128,
    pub den: i128,
}

impl View for Surd {
    type V = (int, int, int);

    open spec fn view(&self) -> (int, int, int) {
        (self.rational as int, self.irrational as int, self.den as int)
    }
}

impl Ratio {
    /// The rational number as an element of any quadratic field.
    pub open spec fn as_surd(&self) -> (int, int, int) {
        (self.num as int, 0, self.den as int)
    }
}

/// Sum of two field elements `(r + i·√n) / d`.
pub open spec fn sum(x: (int, int, int), y: (int, int, int)) -> (int, int, int) {
    (x.0 * y.2 + y.0 * x.2, x.1 * y.2 + y.1 * x.2, x.2 * y.2)
}

/// Product of two field elements `(r + i·√n) / d`, using `√n · √n = n`.
pub open spec fn product(x: (int, int, int), y: (int, int, int), n: int) -> (int, int, int) {
    (x.0 * y.0 + n * (x.1 * y.1), x.0 * y.1 + x.1 * y.0, x.2 * y.2)
}

/// The two elements are equal: their rational and irrational parts have equal ratios
/// to their denominators. (For non-zero denominators this implies equal values.)
pub open spec fn same_value(x: (int, int, int), y: (int, int, int)) -> bool {
    x.0 * y.2 == y.0 * x.2 && x.1 * y.2 == y.1 * x.2
}

} // verus!
