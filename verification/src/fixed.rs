//! Decimal fixed-point numbers.
//!
//! A [`Fixed`] holds a real number as a whole count of units of `1 / SCALE`.
//! Its view is that count, as a mathematical integer; the arithmetic of this
//! module is stated over such counts. Sums and products that leave the range
//! of `i64` are held at the limit on the side on which they left it, and a
//! product or quotient that falls between two counts goes to the nearer one.

use vstd::prelude::*;

verus! {

/// Number of units in one whole: values carry nine decimal places.
pub const SCALE: i64 = 1_000_000_000;

/// A bound on the magnitude of a product of two counts: `2^126`.
const PRODUCT_LIMIT: i128 = 0x4000_0000_0000_0000_0000_0000_0000_0000;

/// A real number held as a whole count of units of `1 / SCALE`.
#[derive(Clone, Copy, Debug, PartialEq, Eq, Structural)]
pub struct Fixed {
    pub raw: i64,
}

impl View for Fixed {
    type V = int;

    open spec fn view(&self) -> int {
        self.raw as int
    }
}

/// The count nearest to `v` that an `i64` can hold: `v` itself inside the
/// range, otherwise the limit on the side on which `v` lies.
pub open spec fn saturate(v: int) -> int {
    if v < i64::MIN {
        i64::MIN as int
    } else if v > i64::MAX {
        i64::MAX as int
    } else {
        v
    }
}

/// The integer nearest to `n / d` for a positive `d`; a quotient exactly
/// halfway between two integers goes to the one farther from zero.
pub open spec fn div_round(n: int, d: int) -> int
    recommends
        d > 0,
{
    if n >= 0 {
        (n + d / 2) / d
    } else {
        -((-n + d / 2) / d)
    }
}

/// The count of the sum of the numbers with counts `a` and `b`.
pub open spec fn sum_of(a: int, b: int) -> int {
    saturate(a + b)
}

/// The count of the product of the numbers with counts `a` and `b`.
pub open spec fn product_of(a: int, b: int) -> int {
    saturate(div_round(a * b, SCALE as int))
}

/// The count of the number with count `a` divided by the whole number `n`.
pub open spec fn quotient_of(a: int, n: int) -> int
    recommends
        n > 0,
{
    div_round(a, n)
}

/// A rounded quotient is no farther from zero than its dividend.
pub proof fn lemma_div_round_bounded(n: int, d: int)
    by (nonlinear_arith)
    requires
        d > 0,
    ensures
        n >= 0 ==> 0 <= div_round(n, d) <= n,
        n <= 0 ==> n <= div_round(n, d) <= 0,
{
}

/// The product of two counts has magnitude at most `2^126`.
proof fn lemma_product_fits(a: int, b: int)
    by (nonlinear_arith)
    requires
        i64::MIN <= a <= i64::MAX,
        i64::MIN <= b <= i64::MAX,
    ensures
        -PRODUCT_LIMIT <= a * b <= PRODUCT_LIMIT,
{
}

/// `n / d` rounded to the nearest integer, on machine integers.
fn div_round_wide(n: i128, d: i128) -> (q: i128)
    requires
        0 < d <= i64::MAX,
        -PRODUCT_LIMIT <= n <= PRODUCT_LIMIT,
    ensures
        q == div_round(n as int, d as int),
{
    let half: i128 = d / 2;
    if n >= 0 {
        (n + half) / d
    } else {
        -((-n + half) / d)
    }
}

/// The `i64` nearest to `v`.
fn saturate_wide(v: i128) -> (r: i64)
    ensures
        r == saturate(v as int),
{
    if v < i64::MIN as i128 {
        i64::MIN
    } else if v > i64::MAX as i128 {
        i64::MAX
    } else {
        v as i64
    }
}

impl Fixed {
    /// The number with the given count of units.
    pub fn from_raw(raw: i64) -> (r: Fixed)
        ensures
            r@ == raw,
    {
        Fixed { raw }
    }

    /// The sum `self + rhs`.
    pub fn add(self, rhs: Fixed) -> (sum: Fixed)
        ensures
            sum@ == sum_of(self@, rhs@),
    {
        Fixed { raw: saturate_wide(self.raw as i128 + rhs.raw as i128) }
    }

    /// The product `self * rhs`.
    pub fn mul(self, rhs: Fixed) -> (prod: Fixed)
        ensures
            prod@ == product_of(self@, rhs@),
    {
        proof {
            lemma_product_fits(self@, rhs@);
        }
        let wide: i128 = self.raw as i128 * rhs.raw as i128;
        Fixed { raw: saturate_wide(div_round_wide(wide, SCALE as i128)) }
    }

    /// The quotient `self / n` for a positive whole number `n`.
    pub fn div_int(self, n: i64) -> (quot: Fixed)
        requires
            n > 0,
        ensures
            quot@ == quotient_of(self@, n as int),
    {
        proof {
            lemma_div_round_bounded(self@, n as int);
        }
        Fixed { raw: saturate_wide(div_round_wide(self.raw as i128, n as i128)) }
    }
}

} // verus!
