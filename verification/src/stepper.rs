//! Single-step integration rules.
//!
//! A rule takes the solution of `dy/dx = f(x, y)` from a point `(x, y)` to a
//! point at `x + delta`. Two rules are given, forward Euler and the classical
//! Runge-Kutta rule of order four; the trajectory generator accepts either,
//! or any other [`Stepper`].

use vstd::prelude::*;
use crate::derivative::Derivative;
use crate::fixed::{product_of, quotient_of, sum_of, Fixed};
use crate::point::{Point, Sample};

verus! {

/// The ordinate that forward Euler reaches from `(x, y)`:
/// `y + delta * g(x, y)`.
pub open spec fn euler_y(g: spec_fn(int, int) -> int, x: int, y: int, delta: int) -> int {
    sum_of(y, product_of(delta, g(x, y)))
}

/// The ordinate that the Runge-Kutta rule reaches from `(x, y)`:
/// `y + (delta / 6) * (k1 + 2 k2 + 2 k3 + k4)` over the four slopes
/// `k1 = g(x, y)`, `k2 = g(x + delta / 2, y + (delta / 2) k1)`,
/// `k3 = g(x + delta / 2, y + (delta / 2) k2)` and
/// `k4 = g(x + delta, y + delta k3)`.
pub open spec fn rk4_y(g: spec_fn(int, int) -> int, x: int, y: int, delta: int) -> int {
    let half = quotient_of(delta, 2);
    let mid = sum_of(x, half);
    let k1 = g(x, y);
    let k2 = g(mid, sum_of(y, product_of(half, k1)));
    let k3 = g(mid, sum_of(y, product_of(half, k2)));
    let k4 = g(sum_of(x, delta), sum_of(y, product_of(delta, k3)));
    let slopes = sum_of(sum_of(sum_of(k1, sum_of(k2, k2)), sum_of(k3, k3)), k4);
    sum_of(y, product_of(quotient_of(delta, 6), slopes))
}

/// A single-step rule: given `(x, y)`, `f` and `delta`, the next point.
///
/// Every rule moves the abscissa by `delta`; rules differ in the ordinate
/// that they reach.
pub trait Stepper {
    /// The ordinate that this rule reaches from `(x, y)` along `g`.
    spec fn next_y(&self, g: spec_fn(int, int) -> int, x: int, y: int, delta: int) -> int;

    /// One step from `(x, y)`.
    fn step<F: Derivative>(&self, x: Fixed, y: Fixed, f: &F, delta: Fixed) -> (next: Point)
        ensures
            next.x@ == sum_of(x@, delta@),
            next.y@ == self.next_y(f.slope(), x@, y@, delta@),
    ;
}

/// The point one step of `stepper` beyond `p`.
pub open spec fn advance<S: Stepper>(
    stepper: &S,
    g: spec_fn(int, int) -> int,
    p: Sample,
    delta: int,
) -> Sample {
    Sample { x: sum_of(p.x, delta), y: stepper.next_y(g, p.x, p.y, delta) }
}

/// One forward Euler step from `(last_x, last_y)`.
pub fn forward_euler_step<F: Derivative>(
    last_x: Fixed,
    last_y: Fixed,
    f: &F,
    delta: Fixed,
) -> (next: Point)
    ensures
        next.x@ == sum_of(last_x@, delta@),
        next.y@ == euler_y(f.slope(), last_x@, last_y@, delta@),
{
    let next_y = last_y.add(delta.mul(f.eval(last_x, last_y)));
    let next_x = last_x.add(delta);
    Point { x: next_x, y: next_y }
}

/// One classical Runge-Kutta step from `(last_x, last_y)`.
pub fn rk4_step<F: Derivative>(
    last_x: Fixed,
    last_y: Fixed,
    f: &F,
    delta: Fixed,
) -> (next: Point)
    ensures
        next.x@ == sum_of(last_x@, delta@),
        next.y@ == rk4_y(f.slope(), last_x@, last_y@, delta@),
{
    let k1 = f.eval(last_x, last_y);
    let h2 = delta.div_int(2);
    let x2 = last_x.add(h2);
    let k2 = f.eval(x2, last_y.add(h2.mul(k1)));
    let k3 = f.eval(x2, last_y.add(h2.mul(k2)));
    let new_x = last_x.add(delta);
    let k4 = f.eval(new_x, last_y.add(delta.mul(k3)));
    let slopes = k1.add(k2.add(k2)).add(k3.add(k3)).add(k4);
    let new_y = last_y.add(delta.div_int(6).mul(slopes));
    Point { x: new_x, y: new_y }
}

/// The forward Euler rule.
#[derive(Clone, Copy, Debug)]
pub struct ForwardEuler;

impl Stepper for ForwardEuler {
    open spec fn next_y(&self, g: spec_fn(int, int) -> int, x: int, y: int, delta: int) -> int {
        euler_y(g, x, y, delta)
    }

    fn step<F: Derivative>(&self, x: Fixed, y: Fixed, f: &F, delta: Fixed) -> (next: Point) {
        forward_euler_step(x, y, f, delta)
    }
}

/// The classical Runge-Kutta rule of order four.
#[derive(Clone, Copy, Debug)]
pub struct Rk4;

impl Stepper for Rk4 {
    open spec fn next_y(&self, g: spec_fn(int, int) -> int, x: int, y: int, delta: int) -> int {
        rk4_y(g, x, y, delta)
    }

    fn step<F: Derivative>(&self, x: Fixed, y: Fixed, f: &F, delta: Fixed) -> (next: Point) {
        rk4_step(x, y, f, delta)
    }
}

} // verus!
