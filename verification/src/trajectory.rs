//! Trajectories: the points that a stepper visits between a starting point
//! and a bound.
//!
//! A trajectory starts at a given point and goes on in steps of a signed size
//! `delta` for as long as the abscissa has not passed a bound `x_end`. The
//! step size has to head for the bound: `delta * (x_end - x_0) > 0`.

use vstd::prelude::*;
use vstd::math::abs;
use crate::fixed::Fixed;
use crate::point::Sample;
use crate::stepper::{advance, Stepper};

verus! {

/// Whether the step size `delta` points from `x_0` towards `x_end`: it is
/// positive with the bound above the start, or negative with the bound below
/// it. This is the condition `delta * (x_end - x_0) > 0`, as
/// [`lemma_heads_for`] shows.
pub open spec fn heads_for(x_0: int, delta: int, x_end: int) -> bool {
    (delta > 0 && x_0 < x_end) || (delta < 0 && x_end < x_0)
}

/// Whether the abscissa `x` has not passed `x_end` in the direction of
/// `delta`.
pub open spec fn within(x: int, delta: int, x_end: int) -> bool {
    if delta > 0 {
        x <= x_end
    } else {
        x >= x_end
    }
}

/// The number of whole steps of size `|delta|` that fit between `x_0` and
/// `x_end`.
pub open spec fn whole_steps(x_0: int, delta: int, x_end: int) -> int {
    abs(x_end - x_0) as int / abs(delta) as int
}

/// The least integer that is not below `a / d`, for `d > 0`.
pub open spec fn ceil_div(a: int, d: int) -> int
    recommends
        d > 0,
{
    (a + d - 1) / d
}

/// The point that `stepper` reaches from `start` after `i` steps.
pub open spec fn orbit<S: Stepper>(
    stepper: &S,
    g: spec_fn(int, int) -> int,
    start: Sample,
    delta: int,
    i: nat,
) -> Sample
    decreases i,
{
    if i == 0 {
        start
    } else {
        advance(stepper, g, orbit(stepper, g, start, delta, (i - 1) as nat), delta)
    }
}

/// The trajectory from `start` to the bound `x_end`: the start and the
/// points after it, up to the last whole step that does not pass the bound.
pub open spec fn trajectory<S: Stepper>(
    stepper: &S,
    g: spec_fn(int, int) -> int,
    start: Sample,
    delta: int,
    x_end: int,
) -> Seq<Sample> {
    Seq::new(
        (whole_steps(start.x, delta, x_end) + 1) as nat,
        |i: int| orbit(stepper, g, start, delta, i as nat),
    )
}

/// A step size heads for the bound exactly when its product with the
/// distance from the start to the bound is positive.
pub proof fn lemma_heads_for(x_0: int, delta: int, x_end: int)
    by (nonlinear_arith)
    ensures
        heads_for(x_0, delta, x_end) <==> delta * (x_end - x_0) > 0,
{
}

/// For a distance `a >= 0` and a step `d > 0`: `i` steps fit into `a`
/// exactly when `i` is at most the whole quotient `a / d`, which is not
/// negative and not above the quotient rounded up.
proof fn lemma_steps_fit(a: int, d: int, i: int)
    by (nonlinear_arith)
    requires
        a >= 0,
        d > 0,
    ensures
        i * d <= a <==> i <= a / d,
        0 <= a / d <= ceil_div(a, d),
{
    assert(a == d * (a / d) + a % d && 0 <= a % d < d) by {
        vstd::arithmetic::div_mod::lemma_fundamental_div_mod(a, d);
        vstd::arithmetic::div_mod::lemma_mod_bound(a, d);
    }
    assert(a / d <= (a + d - 1) / d) by {
        vstd::arithmetic::div_mod::lemma_div_is_ordered(a, a + d - 1, d);
    }
}

/// `i` steps of `delta` from `x_0` do not pass the bound exactly when `i` is
/// at most the number of whole steps before it.
pub proof fn lemma_within_steps(x_0: int, delta: int, x_end: int, i: int)
    requires
        delta != 0,
        within(x_0, delta, x_end),
    ensures
        within(x_0 + i * delta, delta, x_end) <==> i <= whole_steps(x_0, delta, x_end),
        0 <= whole_steps(x_0, delta, x_end) <= ceil_div(abs(x_end - x_0) as int, abs(delta) as int),
{
    lemma_steps_fit(abs(x_end - x_0) as int, abs(delta) as int, i);
    if delta < 0 {
        assert(i * (-delta) == -(i * delta)) by (nonlinear_arith);
    }
}

/// As long as the steps fit before the bound, the `i`-th point of the orbit
/// lies at `x_0 + i * delta`, and this abscissa has not passed the bound.
pub proof fn lemma_orbit_x<S: Stepper>(
    stepper: &S,
    g: spec_fn(int, int) -> int,
    start: Sample,
    delta: int,
    x_end: int,
    i: nat,
)
    requires
        i64::MIN <= start.x <= i64::MAX,
        i64::MIN <= x_end <= i64::MAX,
        delta != 0,
        within(start.x, delta, x_end),
        i <= whole_steps(start.x, delta, x_end),
    ensures
        orbit(stepper, g, start, delta, i).x == start.x + i * delta,
        within(start.x + i * delta, delta, x_end),
    decreases i,
{
    lemma_within_steps(start.x, delta, x_end, i as int);
    if i > 0 {
        lemma_orbit_x(stepper, g, start, delta, x_end, (i - 1) as nat);
        assert((i - 1) * delta + delta == i * delta) by (nonlinear_arith);
    } else {
        assert(0 * delta == 0) by (nonlinear_arith);
    }
}

/// The orbit from the point one step beyond `start` is the orbit from
/// `start`, one step further on.
pub proof fn lemma_orbit_shift<S: Stepper>(
    stepper: &S,
    g: spec_fn(int, int) -> int,
    start: Sample,
    delta: int,
    i: nat,
)
    ensures
        orbit(stepper, g, advance(stepper, g, start, delta), delta, i) == orbit(
            stepper,
            g,
            start,
            delta,
            i + 1,
        ),
    decreases i,
{
    reveal_with_fuel(orbit, 2);
    if i > 0 {
        lemma_orbit_shift(stepper, g, start, delta, (i - 1) as nat);
    }
}

/// A trajectory is its start, followed by the trajectory from the next
/// point where one more step does not pass the bound, and by nothing where
/// it does.
pub proof fn lemma_trajectory_unfold<S: Stepper>(
    stepper: &S,
    g: spec_fn(int, int) -> int,
    start: Sample,
    delta: int,
    x_end: int,
)
    requires
        i64::MIN <= start.x <= i64::MAX,
        i64::MIN <= x_end <= i64::MAX,
        delta != 0,
        within(start.x, delta, x_end),
    ensures
        ({
            let t = trajectory(stepper, g, start, delta, x_end);
            let next = advance(stepper, g, start, delta);
            &&& t.len() >= 1
            &&& t[0] == start
            &&& within(start.x + delta, delta, x_end) ==> next.x == start.x + delta
                && t.drop_first() == trajectory(stepper, g, next, delta, x_end)
            &&& !within(start.x + delta, delta, x_end) ==> t.len() == 1
        }),
{
    let t = trajectory(stepper, g, start, delta, x_end);
    let next = advance(stepper, g, start, delta);
    let n = whole_steps(start.x, delta, x_end);
    lemma_within_steps(start.x, delta, x_end, 1);
    assert(1 * delta == delta) by (nonlinear_arith);
    if within(start.x + delta, delta, x_end) {
        let rest = trajectory(stepper, g, next, delta, x_end);
        let m = whole_steps(next.x, delta, x_end);
        lemma_within_steps(next.x, delta, x_end, m);
        lemma_within_steps(start.x, delta, x_end, m + 1);
        assert(start.x + (m + 1) * delta == next.x + m * delta) by (nonlinear_arith)
            requires
                next.x == start.x + delta,
        ;
        lemma_within_steps(next.x, delta, x_end, n - 1);
        lemma_within_steps(start.x, delta, x_end, n);
        assert(start.x + n * delta == next.x + (n - 1) * delta) by (nonlinear_arith)
            requires
                next.x == start.x + delta,
        ;
        assert(m == n - 1);
        assert forall|i: int| 0 <= i < rest.len() implies t.drop_first()[i] == rest[i] by {
            lemma_orbit_shift(stepper, g, start, delta, i as nat);
        }
        assert(t.drop_first() =~= rest);
    }
}

/// A trajectory begins with its start, and each later point is one step of
/// the stepper beyond the point before it.
pub proof fn lemma_trajectory_steps<S: Stepper>(
    stepper: &S,
    g: spec_fn(int, int) -> int,
    start: Sample,
    delta: int,
    x_end: int,
)
    requires
        delta != 0,
        within(start.x, delta, x_end),
    ensures
        ({
            let t = trajectory(stepper, g, start, delta, x_end);
            &&& t.len() >= 1
            &&& t[0] == start
            &&& forall|i: int|
                0 < i < t.len() ==> #[trigger] t[i] == advance(stepper, g, t[i - 1], delta)
        }),
{
    lemma_within_steps(start.x, delta, x_end, 0);
}

/// Every point of a trajectory has an abscissa that has not passed the
/// bound, and one step beyond its last point the bound is passed. Where the
/// bound is not the very limit of the range of abscissas, the point that the
/// stepper computes from the last one lies beyond the bound.
pub proof fn lemma_trajectory_stops_at_bound<S: Stepper>(
    stepper: &S,
    g: spec_fn(int, int) -> int,
    x_0: Fixed,
    y_0: Fixed,
    delta: Fixed,
    x_end: Fixed,
)
    requires
        heads_for(x_0@, delta@, x_end@),
    ensures
        ({
            let t = trajectory(stepper, g, (Sample { x: x_0@, y: y_0@ }), delta@, x_end@);
            &&& t.len() >= 1
            &&& t[0] == (Sample { x: x_0@, y: y_0@ })
            &&& forall|i: int| 0 <= i < t.len() ==> within(#[trigger] t[i].x, delta@, x_end@)
            &&& !within(t.last().x + delta@, delta@, x_end@)
            &&& i64::MIN < x_end@ < i64::MAX ==> !within(
                advance(stepper, g, t.last(), delta@).x,
                delta@,
                x_end@,
            )
        }),
{
    let start = Sample { x: x_0@, y: y_0@ };
    let t = trajectory(stepper, g, start, delta@, x_end@);
    let steps = whole_steps(x_0@, delta@, x_end@);
    lemma_within_steps(x_0@, delta@, x_end@, steps + 1);
    assert forall|i: int| 0 <= i < t.len() implies within(#[trigger] t[i].x, delta@, x_end@) by {
        lemma_orbit_x(stepper, g, start, delta@, x_end@, i as nat);
    }
    lemma_orbit_x(stepper, g, start, delta@, x_end@, steps as nat);
    assert((steps + 1) * delta@ == steps * delta@ + delta@) by (nonlinear_arith);
}

/// A trajectory has at most `ceil(|x_end - x_0| / |delta|) + 1` points.
pub proof fn lemma_trajectory_length<S: Stepper>(
    stepper: &S,
    g: spec_fn(int, int) -> int,
    x_0: Fixed,
    y_0: Fixed,
    delta: Fixed,
    x_end: Fixed,
)
    requires
        heads_for(x_0@, delta@, x_end@),
    ensures
        trajectory(stepper, g, (Sample { x: x_0@, y: y_0@ }), delta@, x_end@).len() <= ceil_div(
            abs(x_end@ - x_0@) as int,
            abs(delta@) as int,
        ) + 1,
{
    lemma_within_steps(x_0@, delta@, x_end@, 0);
}

/// Two steppers that start from the same point with the same step size and
/// bound visit the same abscissas: their trajectories have the same length,
/// the same first point, and at every index the same `x`. Only the
/// ordinates after the first may differ.
pub proof fn lemma_stepper_substitution<S1: Stepper, S2: Stepper>(
    first: &S1,
    second: &S2,
    g: spec_fn(int, int) -> int,
    x_0: Fixed,
    y_0: Fixed,
    delta: Fixed,
    x_end: Fixed,
)
    requires
        heads_for(x_0@, delta@, x_end@),
    ensures
        ({
            let a = trajectory(first, g, (Sample { x: x_0@, y: y_0@ }), delta@, x_end@);
            let b = trajectory(second, g, (Sample { x: x_0@, y: y_0@ }), delta@, x_end@);
            &&& a.len() == b.len()
            &&& a.len() >= 1
            &&& a[0] == (Sample { x: x_0@, y: y_0@ })
            &&& b[0] == (Sample { x: x_0@, y: y_0@ })
            &&& forall|i: int| 0 <= i < a.len() ==> (#[trigger] a[i]).x == (#[trigger] b[i]).x
        }),
{
    let start = Sample { x: x_0@, y: y_0@ };
    let a = trajectory(first, g, start, delta@, x_end@);
    let b = trajectory(second, g, start, delta@, x_end@);
    lemma_within_steps(x_0@, delta@, x_end@, 0);
    assert forall|i: int| 0 <= i < a.len() implies (#[trigger] a[i]).x == (#[trigger] b[i]).x by {
        lemma_orbit_x(first, g, start, delta@, x_end@, i as nat);
        lemma_orbit_x(second, g, start, delta@, x_end@, i as nat);
    }
}

/// A trajectory that runs forward from `x_0` in steps of `h` for at least
/// one step, and the trajectory that runs back from its last point in steps
/// of `-h` to the bound `x_0`, have the same length and visit the same
/// abscissas in opposite order; the way back ends at `x_0`.
pub proof fn lemma_direction_symmetry<S1: Stepper, S2: Stepper>(
    forth: &S1,
    back: &S2,
    g: spec_fn(int, int) -> int,
    x_0: Fixed,
    y_0: Fixed,
    h: Fixed,
    x_end: Fixed,
)
    requires
        h@ > 0,
        x_0@ + h@ <= x_end@,
    ensures
        ({
            let out = trajectory(forth, g, (Sample { x: x_0@, y: y_0@ }), h@, x_end@);
            let home = trajectory(back, g, out.last(), -h@, x_0@);
            &&& heads_for(x_0@, h@, x_end@)
            &&& heads_for(out.last().x, -h@, x_0@)
            &&& home.len() == out.len()
            &&& home[0] == out.last()
            &&& home.last().x == x_0@
            &&& forall|i: int|
                0 <= i < out.len() ==> (#[trigger] home[i]).x == out[out.len() - 1 - i].x
        }),
{
    let start = Sample { x: x_0@, y: y_0@ };
    let out = trajectory(forth, g, start, h@, x_end@);
    let n = whole_steps(x_0@, h@, x_end@);
    lemma_within_steps(x_0@, h@, x_end@, 1);
    assert(1 * h@ == h@) by (nonlinear_arith);
    assert(n >= 1);
    lemma_orbit_x(forth, g, start, h@, x_end@, n as nat);
    let turn = out.last();
    assert(turn.x == x_0@ + n * h@);
    assert(n * h@ >= h@) by (nonlinear_arith)
        requires
            n >= 1,
            h@ > 0,
    ;
    let home = trajectory(back, g, turn, -h@, x_0@);
    assert(whole_steps(turn.x, -h@, x_0@) == n) by {
        vstd::arithmetic::div_mod::lemma_div_multiples_vanish(n, h@);
        assert(n * h@ == h@ * n) by (nonlinear_arith);
    }
    assert forall|i: int| 0 <= i < out.len() implies (#[trigger] home[i]).x == out[out.len() - 1
        - i].x by {
        lemma_orbit_x(back, g, turn, -h@, x_0@, i as nat);
        lemma_orbit_x(forth, g, start, h@, x_end@, (n - i) as nat);
        assert(n * h@ + i * (-h@) == (n - i) * h@) by (nonlinear_arith);
    }
    lemma_orbit_x(back, g, turn, -h@, x_0@, n as nat);
    assert(n * h@ + n * (-h@) == 0) by (nonlinear_arith);
}

} // verus!
