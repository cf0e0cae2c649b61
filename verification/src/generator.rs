//! Generating trajectories, one point at a time or all at once.

use vstd::prelude::*;
use vstd::math::abs;
use crate::derivative::Derivative;
use crate::fixed::Fixed;
use crate::point::{Point, Sample};
use crate::stepper::{advance, Stepper};
use crate::trajectory::{
    ceil_div, heads_for, lemma_orbit_x, lemma_trajectory_length, lemma_trajectory_stops_at_bound,
    lemma_trajectory_steps, lemma_trajectory_unfold, trajectory, whole_steps, within,
};

verus! {

/// Why no trajectory can be generated from the given values.
#[derive(Clone, Copy, Debug, PartialEq, Eq, Structural)]
pub enum TrajectoryError {
    /// The step size is zero, so no step makes way towards the bound.
    ZeroStep,
    /// The bound does not lie ahead of the start in the direction of the
    /// step size.
    BoundNotAhead,
}

/// Whether the step size points from `x_0` towards `x_end`.
pub fn heads_towards(x_0: Fixed, delta: Fixed, x_end: Fixed) -> (b: bool)
    ensures
        b == heads_for(x_0@, delta@, x_end@),
{
    (delta.raw > 0 && x_end.raw > x_0.raw) || (delta.raw < 0 && x_end.raw < x_0.raw)
}

/// Whether one more step from `x` stays within the bound.
fn next_is_within(x: Fixed, delta: Fixed, x_end: Fixed) -> (b: bool)
    ensures
        b == within(x@ + delta@, delta@, x_end@),
{
    let next: i128 = x.raw as i128 + delta.raw as i128;
    if delta.raw > 0 {
        next <= x_end.raw as i128
    } else {
        next >= x_end.raw as i128
    }
}

/// A trajectory that is computed one point at a time: each call of
/// [`Walk::next_point`] takes one step and no more.
pub struct Walk<'a, S: Stepper, F: Derivative> {
    stepper: &'a S,
    f: &'a F,
    delta: Fixed,
    x_end: Fixed,
    /// The point that comes next, until the bound is passed.
    ahead: Option<Point>,
}

impl<'a, S: Stepper, F: Derivative> Walk<'a, S, F> {
    #[verifier::type_invariant]
    spec fn well_formed(self) -> bool {
        self.ahead is Some ==> self.delta@ != 0 && within(
            self.ahead->0.x@,
            self.delta@,
            self.x_end@,
        )
    }

    /// The points that are still to come.
    pub closed spec fn remaining(self) -> Seq<Sample> {
        match self.ahead {
            Some(p) => trajectory(self.stepper, self.f.slope(), p@, self.delta@, self.x_end@),
            None => Seq::empty(),
        }
    }

    /// The trajectory of `dy/dx = f(x, y)` from `start` to the bound `x_end`,
    /// in steps of `delta` taken by `stepper`, with no step taken yet. The
    /// step size has to head for the bound.
    pub fn new(stepper: &'a S, f: &'a F, start: Point, delta: Fixed, x_end: Fixed) -> (walk: Self)
        requires
            heads_for(start.x@, delta@, x_end@),
        ensures
            walk.remaining() == trajectory(stepper, f.slope(), start@, delta@, x_end@),
    {
        Walk { stepper, f, delta, x_end, ahead: Some(start) }
    }

    /// The next point of the trajectory, or `None` once the bound is passed.
    pub fn next_point(&mut self) -> (point: Option<Point>)
        ensures
            old(self).remaining().len() == 0 ==> point is None && final(self).remaining().len()
                == 0,
            old(self).remaining().len() > 0 ==> point is Some && point->0@ == old(
                self,
            ).remaining()[0] && final(self).remaining() == old(self).remaining().drop_first(),
    {
        proof {
            use_type_invariant(&*self);
        }
        match self.ahead {
            None => None,
            Some(p) => {
                proof {
                    lemma_trajectory_unfold(
                        self.stepper,
                        self.f.slope(),
                        p@,
                        self.delta@,
                        self.x_end@,
                    );
                }
                if next_is_within(p.x, self.delta, self.x_end) {
                    let next = self.stepper.step(p.x, p.y, self.f, self.delta);
                    self.ahead = Some(next);
                } else {
                    self.ahead = None;
                    assert(old(self).remaining().drop_first() =~= Seq::<Sample>::empty());
                }
                Some(p)
            },
        }
    }
}

/// The trajectory of `dy/dx = f(x, y)` from `(x_0, y_0)` to the bound
/// `x_end`, in steps of `delta` taken by `stepper`.
///
/// The result starts with `(x_0, y_0)`; each further point is one step
/// beyond the one before it; the last point is the last one whose abscissa
/// has not passed `x_end`. The step size has to head for the bound;
/// [`generate_trajectory`] tests that first.
pub fn calc_pts<S: Stepper, F: Derivative>(
    stepper: &S,
    f: &F,
    x_0: Fixed,
    y_0: Fixed,
    delta: Fixed,
    x_end: Fixed,
) -> (pts: Vec<Point>)
    requires
        heads_for(x_0@, delta@, x_end@),
    ensures
        pts.deep_view() == trajectory(
            stepper,
            f.slope(),
            (Sample { x: x_0@, y: y_0@ }),
            delta@,
            x_end@,
        ),
        pts.len() == whole_steps(x_0@, delta@, x_end@) + 1,
        pts[0] == (Point { x: x_0, y: y_0 }),
        forall|i: int|
            0 < i < pts.len() ==> (#[trigger] pts[i])@ == advance(
                stepper,
                f.slope(),
                pts[i - 1]@,
                delta@,
            ),
        forall|i: int| 0 <= i < pts.len() ==> (#[trigger] pts[i]).x@ == x_0@ + i * delta@,
        forall|i: int| 0 <= i < pts.len() ==> within(#[trigger] pts[i].x@, delta@, x_end@),
        !within(pts[pts.len() - 1].x@ + delta@, delta@, x_end@),
        pts.len() <= ceil_div(abs(x_end@ - x_0@) as int, abs(delta@) as int) + 1,
{
    let ghost t = trajectory(stepper, f.slope(), (Sample { x: x_0@, y: y_0@ }), delta@, x_end@);
    let mut walk = Walk::new(stepper, f, Point { x: x_0, y: y_0 }, delta, x_end);
    let mut pts: Vec<Point> = Vec::new();
    loop
        invariant
            pts.deep_view() + walk.remaining() == t,
        ensures
            pts.deep_view() == t,
        decreases walk.remaining().len(),
    {
        let ghost before = pts.deep_view();
        let ghost rest = walk.remaining();
        match walk.next_point() {
            Some(p) => {
                pts.push(p);
                assert(pts.deep_view() =~= before.push(p@));
                assert(before.push(rest[0]) + rest.drop_first() =~= before + rest);
            },
            None => {
                assert(before + rest =~= before);
                break ;
            },
        }
    }
    proof {
        lemma_trajectory_stops_at_bound(stepper, f.slope(), x_0, y_0, delta, x_end);
        lemma_trajectory_length(stepper, f.slope(), x_0, y_0, delta, x_end);
        lemma_trajectory_steps(
            stepper,
            f.slope(),
            (Sample { x: x_0@, y: y_0@ }),
            delta@,
            x_end@,
        );
        assert(pts.len() == t.len());
        assert(pts[0]@ == t[0]);
        assert forall|i: int| 0 < i < pts.len() implies (#[trigger] pts[i])@ == advance(
            stepper,
            f.slope(),
            pts[i - 1]@,
            delta@,
        ) by {
            assert(pts[i]@ == t[i] && pts[i - 1]@ == t[i - 1]);
        }
        assert forall|i: int| 0 <= i < pts.len() implies (#[trigger] pts[i]).x@ == x_0@ + i
            * delta@ by {
            assert(pts[i]@ == t[i]);
            lemma_orbit_x(
                stepper,
                f.slope(),
                (Sample { x: x_0@, y: y_0@ }),
                delta@,
                x_end@,
                i as nat,
            );
        }
        assert forall|i: int| 0 <= i < pts.len() implies within(
            #[trigger] pts[i].x@,
            delta@,
            x_end@,
        ) by {
            assert(pts[i]@.x == t[i].x);
        }
        assert(pts[pts.len() - 1]@ == t.last());
    }
    pts
}

/// The trajectory from `start` to the bound `x_end`, or the reason why the
/// step size does not head for the bound.
pub fn generate_trajectory<S: Stepper, F: Derivative>(
    stepper: &S,
    f: &F,
    start: Point,
    delta: Fixed,
    x_end: Fixed,
) -> (res: Result<Vec<Point>, TrajectoryError>)
    ensures
        res is Ok <==> heads_for(start.x@, delta@, x_end@),
        res matches Ok(pts) ==> pts.deep_view() == trajectory(
            stepper,
            f.slope(),
            start@,
            delta@,
            x_end@,
        ),
        res == Err::<Vec<Point>, TrajectoryError>(TrajectoryError::ZeroStep) <==> delta@ == 0,
        res == Err::<Vec<Point>, TrajectoryError>(TrajectoryError::BoundNotAhead) <==> delta@ != 0
            && !heads_for(start.x@, delta@, x_end@),
{
    if delta.raw == 0 {
        Err(TrajectoryError::ZeroStep)
    } else if !heads_towards(start.x, delta, x_end) {
        Err(TrajectoryError::BoundNotAhead)
    } else {
        Ok(calc_pts(stepper, f, start.x, start.y, delta, x_end))
    }
}

} // verus!
