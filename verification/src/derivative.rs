//! Right-hand sides of equations `dy/dx = f(x, y)`.

use vstd::prelude::*;
use crate::fixed::Fixed;

verus! {

/// The right-hand side `f` of an equation `dy/dx = f(x, y)`: a pure, total
/// function from a point to the slope of the solution through it.
pub trait Derivative {
    /// The function `f`, from the counts of `x` and `y` to the count of the
    /// slope.
    spec fn slope(&self) -> spec_fn(int, int) -> int;

    /// The slope at `(x, y)`.
    fn eval(&self, x: Fixed, y: Fixed) -> (k: Fixed)
        ensures
            k@ == (self.slope())(x@, y@),
    ;
}

/// Exponential growth, `dy/dx = y`, whose solution through `(0, 1)` is the
/// exponential function.
#[derive(Clone, Copy, Debug)]
pub struct Growth;

impl Derivative for Growth {
    open spec fn slope(&self) -> spec_fn(int, int) -> int {
        |x: int, y: int| y
    }

    fn eval(&self, x: Fixed, y: Fixed) -> (k: Fixed) {
        y
    }
}

/// Whether `f` is a pure, total function: it accepts every point and
/// returns one slope for each.
pub open spec fn is_function<F: Fn(Fixed, Fixed) -> Fixed>(f: F) -> bool {
    &&& forall|x: Fixed, y: Fixed| f.requires((x, y))
    &&& forall|x: Fixed, y: Fixed, k1: Fixed, k2: Fixed|
        f.ensures((x, y), k1) && f.ensures((x, y), k2) ==> k1 == k2
}

/// A right-hand side given as a closure or a function.
pub struct SlopeFn<F: Fn(Fixed, Fixed) -> Fixed> {
    f: F,
}

impl<F: Fn(Fixed, Fixed) -> Fixed> SlopeFn<F> {
    #[verifier::type_invariant]
    spec fn is_pure(self) -> bool {
        is_function(self.f)
    }

    /// The function that this value wraps.
    pub closed spec fn inner(self) -> F {
        self.f
    }

    /// Wraps `f`, which has to be a pure, total function.
    pub fn new(f: F) -> (r: Self)
        requires
            is_function(f),
        ensures
            r.inner() == f,
    {
        SlopeFn { f }
    }
}

impl<F: Fn(Fixed, Fixed) -> Fixed> Derivative for SlopeFn<F> {
    open spec fn slope(&self) -> spec_fn(int, int) -> int {
        |x: int, y: int|
            (choose|k: Fixed| #[trigger]
                self.inner().ensures((Fixed { raw: x as i64 }, Fixed { raw: y as i64 }), k))@
    }

    fn eval(&self, x: Fixed, y: Fixed) -> (k: Fixed)
        ensures
            self.inner().ensures((x, y), k),
    {
        proof {
            use_type_invariant(self);
        }
        (self.f)(x, y)
    }
}

} // verus!
