//! Fixed-step numerical solution of first-order ordinary differential
//! equations `dy/dx = f(x, y)`.
//!
//! A solution is traced from a starting point in steps of a signed size
//! `delta`, by forward Euler or by the classical Runge-Kutta rule of order
//! four, until its abscissa would pass a bound. All numbers are decimal
//! fixed-point numbers, so every result is determined by the inputs alone.
//!
//! - [`fixed`]: the numbers and their arithmetic;
//! - [`point`]: points of the plane;
//! - [`derivative`]: right-hand sides `f`;
//! - [`stepper`]: the two single-step rules;
//! - [`trajectory`]: what a trajectory is, and what holds of every
//!   trajectory;
//! - [`generator`]: computing trajectories, one point at a time or all at
//!   once.

pub mod derivative;
pub mod fixed;
pub mod generator;
pub mod point;
pub mod stepper;
pub mod trajectory;
