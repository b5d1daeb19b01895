//! A bounded 2D particle simulation: circular particles move at constant
//! velocity inside a fixed rectangular arena, bounce off its edges, and
//! exchange velocity corrections on pairwise overlap.
//!
//! All coordinates are fixed-point numbers: an `i64` holds the underlying
//! quantity multiplied by [`SCALE`], so one simulated unit is `SCALE`.

use vstd::prelude::*;

pub mod geom;
pub mod laws;
pub mod math;
pub mod engine;
pub mod particle;
pub mod rng;

verus! {

/// Fixed-point scale: an `i64` coordinate holds the simulated quantity
/// multiplied by this factor.
pub const SCALE: i64 = 1024;

/// Largest magnitude a direction component can take. Setup draws components
/// in `[0, 2 * SCALE)`; reflection only negates them; a collision response
/// leaves components within `SCALE`. So the bound is invariant.
pub const DIR_MAX: i64 = 2 * SCALE;

/// Largest radius a particle may be created with.
pub const RADIUS_MAX: i64 = 1048576;

/// Largest position magnitude a tick accepts on entry.
pub const POS_LIMIT: i64 = 268435456;

/// Largest particle count a tick accepts; `COUNT_LIMIT * DIR_MAX` equals
/// [`MOVE_BUDGET`].
pub const COUNT_LIMIT: usize = 131072;

/// Largest total distance one particle can travel during a tick: one
/// translation plus one re-translation per collision, each of at most
/// `DIR_MAX` per coordinate, for at most `COUNT_LIMIT` movements.
pub const MOVE_BUDGET: i64 = 268435456;

/// Bound on every position coordinate throughout a tick that starts within
/// [`POS_LIMIT`]; all intermediate arithmetic stays within `i64` under it.
pub const POS_SAFE: i64 = POS_LIMIT + MOVE_BUDGET;

/// Negation of a scalar, written as multiplication by minus one in the
/// boundary-reflection rule.
pub fn invert(value: i64) -> (r: i64)
    requires
        value > i64::MIN,
    ensures
        r == -value,
{
    -value
}

} // verus!
