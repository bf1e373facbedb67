//! Range checks for the numeric hyperparameters accepted at the boundary.

use vstd::prelude::*;
use crate::rat::{rat_le, rat_lt, rat_one, rat_zero, Rat};

verus! {

/// An episode count is valid when it is strictly positive.
pub fn episodes(v: i32) -> (r: bool)
    ensures
        r == (v > 0),
{
    v > 0
}

/// A trace-decay rate is valid when it lies in `[0, 1]`.
pub fn lambda(v: Rat) -> (r: bool)
    requires
        v.wf(),
    ensures
        r == (rat_le(rat_zero(), v) && rat_le(v, rat_one())),
{
    let zero = Rat::of_int(0);
    let one = Rat::of_int(1);
    !v.lt(zero) && !one.lt(v)
}

/// An exploration rate is valid when it lies in `[0, 1]`.
pub fn epsilon(v: Rat) -> (r: bool)
    requires
        v.wf(),
    ensures
        r == (rat_le(rat_zero(), v) && rat_le(v, rat_one())),
{
    let zero = Rat::of_int(0);
    let one = Rat::of_int(1);
    !v.lt(zero) && !one.lt(v)
}

/// A learning step size is valid when it is strictly positive.
pub fn step_size(v: Rat) -> (r: bool)
    requires
        v.wf(),
    ensures
        r == rat_lt(rat_zero(), v),
{
    let zero = Rat::of_int(0);
    zero.lt(v)
}

} // verus!
