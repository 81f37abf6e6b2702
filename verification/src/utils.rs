//! Small value types shared by every module.

use vstd::prelude::*;

verus! {

/// A two-dimensional offset in logical coordinates.
#[derive(Clone, Copy, Debug, PartialEq, Eq, Structural)]
pub struct Point {
    pub x: i32,
    pub y: i32,
}

impl Point {
    /// The point with the given coordinates.
    pub fn new(x: i32, y: i32) -> (point: Point)
        ensures
            point.x == x,
            point.y == y,
    {
        Point { x, y }
    }
}

/// A token that ties a request to the input event that authorised it.
#[derive(Clone, Copy, Debug, PartialEq, Eq, Structural)]
pub struct Serial(pub u32);

/// The error of an operation that met a surface whose root cannot be
/// resolved or which no longer exists.
#[derive(Clone, Copy, Debug, PartialEq, Eq, Structural)]
pub struct DeadResource;

} // verus!
