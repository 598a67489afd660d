//! The numbers and places of the logical plane.

use vstd::prelude::*;

verus! {

/// The raw value of the number one: two to the power of thirty-two.
pub const ONE_RAW: i64 = 0x1_0000_0000;

/// A number of the logical plane, held exactly: `raw` counts steps of
/// one part in `ONE_RAW`, so that the number is `raw / ONE_RAW`.
#[derive(Clone, Copy, Debug, PartialEq, Eq, Structural)]
pub struct Fixed {
    pub raw: i64,
}

impl Fixed {
    /// The number zero.
    pub fn zero() -> (n: Fixed)
        ensures
            n.raw == 0,
    {
        Fixed { raw: 0 }
    }

    /// The number one.
    pub fn one() -> (n: Fixed)
        ensures
            n.raw == ONE_RAW,
    {
        Fixed { raw: ONE_RAW }
    }

    /// The whole number `n`.
    pub fn from_int(n: i32) -> (f: Fixed)
        ensures
            f.raw == n * ONE_RAW,
    {
        Fixed { raw: (n as i64) * ONE_RAW }
    }
}

/// A place of the logical plane.
#[derive(Clone, Copy, Debug, PartialEq, Eq, Structural)]
pub struct Point {
    pub x: Fixed,
    pub y: Fixed,
}

impl Point {
    /// The place with the whole coordinates `x` and `y`.
    pub fn from_ints(x: i32, y: i32) -> (p: Point)
        ensures
            p.x.raw == x * ONE_RAW,
            p.y.raw == y * ONE_RAW,
    {
        Point { x: Fixed::from_int(x), y: Fixed::from_int(y) }
    }
}

} // verus!
