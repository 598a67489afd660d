//! The window and the two mappings between its coordinates and the pixels.

use crate::arith::{lemma_round_magnitude, lemma_round_monotone, mul_div_round, round_div};
use crate::error::ErrorTypes;
use crate::number::{Fixed, Point};
use vstd::prelude::*;

verus! {

/// The pixel to which the coordinate `p` falls on an axis of `size` pixels
/// that shows the logical range from `lo` to `hi`.
pub open spec fn pixel_of(p: int, lo: int, hi: int, size: int) -> int
    recommends
        lo != hi,
{
    round_div((p - lo) * size, hi - lo)
}

/// The coordinate of pixel `i`, counted from the start of the window, on an
/// axis of `size` pixels that shows the logical range from `lo` to `hi`.
pub open spec fn coordinate_of(i: int, lo: int, hi: int, size: int) -> int
    recommends
        size != 0,
{
    round_div(i * (hi - lo), size)
}

/// Whether `v` is a raw value that a number can hold.
pub open spec fn is_raw(v: int) -> bool {
    i64::MIN <= v <= i64::MAX
}

/// Whether the coordinate of every pixel of the axis is a raw value that a
/// number can hold: the last pixel's is the furthest from zero.
pub open spec fn coordinates_fit(lo: int, hi: int, size: int) -> bool {
    size <= 0 || is_raw(coordinate_of(size - 1, lo, hi, size))
}

/// Along an axis a coordinate is no further from zero than that of a later
/// pixel, so where the last one fits all do.
pub proof fn lemma_coordinates_fit(i: int, lo: int, hi: int, size: int)
    requires
        0 <= i < size,
        coordinates_fit(lo, hi, size),
    ensures
        is_raw(coordinate_of(i, lo, hi, size)),
{
    let e = hi - lo;
    let m = if e < 0 { -e } else { e };
    assert(0 <= i * m <= (size - 1) * m) by (nonlinear_arith)
        requires
            0 <= i <= size - 1,
            0 <= m,
    ;
    lemma_round_monotone(i * m, (size - 1) * m, size);
    lemma_round_magnitude(i * m, size);
    lemma_round_magnitude((size - 1) * m, size);
    assert(i * e == i * m || i * e == -(i * m)) by (nonlinear_arith)
        requires
            m == e || m == -e,
    ;
    assert((size - 1) * e == (size - 1) * m || (size - 1) * e == -((size - 1) * m))
        by (nonlinear_arith)
        requires
            m == e || m == -e,
    ;
    assert(e >= 0 ==> i * e == i * m && (size - 1) * e == (size - 1) * m);
    assert(e < 0 ==> i * e == -(i * m) && (size - 1) * e == -((size - 1) * m)) by (nonlinear_arith)
        requires
            m == if e < 0 { -e } else { e },
    ;
}

/// `pixel_of`, where it is an index at all.
pub(crate) fn axis_to_pixel(p: i128, lo: i64, hi: i64, size: usize) -> (pixel: Option<usize>)
    requires
        lo != hi,
        -0x1_0000_0000_0000_0000 <= p <= 0x1_0000_0000_0000_0000,
    ensures
        pixel == if 0 <= pixel_of(p as int, lo as int, hi as int, size as int) <= usize::MAX {
            Some(pixel_of(p as int, lo as int, hi as int, size as int) as usize)
        } else {
            None
        },
{
    match mul_div_round(p - lo as i128, size as u64, hi as i128 - lo as i128) {
        Some(v) => {
            if 0 <= v && v <= usize::MAX as i128 {
                Some(v as usize)
            } else {
                None
            }
        },
        None => None,
    }
}

/// `coordinate_of`, where a number can hold it.
pub(crate) fn axis_to_coordinate(i: usize, lo: i64, hi: i64, size: usize) -> (raw: Option<i64>)
    requires
        size != 0,
    ensures
        raw == if is_raw(coordinate_of(i as int, lo as int, hi as int, size as int)) {
            Some(coordinate_of(i as int, lo as int, hi as int, size as int) as i64)
        } else {
            None
        },
{
    assert((hi - lo) * i == i * (hi - lo)) by (nonlinear_arith);
    match mul_div_round(hi as i128 - lo as i128, i as u64, size as i128) {
        Some(v) => {
            if i64::MIN as i128 <= v && v <= i64::MAX as i128 {
                Some(v as i64)
            } else {
                None
            }
        },
        None => None,
    }
}

/// The part of the logical plane that the whole buffer shows: from `min`,
/// which falls to pixel zero, to `max`, which falls to the pixel just past
/// the last. Where `max` is below `min` on an axis, the axis runs backwards.
#[derive(Clone, Copy, Debug)]
pub struct Window {
    pub min: Point,
    pub max: Point,
}

impl Window {
    /// Whether the window has no extent along one of its axes.
    pub open spec fn degenerate(self) -> bool {
        self.min.x.raw == self.max.x.raw || self.min.y.raw == self.max.y.raw
    }

    /// The pixel of the raw coordinate `x` on a first axis of `width` pixels.
    pub open spec fn pixel_x(self, x: int, width: int) -> int {
        pixel_of(x, self.min.x.raw as int, self.max.x.raw as int, width)
    }

    /// The pixel of the raw coordinate `y` on a second axis of `height` pixels.
    pub open spec fn pixel_y(self, y: int, height: int) -> int {
        pixel_of(y, self.min.y.raw as int, self.max.y.raw as int, height)
    }

    /// The raw coordinate of pixel `i` on a first axis of `width` pixels.
    pub open spec fn coordinate_x(self, i: int, width: int) -> int {
        coordinate_of(i, self.min.x.raw as int, self.max.x.raw as int, width)
    }

    /// The raw coordinate of pixel `j` on a second axis of `height` pixels.
    pub open spec fn coordinate_y(self, j: int, height: int) -> int {
        coordinate_of(j, self.min.y.raw as int, self.max.y.raw as int, height)
    }

    /// The place of pixel `(i, j)` of a buffer of `width` by `height`,
    /// counted from the window's minimum.
    pub open spec fn place(self, i: int, j: int, width: int, height: int) -> Point {
        Point {
            x: Fixed { raw: self.coordinate_x(i, width) as i64 },
            y: Fixed { raw: self.coordinate_y(j, height) as i64 },
        }
    }

    /// Whether the second mapping can be made for every pixel of a buffer of
    /// `width` by `height`.
    pub open spec fn places_fit(self, width: int, height: int) -> bool {
        &&& coordinates_fit(self.min.x.raw as int, self.max.x.raw as int, width)
        &&& coordinates_fit(self.min.y.raw as int, self.max.y.raw as int, height)
    }

    /// What `to_pixel` returns.
    pub open spec fn to_pixel_spec(self, pos: Point, size: Seq<usize>) -> Result<
        (int, int),
        ErrorTypes,
    > {
        let px = self.pixel_x(pos.x.raw as int, size[0] as int);
        let py = self.pixel_y(pos.y.raw as int, size[1] as int);
        if self.degenerate() {
            Err(ErrorTypes::DegenerateTransform)
        } else if 0 <= px <= usize::MAX && 0 <= py <= usize::MAX {
            Ok((px, py))
        } else {
            Err(ErrorTypes::OutOfBoundsWrite)
        }
    }

    /// What `to_logical` returns.
    pub open spec fn to_logical_spec(self, pix: Seq<usize>, size: Seq<usize>) -> Result<
        Point,
        ErrorTypes,
    > {
        let x = self.coordinate_x(pix[0] as int, size[0] as int);
        let y = self.coordinate_y(pix[1] as int, size[1] as int);
        if self.degenerate() || size[0] == 0 || size[1] == 0 {
            Err(ErrorTypes::DegenerateTransform)
        } else if is_raw(x) && is_raw(y) {
            Ok(Point { x: Fixed { raw: x as i64 }, y: Fixed { raw: y as i64 } })
        } else {
            Err(ErrorTypes::CastError)
        }
    }

    /// The pixel to which `pos` falls in a buffer of the size `size_pixels`:
    /// the window's minimum is taken off, the rest is divided by the
    /// window's extent and multiplied by the size, axis by axis, and the
    /// result is rounded to the nearest whole number. The pixel may lie past
    /// the end of the buffer. A window without extent is refused, and so is
    /// a result that is no index: one below zero, or above every index.
    pub fn to_pixel(&self, pos: &Point, size_pixels: [usize; 2]) -> (pixel: Result<
        [usize; 2],
        ErrorTypes,
    >)
        ensures
            match pixel {
                Ok(p) => self.to_pixel_spec(*pos, size_pixels@) == Ok::<(int, int), ErrorTypes>(
                    (p[0] as int, p[1] as int),
                ),
                Err(e) => self.to_pixel_spec(*pos, size_pixels@) == Err::<(int, int), ErrorTypes>(
                    e,
                ),
            },
    {
        if self.min.x.raw == self.max.x.raw || self.min.y.raw == self.max.y.raw {
            return Err(ErrorTypes::DegenerateTransform);
        }
        let px = axis_to_pixel(pos.x.raw as i128, self.min.x.raw, self.max.x.raw, size_pixels[0]);
        let py = axis_to_pixel(pos.y.raw as i128, self.min.y.raw, self.max.y.raw, size_pixels[1]);
        match (px, py) {
            (Some(i), Some(j)) => Ok([i, j]),
            _ => Err(ErrorTypes::OutOfBoundsWrite),
        }
    }

    /// The place of the pixel `pix` of a buffer of the size `size_pixels`,
    /// counted from the window's minimum: the pixel is divided by the size
    /// and multiplied by the window's extent, axis by axis, and rounded to
    /// the nearest number that can be held. A window without extent and a
    /// buffer without pixels are refused, and so is a place that no number
    /// can hold.
    pub fn to_logical(&self, pix: &[usize; 2], size_pixels: [usize; 2]) -> (place: Result<
        Point,
        ErrorTypes,
    >)
        ensures
            place == self.to_logical_spec(pix@, size_pixels@),
    {
        if self.min.x.raw == self.max.x.raw || self.min.y.raw == self.max.y.raw
            || size_pixels[0] == 0 || size_pixels[1] == 0 {
            return Err(ErrorTypes::DegenerateTransform);
        }
        let x = axis_to_coordinate(pix[0], self.min.x.raw, self.max.x.raw, size_pixels[0]);
        let y = axis_to_coordinate(pix[1], self.min.y.raw, self.max.y.raw, size_pixels[1]);
        match (x, y) {
            (Some(x), Some(y)) => Ok(Point { x: Fixed { raw: x }, y: Fixed { raw: y } }),
            _ => Err(ErrorTypes::CastError),
        }
    }

    /// The window's extent along each axis, where numbers can hold it.
    pub fn extent(&self) -> (dx: Result<Point, ErrorTypes>)
        ensures
            match dx {
                Ok(d) => d.x.raw == self.max.x.raw - self.min.x.raw && d.y.raw == self.max.y.raw
                    - self.min.y.raw,
                Err(e) => e == ErrorTypes::CastError && !(is_raw(self.max.x.raw - self.min.x.raw)
                    && is_raw(self.max.y.raw - self.min.y.raw)),
            },
    {
        match (self.max.x.raw.checked_sub(self.min.x.raw), self.max.y.raw.checked_sub(
            self.min.y.raw,
        )) {
            (Some(x), Some(y)) => Ok(Point { x: Fixed { raw: x }, y: Fixed { raw: y } }),
            _ => Err(ErrorTypes::CastError),
        }
    }
}

} // verus!
