//! Figures of rectangles, circles and scalar fields, rendered onto a buffer
//! of pixels.
//!
//! A [`Figure`] holds a window of the logical plane, the elements to show in
//! it and the corner of the origin. [`Figure::render`] draws the elements in
//! their order onto a black [`PixelBuffer`], each over what is there, and
//! mirrors the result for the origin. Two mappings lead between the logical
//! plane and the pixels: [`Figure::coordinate_to_pixel`] and
//! [`Figure::pixel_to_coordinate`].
//!
//! Numbers are exact. A [`Fixed`] counts steps of one part in two to the
//! power of thirty-two, and every mapping and every fill is computed on whole
//! numbers, with one rounding where a quotient is taken. What a picture holds
//! is therefore stated in the contracts to the pixel.
//!
//! ```ignore
//! use vizzavi::{Circle, CmapGreys, Figure, Fixed, Point};
//!
//! let mut figure: Figure<fn(Point) -> Option<Fixed>, CmapGreys> = Figure::new();
//! figure.set_xlim([Fixed::from_int(0), Fixed::from_int(400)]);
//! figure.set_ylim([Fixed::from_int(0), Fixed::from_int(300)]);
//! figure.add_element(
//!     Circle { middle: Point::from_ints(150, 200), radius: Fixed::from_int(30), color: [200, 0, 0] }
//!         .into(),
//! );
//! let picture = figure.render([400, 300]);
//! ```

pub mod arith;
pub mod backend;
pub mod canvas;
pub mod element;
pub mod error;
pub mod figure;
pub mod laws;
pub mod number;
pub mod window;

pub use crate::canvas::{Color, PixelBuffer, Raster};
pub use crate::element::{Circle, CmapGreys, ColorMap, Element, ElementKind, Rectangle, Triangle};
pub use crate::error::{ErrorTypes, FailedElement, RenderError, Result};
pub use crate::figure::{Figure, Origin};
pub use crate::number::{Fixed, Point, ONE_RAW};
pub use crate::window::Window;
