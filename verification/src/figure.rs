//! The figure: a window, a scene, and the rendering of the one through the other.

use crate::canvas::{nonzero_product, PixelBuffer, Raster};
use crate::element::{ColorMap, Element};
use crate::error::{ErrorTypes, FailedElement, RenderError};
use crate::number::{Fixed, Point};
use crate::window::Window;
use vstd::prelude::*;

verus! {

/// Which corner of the picture shows the minimum of the logical window.
/// The elements are drawn as if it were the top left one; the finished
/// buffer is then mirrored along the first axis unless the origin is at the
/// left, and along the second axis if it is at the bottom.
#[derive(Clone, Copy, Debug)]
pub struct Origin {
    pub is_left: bool,
    pub is_bottom: bool,
}

impl Default for Origin {
    fn default() -> (origin: Self)
        ensures
            origin.is_left,
            origin.is_bottom,
    {
        Origin { is_left: true, is_bottom: true }
    }
}

impl Origin {
    /// Moves the origin to the other side horizontally.
    pub fn switchx(&mut self)
        ensures
            final(self).is_left == !old(self).is_left,
            final(self).is_bottom == old(self).is_bottom,
    {
        self.is_left = !self.is_left;
    }

    /// Moves the origin to the other side vertically.
    pub fn switchy(&mut self)
        ensures
            final(self).is_bottom == !old(self).is_bottom,
            final(self).is_left == old(self).is_left,
    {
        self.is_bottom = !self.is_bottom;
    }
}

/// Whether `trace` holds the buffer before the first element of `scene` is
/// drawn and after each element is drawn, one over the other in their order.
pub open spec fn drawn_in_order<F: Fn(Point) -> Option<Fixed>, C: ColorMap>(
    window: Window,
    scene: Seq<Element<F, C>>,
    trace: Seq<Raster>,
) -> bool {
    &&& trace.len() == scene.len() + 1
    &&& forall|k: int|
        0 <= k < scene.len() ==> (#[trigger] scene[k]).draws(window, trace[k], trace[k + 1])
}

/// The finished buffer as the corner of the origin shows it: mirrored along
/// the first axis unless the origin is at the left, then along the second
/// axis if the origin is at the bottom.
pub open spec fn mirrored(origin: Origin, raster: Raster) -> Raster {
    let sideways = if origin.is_left { raster } else { raster.flip_first() };
    if origin.is_bottom { sideways.flip_second() } else { sideways }
}

/// Whether `out` can be the picture of `scene`: the elements drawn in their
/// order over a black buffer of `width` by `height`, and the result mirrored
/// for the corner of the origin.
pub open spec fn renders<F: Fn(Point) -> Option<Fixed>, C: ColorMap>(
    window: Window,
    scene: Seq<Element<F, C>>,
    origin: Origin,
    width: nat,
    height: nat,
    out: Raster,
) -> bool {
    exists|trace: Seq<Raster>|
        {
            &&& #[trigger] drawn_in_order(window, scene, trace)
            &&& trace[0] == Raster::blank(width, height)
            &&& out == mirrored(origin, trace.last())
        }
}

/// A window of the logical plane, the elements to show in it, in the order
/// in which they are drawn, and the corner of the origin.
pub struct Figure<F: Fn(Point) -> Option<Fixed>, C: ColorMap> {
    corners_units: Window,
    elements: Vec<Element<F, C>>,
    origin: Origin,
}

impl<F: Fn(Point) -> Option<Fixed>, C: ColorMap> Default for Figure<F, C> {
    fn default() -> (figure: Self)
        ensures
            figure.window().min == (Point { x: Fixed { raw: 0 }, y: Fixed { raw: 0 } }),
            figure.window().max == (Point {
                x: Fixed { raw: crate::number::ONE_RAW },
                y: Fixed { raw: crate::number::ONE_RAW },
            }),
            figure.scene().len() == 0,
            figure.corner().is_left,
            figure.corner().is_bottom,
    {
        Self::new()
    }
}

impl<F: Fn(Point) -> Option<Fixed>, C: ColorMap> Figure<F, C> {
    /// The window.
    pub closed spec fn window(&self) -> Window {
        self.corners_units
    }

    /// The elements, in the order in which they are drawn.
    pub closed spec fn scene(&self) -> Seq<Element<F, C>> {
        self.elements@
    }

    /// The corner of the origin.
    pub closed spec fn corner(&self) -> Origin {
        self.origin
    }

    /// The function of every field of the scene may be called on every
    /// place.
    #[verifier::type_invariant]
    spec fn functions_callable(self) -> bool {
        forall|k: int| 0 <= k < self.elements@.len() ==> (#[trigger] self.elements@[k]).callable()
    }

    /// A figure without elements, on the window from zero to one on both
    /// axes, with the origin at the bottom left.
    pub fn new() -> (figure: Self)
        ensures
            figure.window().min == (Point { x: Fixed { raw: 0 }, y: Fixed { raw: 0 } }),
            figure.window().max == (Point {
                x: Fixed { raw: crate::number::ONE_RAW },
                y: Fixed { raw: crate::number::ONE_RAW },
            }),
            figure.scene().len() == 0,
            figure.corner().is_left,
            figure.corner().is_bottom,
    {
        Figure {
            corners_units: Window {
                min: Point { x: Fixed::zero(), y: Fixed::zero() },
                max: Point { x: Fixed::one(), y: Fixed::one() },
            },
            elements: Vec::new(),
            origin: Origin { is_left: true, is_bottom: true },
        }
    }

    /// Puts `element` at the end of the scene, so that it is drawn over
    /// the elements that are there.
    pub fn add_element(&mut self, element: Element<F, C>)
        requires
            element.callable(),
        ensures
            final(self).scene() == old(self).scene().push(element),
            final(self).window() == old(self).window(),
            final(self).corner() == old(self).corner(),
    {
        proof {
            use_type_invariant(&*self);
        }
        // The scene is taken out while it grows, so that the figure is whole
        // at every step.
        let mut elements: Vec<Element<F, C>> = Vec::new();
        core::mem::swap(&mut elements, &mut self.elements);
        elements.push(element);
        core::mem::swap(&mut elements, &mut self.elements);
    }

    /// Puts at the end of the scene the field of the values of `func`, shown
    /// by `cmap`.
    pub fn color_by_func(&mut self, func: F, cmap: C)
        requires
            forall|p: Point| call_requires(func, (p,)),
        ensures
            final(self).scene() == old(self).scene().push(Element::FuncEval(func, cmap)),
            final(self).window() == old(self).window(),
            final(self).corner() == old(self).corner(),
    {
        self.add_element(Element::FuncEval(func, cmap));
    }

    /// The window.
    pub fn get_window(&self) -> (window: Window)
        ensures
            window == self.window(),
    {
        self.corners_units
    }

    /// The corner of the origin.
    pub fn get_origin(&self) -> (origin: Origin)
        ensures
            origin == self.corner(),
    {
        self.origin
    }

    /// The window's extent along each axis, where numbers can hold it.
    pub fn get_dx(&self) -> (dx: Result<Point, ErrorTypes>)
        ensures
            match dx {
                Ok(d) => d.x.raw == self.window().max.x.raw - self.window().min.x.raw && d.y.raw
                    == self.window().max.y.raw - self.window().min.y.raw,
                Err(e) => e == ErrorTypes::CastError && !(crate::window::is_raw(
                    self.window().max.x.raw - self.window().min.x.raw,
                ) && crate::window::is_raw(self.window().max.y.raw - self.window().min.y.raw)),
            },
    {
        self.corners_units.extent()
    }

    /// The pixel to which `pos` falls in a buffer of the size `size_pixels`;
    /// see `Window::to_pixel`.
    pub fn coordinate_to_pixel(&self, pos: &Point, size_pixels: [usize; 2]) -> (pixel: Result<
        [usize; 2],
        ErrorTypes,
    >)
        ensures
            match pixel {
                Ok(p) => self.window().to_pixel_spec(*pos, size_pixels@) == Ok::<
                    (int, int),
                    ErrorTypes,
                >((p[0] as int, p[1] as int)),
                Err(e) => self.window().to_pixel_spec(*pos, size_pixels@) == Err::<
                    (int, int),
                    ErrorTypes,
                >(e),
            },
    {
        self.corners_units.to_pixel(pos, size_pixels)
    }

    /// The place of the pixel `pix` of a buffer of the size `size_pixels`,
    /// counted from the window's minimum; see `Window::to_logical`.
    pub fn pixel_to_coordinate(&self, pix: &[usize; 2], size_pixels: [usize; 2]) -> (place: Result<
        Point,
        ErrorTypes,
    >)
        ensures
            place == self.window().to_logical_spec(pix@, size_pixels@),
    {
        self.corners_units.to_logical(pix, size_pixels)
    }

    /// Sets the ends of the window along the first axis.
    pub fn set_xlim(&mut self, lims: [Fixed; 2])
        ensures
            final(self).window().min.x == lims[0],
            final(self).window().max.x == lims[1],
            final(self).window().min.y == old(self).window().min.y,
            final(self).window().max.y == old(self).window().max.y,
            final(self).scene() == old(self).scene(),
            final(self).corner() == old(self).corner(),
    {
        proof {
            use_type_invariant(&*self);
        }
        self.corners_units.min.x = lims[0];
        self.corners_units.max.x = lims[1];
    }

    /// Sets the ends of the window along the second axis.
    pub fn set_ylim(&mut self, lims: [Fixed; 2])
        ensures
            final(self).window().min.y == lims[0],
            final(self).window().max.y == lims[1],
            final(self).window().min.x == old(self).window().min.x,
            final(self).window().max.x == old(self).window().max.x,
            final(self).scene() == old(self).scene(),
            final(self).corner() == old(self).corner(),
    {
        proof {
            use_type_invariant(&*self);
        }
        self.corners_units.min.y = lims[0];
        self.corners_units.max.y = lims[1];
    }

    /// The picture of the figure on a buffer of the size `size_pixels`: the
    /// elements are drawn in their order over a black buffer, each over what
    /// is there, and the buffer is then mirrored for the corner of the origin.
    ///
    /// The first element that cannot be drawn ends the rendering; the error
    /// names it and says why. No buffer is made where no allocation can hold
    /// the size.
    pub fn render(&self, size_pixels: [usize; 2]) -> (picture: Result<PixelBuffer, RenderError>)
        ensures
            match picture {
                Ok(buffer) => {
                    &&& buffer@.width == size_pixels[0]
                    &&& buffer@.height == size_pixels[1]
                    &&& nonzero_product(size_pixels[0] as nat, size_pixels[1] as nat, 3)
                        <= isize::MAX
                    &&& forall|k: int|
                        0 <= k < self.scene().len() ==> (#[trigger] self.scene()[k]).fill_error(
                            self.window(),
                            size_pixels[0] as nat,
                            size_pixels[1] as nat,
                        ) is None
                    &&& renders(
                        self.window(),
                        self.scene(),
                        self.corner(),
                        size_pixels[0] as nat,
                        size_pixels[1] as nat,
                        buffer@,
                    )
                },
                Err(RenderError { cause, element: None }) => {
                    &&& cause == ErrorTypes::ImageCreation
                    &&& nonzero_product(size_pixels[0] as nat, size_pixels[1] as nat, 3)
                        > isize::MAX
                },
                Err(RenderError { cause, element: Some(FailedElement { index, kind }) }) => {
                    &&& nonzero_product(size_pixels[0] as nat, size_pixels[1] as nat, 3)
                        <= isize::MAX
                    &&& index < self.scene().len()
                    &&& kind == self.scene()[index as int].kind_spec()
                    &&& self.scene()[index as int].fill_error(
                        self.window(),
                        size_pixels[0] as nat,
                        size_pixels[1] as nat,
                    ) == Some(cause)
                    &&& forall|k: int|
                        0 <= k < index ==> (#[trigger] self.scene()[k]).fill_error(
                            self.window(),
                            size_pixels[0] as nat,
                            size_pixels[1] as nat,
                        ) is None
                },
            },
    {
        proof {
            use_type_invariant(self);
        }
        let mut canvas = match PixelBuffer::new(size_pixels[0], size_pixels[1]) {
            Ok(canvas) => canvas,
            Err(cause) => { return Err(RenderError { cause, element: None }); },
        };
        let ghost width = size_pixels[0] as nat;
        let ghost height = size_pixels[1] as nat;
        let ghost mut trace: Seq<Raster> = seq![canvas@];
        let mut index: usize = 0;
        while index < self.elements.len()
            invariant
                index <= self.elements.len(),
                forall|k: int|
                    0 <= k < self.elements@.len() ==> (#[trigger] self.elements@[k]).callable(),
                width == size_pixels[0],
                height == size_pixels[1],
                nonzero_product(width, height, 3) <= isize::MAX,
                trace.len() == index + 1,
                trace[0] == Raster::blank(width, height),
                trace.last() == canvas@,
                canvas@.width == width,
                canvas@.height == height,
                forall|k: int|
                    0 <= k < index ==> (#[trigger] self.scene()[k]).draws(
                        self.window(),
                        trace[k],
                        trace[k + 1],
                    ),
                forall|k: int|
                    0 <= k < index ==> (#[trigger] self.scene()[k]).fill_error(
                        self.window(),
                        width,
                        height,
                    ) is None,
            decreases self.elements.len() - index,
        {
            let element = &self.elements[index];
            match element.draw_to_axis(self, &mut canvas) {
                Ok(()) => {
                    proof {
                        trace = trace.push(canvas@);
                    }
                },
                Err(cause) => {
                    return Err(
                        RenderError {
                            cause,
                            element: Some(FailedElement { index, kind: element.kind() }),
                        },
                    );
                },
            }
            index += 1;
        }
        let ghost drawn = canvas@;
        if !self.origin.is_left {
            canvas.flip_first();
        }
        if self.origin.is_bottom {
            canvas.flip_second();
        }
        proof {
            assert(drawn_in_order(self.window(), self.scene(), trace));
            assert(canvas@ == mirrored(self.corner(), trace.last()));
        }
        Ok(canvas)
    }

    /// Sets the corner of the origin.
    pub fn set_origin(&mut self, origin: Origin)
        ensures
            final(self).corner() == origin,
            final(self).window() == old(self).window(),
            final(self).scene() == old(self).scene(),
    {
        proof {
            use_type_invariant(&*self);
        }
        self.origin = origin;
    }
}

} // verus!
