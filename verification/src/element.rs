//! The elements of a scene and the colour maps of its fields.

use crate::canvas::Color;
use crate::number::{Fixed, Point, ONE_RAW};
use vstd::prelude::*;
use vstd::std_specs::convert::FromSpecImpl;

verus! {

/// An axis-aligned rectangle between two corners, in one colour. It covers
/// the pixels from that of `min` up to, and without, that of `max`.
#[derive(Clone, Copy, Debug)]
pub struct Rectangle {
    pub min: Point,
    pub max: Point,
    pub color: Color,
}

/// A circle about `middle`, in one colour. Its radius is measured in the
/// units of the window on both axes, so that it shows as an ellipse where the
/// axes are scaled differently.
#[derive(Clone, Copy, Debug)]
pub struct Circle {
    pub middle: Point,
    pub radius: Fixed,
    pub color: Color,
}

/// A triangle between three corners, in one colour.
#[derive(Clone, Copy, Debug)]
pub struct Triangle {
    pub points: [Point; 3],
    pub color: Color,
}

/// A way from a number to a colour.
pub trait ColorMap {
    /// The colour of `h` where `min` stands for the lowest and `max` for the
    /// highest value. A map that does not say otherwise shows everything in
    /// black.
    open spec fn color_normalized(&self, h: Fixed, min: Fixed, max: Fixed) -> Seq<u8> {
        seq![0u8, 0u8, 0u8]
    }

    /// The colour of `h` on the range from `min` to `max`.
    fn get_color_normalized(&self, h: Fixed, min: Fixed, max: Fixed) -> (color: Color)
        ensures
            color@ == self.color_normalized(h, min, max),
    ;

    /// The colour of `h` on the range from zero to one.
    fn get_color(&self, h: Fixed) -> (color: Color)
        ensures
            color@ == self.color_normalized(h, Fixed { raw: 0 }, Fixed { raw: ONE_RAW }),
    {
        self.get_color_normalized(h, Fixed::zero(), Fixed::one())
    }
}

/// How far `h` lies from `min` towards `max`, on the scale from 0 to 255:
/// 0 at `min` and before it, 255 at `max` and beyond it, and between them in
/// proportion, the fraction cut off. Where `min` and `max` are one, what lies
/// above them is 255 and the rest 0.
pub open spec fn grey_level(h: int, min: int, max: int) -> int {
    let n = if max < min { min - h } else { h - min };
    let d = if max < min { min - max } else { max - min };
    if d == 0 {
        if h > min { 255 } else { 0 }
    } else if n <= 0 {
        0
    } else if n >= d {
        255
    } else {
        (255 * n) / d
    }
}

/// The range of `grey_level` is that of a byte.
pub proof fn lemma_grey_level_is_byte(h: int, min: int, max: int)
    ensures
        0 <= grey_level(h, min, max) <= 255,
{
    let n = if max < min { min - h } else { h - min };
    let d = if max < min { min - max } else { max - min };
    if d != 0 && 0 < n < d {
        assert(0 <= (255 * n) / d <= 255) by (nonlinear_arith)
            requires
                0 < n < d,
        ;
    }
}

/// The ramp from black to white.
#[derive(Clone, Copy, Debug)]
pub struct CmapGreys;

impl ColorMap for CmapGreys {
    open spec fn color_normalized(&self, h: Fixed, min: Fixed, max: Fixed) -> Seq<u8> {
        let level = grey_level(h.raw as int, min.raw as int, max.raw as int) as u8;
        seq![level, level, level]
    }

    fn get_color_normalized(&self, h: Fixed, min: Fixed, max: Fixed) -> (color: Color) {
        proof {
            lemma_grey_level_is_byte(h.raw as int, min.raw as int, max.raw as int);
        }
        let inverted = max.raw < min.raw;
        let (value, low, high) = (h.raw as i128, min.raw as i128, max.raw as i128);
        let n: i128 = if inverted { low - value } else { value - low };
        let d: i128 = if inverted { low - high } else { high - low };
        let level: u8 = if d == 0 {
            if value > low { 255 } else { 0 }
        } else if n <= 0 {
            0
        } else if n >= d {
            255
        } else {
            ((255 * n) / d) as u8
        };
        let color: Color = [level, level, level];
        assert(color@ =~= self.color_normalized(h, min, max));
        color
    }
}

/// A colour map in a box is the colour map that the box holds, so that the
/// fields of one figure can have maps of different types.
impl<C: ColorMap + ?Sized> ColorMap for Box<C> {
    open spec fn color_normalized(&self, h: Fixed, min: Fixed, max: Fixed) -> Seq<u8> {
        (**self).color_normalized(h, min, max)
    }

    fn get_color_normalized(&self, h: Fixed, min: Fixed, max: Fixed) -> (color: Color) {
        (**self).get_color_normalized(h, min, max)
    }
}

/// The kinds of element.
#[derive(Clone, Copy, Debug, PartialEq, Eq, Structural)]
pub enum ElementKind {
    Rectangle,
    Triangle,
    Circle,
    FuncEval,
}

/// What a figure can show. A `FuncEval` holds a function that gives a
/// number, or nothing, for a place of the logical plane, counted from the
/// window's minimum, and the colour map by which that number is shown.
pub enum Element<F, C> {
    Rectangle(Rectangle),
    Triangle(Triangle),
    Circle(Circle),
    FuncEval(F, C),
}

impl<F: Fn(Point) -> Option<Fixed>, C: ColorMap> Element<F, C> {
    /// Whether the element's function, where it has one, may be called on
    /// every place.
    pub open spec fn callable(self) -> bool {
        self matches Element::FuncEval(func, _) ==> forall|p: Point| call_requires(func, (p,))
    }

    /// Whether the element's function, where it has one, can only ever give
    /// nothing.
    pub open spec fn gives_nothing(self) -> bool {
        self matches Element::FuncEval(func, _) ==> forall|p: Point, r: Option<Fixed>|
            call_ensures(func, (p,), r) ==> r is None
    }

    pub open spec fn kind_spec(self) -> ElementKind {
        match self {
            Element::Rectangle(_) => ElementKind::Rectangle,
            Element::Triangle(_) => ElementKind::Triangle,
            Element::Circle(_) => ElementKind::Circle,
            Element::FuncEval(_, _) => ElementKind::FuncEval,
        }
    }

    /// The element's kind.
    pub fn kind(&self) -> (kind: ElementKind)
        ensures
            kind == self.kind_spec(),
    {
        match self {
            Element::Rectangle(_) => ElementKind::Rectangle,
            Element::Triangle(_) => ElementKind::Triangle,
            Element::Circle(_) => ElementKind::Circle,
            Element::FuncEval(_, _) => ElementKind::FuncEval,
        }
    }
}

impl<F, C> From<Triangle> for Element<F, C> {
    fn from(value: Triangle) -> (element: Self) {
        Element::Triangle(value)
    }
}

impl<F, C> FromSpecImpl<Triangle> for Element<F, C> {
    open spec fn obeys_from_spec() -> bool {
        true
    }

    open spec fn from_spec(value: Triangle) -> Self {
        Element::Triangle(value)
    }
}

impl<F, C> From<Rectangle> for Element<F, C> {
    fn from(value: Rectangle) -> (element: Self) {
        Element::Rectangle(value)
    }
}

impl<F, C> FromSpecImpl<Rectangle> for Element<F, C> {
    open spec fn obeys_from_spec() -> bool {
        true
    }

    open spec fn from_spec(value: Rectangle) -> Self {
        Element::Rectangle(value)
    }
}

impl<F, C> From<Circle> for Element<F, C> {
    fn from(value: Circle) -> (element: Self) {
        Element::Circle(value)
    }
}

impl<F, C> FromSpecImpl<Circle> for Element<F, C> {
    open spec fn obeys_from_spec() -> bool {
        true
    }

    open spec fn from_spec(value: Circle) -> Self {
        Element::Circle(value)
    }
}

} // verus!
