//! What can go wrong.

use crate::element::ElementKind;
use vstd::prelude::*;

verus! {

/// Why a mapping or a fill was refused.
#[derive(Clone, Copy, Debug, PartialEq, Eq, Structural)]
pub enum ErrorTypes {
    /// A buffer of the requested size cannot be allocated.
    ImageCreation,
    /// A coordinate does not fit the number type.
    CastError,
    /// No fill is defined for this kind of element.
    UnsupportedPrimitive,
    /// The window has no extent along an axis, or the buffer has no pixels
    /// along it, so that the mapping would divide by zero.
    DegenerateTransform,
    /// A mapped corner lies outside the buffer.
    OutOfBoundsWrite,
}

pub type Result<T> = core::result::Result<T, ErrorTypes>;

/// An element of a scene that could not be drawn.
#[derive(Clone, Copy, Debug, PartialEq, Eq, Structural)]
pub struct FailedElement {
    /// Its place in the scene, counted from zero.
    pub index: usize,
    pub kind: ElementKind,
}

/// Why a figure could not be rendered.
#[derive(Clone, Copy, Debug, PartialEq, Eq, Structural)]
pub struct RenderError {
    /// What went wrong.
    pub cause: ErrorTypes,
    /// The element that could not be drawn; `None` where the buffer itself
    /// could not be made.
    pub element: Option<FailedElement>,
}

} // verus!
