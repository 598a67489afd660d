//! The ways of turning a scene into pixels.

pub mod bitmap;
