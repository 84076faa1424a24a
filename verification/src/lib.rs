//! The verified core of a sphere-tracing renderer.
//!
//! Everything here is integer logic: how a colour becomes a pixel word, how
//! a ray is marched under a step budget, how pixels are laid out in a frame
//! and how many compute workgroups a buffer needs. The numeric side (vectors,
//! distance fields, lighting) is supplied by the caller through closures.

pub mod color;
pub mod march;
pub mod frame;
pub mod dispatch;
