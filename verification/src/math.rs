//! Numeric support for the renderer: trigonometry and the perspective
//! projection pipeline.

pub mod projection;
pub mod trig;
