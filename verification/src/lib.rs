//! Rendering core for edited screen recordings.
//!
//! Given a raw captured frame, a log of pointer events and a visual style,
//! the library computes the zoom viewport, the cursor overlay state and the
//! composited output frame. All temporal and pixel arithmetic is carried out
//! in integer fixed point: fractional quantities (zoom factors, easing
//! values, opacities, animation progress) are held in thousandths, and
//! viewport geometry in thousandths of a pixel.

pub mod background;
pub mod clock;
pub mod color;
pub mod compositor;
pub mod cursor;
pub mod effects;
pub mod events;
pub mod paths;
pub mod project;
pub mod raster;
pub mod zoom;
