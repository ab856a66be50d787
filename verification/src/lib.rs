//! A pseudo-3D kart-track renderer: a trailing camera projects world points
//! onto a pixel buffer, a procedurally curving road is rasterized scanline by
//! scanline, and vehicle sprites are composited far-to-near.
//!
//! All geometry is carried in fixed-point integers: world lengths are plain
//! units, angles are steps of a full turn split into `TURN` parts, and
//! trigonometric values are scaled by `TRIG_ONE`.

pub mod num;
pub mod trig;
pub mod camera;
pub mod track;
pub mod framebuffer;
pub mod background;
pub mod rasterizer;
pub mod sprites;
