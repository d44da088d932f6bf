//! A deterministic 2D ray-marching engine on a fixed-point integer grid.
//!
//! Probe rays advance in short straight segments through a field of
//! line-segment barriers; each ray reports the distance travelled before it
//! strikes a barrier or exceeds a maximum range. All coordinates are plain
//! integers (a caller picks the grid scale), so every geometric test is exact
//! and every result is a mathematical function of the inputs.

pub mod isqrt;
pub mod space;
pub mod field;
