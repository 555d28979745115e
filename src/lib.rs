//! Integer core of a small ray-tracing toolkit: pixel coordinates, a
//! row-major pixel grid, and the PPM image encoders, ASCII and binary.

pub mod canvas;
pub mod coord_2d;
pub mod ppm;
pub mod tuple_kind;
