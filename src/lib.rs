//! Integer core of a one-sphere ray tracer: ordering helpers and the
//! plain-text PPM encoding of a rendered frame.
pub mod order;
pub mod ppm;

pub use order::max;
pub use ppm::{encode_ppm, pixel_line, ppm_header, FrameError, Rgb};
