//! Core of a single-image viewer: color correction through lookup tables,
//! cyclic navigation over the images of a directory, and the arithmetic that
//! sizes, places and scrolls the display surface.
//!
//! Every quantity is an integer. Magnification is counted in hundredths,
//! color settings in thousandths, lengths in whole pixels.

pub mod arith;
pub mod order;
pub mod rotate;
pub mod pixels;
pub mod color;
pub mod viewport;
pub mod navigator;
pub mod settings;
pub mod session;
pub mod info;
