//! Perceptual image comparison: a colour-distance metric in exact integer
//! arithmetic and a viewport-aware compositor that highlights the pixels
//! whose colours diverge beyond a threshold.

pub mod colour_delta;
pub mod diff;
pub mod grid;
pub mod parse;
pub mod viewport;
