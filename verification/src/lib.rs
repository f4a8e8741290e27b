//! Rendering of animated RGBA rasters as coloured braille glyphs.
//!
//! Each frame is fitted to a pixel budget, resampled, and quantised
//! into 2x4 pixel blocks, one braille cell per block; a fixed-interval
//! scheduler decides which frame is shown and when playback ends.

pub mod fit;
pub mod raster;
pub mod braille;
pub mod resample;
pub mod store;
pub mod playback;
