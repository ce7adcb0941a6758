//! A precomputed dithering cache engine for a 1-bit e-ink display.
//!
//! A grayscale frame is turned into binary pixels by ordered dithering
//! against a blue-noise threshold texture.  Computing the comparison for
//! every output pixel of every frame is too slow on the target hardware,
//! so the engine materializes a lookup table: for every destination block
//! coordinate and every 8-bit intensity it precomputes the bit-packed 4x4
//! output pattern once, and frames are then rendered by table lookups and
//! bit expansion alone.
//!
//! - [`noise`]: the wrapped threshold texture.
//! - [`pattern`]: the 16-bit block pattern and its bit-order contract.
//! - [`calculator`]: the block dither calculator and the cache builder.
//! - [`cache_store`]: the versioned, optionally compressed cache artifact.
//! - [`dither`]: the runtime ditherer over a prebuilt cache.
//! - [`frame`]: pixel-format conversions around the ditherer.

pub mod cache_store;
pub mod calculator;
pub mod dither;
pub mod frame;
pub mod noise;
pub mod pattern;
