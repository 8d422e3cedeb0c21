//! Procedural image synthesis by colour diffusion.
//!
//! This crate holds the integer core of the generator: image geometry, a
//! row-major pixel buffer, the neighbour window that each pixel averages,
//! the order in which pixels are filled, seed decoding, and the bitmap
//! encoder. Colours are generic in the buffer, so the floating-point colour
//! arithmetic and the seeded jitter live with the caller.

pub mod bitmap;
pub mod coords;
pub mod generate;
pub mod params;
pub mod pixmap;

pub use bitmap::{bitmap_header, encode_bitmap, encoded_row_length, Rgb8};
pub use coords::{Dimensions, Position};
pub use generate::{fill_order, initial_pixmap, neighbors, Neighbor};
pub use params::{seed_from_bytes, Seed, SeedLengthError, Spread};
pub use pixmap::Pixmap;
