//! Turns a byte-packed pixel glyph into a mesh of coloured unit quads.
//!
//! A glyph is a short run of bytes, one bit per pixel. [`Glyph::unpacked`]
//! spreads the bytes into single bits, most significant bit first, and
//! [`Glyph::vertices_indices`] lays one quad per bit on a grid seven cells
//! wide, inked where the bit is set. Every function is verified against the
//! mathematical description in [`bits`] and [`mesh`].

pub mod bits;
pub mod glyph;
pub mod mesh;

pub use glyph::Glyph;
pub use mesh::{Rgb, Vertex};
