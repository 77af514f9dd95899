//! The glyph type and its executable operations.

use crate::bits::{
    bit_at, byte_bits, lemma_shifted_left_leading_bit, lemma_shifted_left_next,
    lemma_shifted_left_range, lemma_unpacked_bits_push, shifted_left, unpacked_bits,
    LEADING_BIT,
};
use crate::mesh::{
    is_mesh_of, lemma_mesh_indices_push, lemma_mesh_lengths, lemma_mesh_offsets_in_bounds,
    lemma_mesh_vertices_push, lemma_quads_colored, lemma_quads_self_contained, mesh_indices,
    mesh_vertices, offsets_in_bounds, own_offsets, quad_has_color, quad_indices, quad_vertices,
    referenced_offsets, shade, Rgb, Vertex, CELL_HALVES, CENTER_HALVES, GRID_COLUMNS, GRID_TOP,
    MAX_GLYPH_BYTES, MAX_QUADS,
};
use vstd::prelude::*;

verus! {

/// A packed bitmap: one bit per pixel, eight pixels per byte.
pub struct Glyph {
    raw: Vec<u8>,
}

impl View for Glyph {
    type V = Seq<u8>;

    /// The bytes of the glyph, in order.
    closed spec fn view(&self) -> Seq<u8> {
        self.raw@
    }
}

impl Glyph {
    /// A glyph without any pixel.
    pub fn new_empty() -> (glyph: Glyph)
        ensures
            glyph@ == Seq::<u8>::empty(),
    {
        Glyph { raw: Vec::new() }
    }

    /// A glyph over the packed bytes `code`.
    pub fn new(code: Vec<u8>) -> (glyph: Glyph)
        ensures
            glyph@ == code@,
    {
        Glyph { raw: code }
    }

    /// The pixels of the glyph as single bits, each 0 or 1: byte after byte,
    /// and within a byte from the most significant bit to the least.
    pub fn unpacked(&self) -> (bits: Vec<u8>)
        ensures
            bits@ == unpacked_bits(self@),
            bits@.len() == 8 * self@.len(),
            forall|i: int| 0 <= i < bits@.len() ==> bits@[i] <= 1,
    {
        Glyph::unpack(&self.raw)
    }

    /// Spreads `bytes` into single bits, each 0 or 1. The bytes keep their
    /// order and each gives eight bits, most significant first, so the bit
    /// at position `i` of the result is bit `i % 8` of byte `i / 8`.
    pub fn unpack(bytes: &Vec<u8>) -> (bits: Vec<u8>)
        ensures
            bits@ == unpacked_bits(bytes@),
            bits@.len() == 8 * bytes@.len(),
            forall|i: int| 0 <= i < bits@.len() ==> bits@[i] <= 1,
    {
        let mut ret: Vec<u8> = Vec::new();
        let mut n: usize = 0;
        while n < bytes.len()
            invariant
                n <= bytes@.len(),
                ret@ == unpacked_bits(bytes@.take(n as int)),
            decreases bytes@.len() - n,
        {
            let mut byte_bits = Glyph::as_bits(&bytes[n]);
            proof {
                lemma_unpacked_bits_push(bytes@.take(n as int), bytes@[n as int]);
                assert(bytes@.take(n as int).push(bytes@[n as int]) == bytes@.take(n + 1));
            }
            ret.append(&mut byte_bits);
            n += 1;
        }
        proof {
            assert(bytes@.take(n as int) == bytes@);
        }
        ret
    }

    /// The mesh of the glyph: its vertices and the offsets of the triangles
    /// over them. Each bit, in unpacking order, gives the four corners of its
    /// cell, inked where the bit is 1, and two triangles over those corners.
    ///
    /// Triangle offsets are sixteen bits wide, which bounds the glyph to
    /// [`MAX_GLYPH_BYTES`] bytes.
    pub fn vertices_indices(&self) -> (mesh: (Vec<Vertex>, Vec<u16>))
        requires
            self@.len() <= MAX_GLYPH_BYTES,
        ensures
            is_mesh_of(self@, mesh.0@, mesh.1@),
            mesh.0@.len() == 4 * unpacked_bits(self@).len(),
            mesh.1@.len() == 6 * unpacked_bits(self@).len(),
            offsets_in_bounds(mesh.0@, mesh.1@),
            forall|i: int|
                0 <= i < unpacked_bits(self@).len() ==> #[trigger] referenced_offsets(mesh.1@, i)
                    == own_offsets(i),
            forall|i: int|
                0 <= i < unpacked_bits(self@).len() ==> #[trigger] quad_has_color(
                    mesh.0@,
                    i,
                    shade(unpacked_bits(self@)[i]),
                ),
    {
        let bits = self.unpacked();
        let mut vertices: Vec<Vertex> = Vec::new();
        let mut indices: Vec<u16> = Vec::new();
        let mut i: usize = 0;
        while i < bits.len()
            invariant
                i <= bits@.len() <= MAX_QUADS,
                vertices@ == mesh_vertices(bits@.take(i as int)),
                indices@ == mesh_indices(bits@.take(i as int)),
            decreases bits@.len() - i,
        {
            let color = if bits[i] == 1u8 {
                Rgb::ink()
            } else {
                Rgb::paper()
            };
            let (mut vx, mut ix) = Glyph::square_at(i as i32, color);
            proof {
                lemma_mesh_vertices_push(bits@.take(i as int), bits@[i as int]);
                lemma_mesh_indices_push(bits@.take(i as int), bits@[i as int]);
                assert(bits@.take(i as int).push(bits@[i as int]) == bits@.take(i + 1));
            }
            vertices.append(&mut vx);
            indices.append(&mut ix);
            i += 1;
        }
        proof {
            assert(bits@.take(i as int) == bits@);
            lemma_mesh_lengths(bits@);
            lemma_mesh_offsets_in_bounds(bits@);
            assert forall|q: int| 0 <= q < bits@.len() implies #[trigger] referenced_offsets(
                indices@,
                q,
            ) == own_offsets(q) by {
                lemma_quads_self_contained(bits@, q);
            }
            assert forall|q: int| 0 <= q < bits@.len() implies #[trigger] quad_has_color(
                vertices@,
                q,
                shade(bits@[q]),
            ) by {
                lemma_quads_colored(bits@, q);
            }
        }
        (vertices, indices)
    }

    /// The quad of the cell of bit `i` in colour `c`: its four corners, top
    /// left first and then clockwise, and the offsets of its two triangles in
    /// a mesh that holds the quads of all bits in order.
    ///
    /// Bit `i` lies in column `i % 7` of row `i / 7`. Rows run downwards from
    /// the top of the grid.
    pub fn square_at(i: i32, c: Rgb) -> (quad: (Vec<Vertex>, Vec<u16>))
        requires
            0 <= i < MAX_QUADS,
        ensures
            quad.0@ == quad_vertices(i as int, c),
            quad.1@ == quad_indices(i as int),
    {
        let i: u16 = i as u16;
        let x: i32 = CELL_HALVES * ((i % GRID_COLUMNS) as i32) - CENTER_HALVES;
        let y: i32 = CELL_HALVES * (GRID_TOP - ((i / GRID_COLUMNS) as i32)) - CENTER_HALVES;
        let xd: i32 = x + CELL_HALVES;
        let yd: i32 = y - CELL_HALVES;
        (
            vec![
                Vertex { x: x, y: y, color: c },
                Vertex { x: xd, y: y, color: c },
                Vertex { x: xd, y: yd, color: c },
                Vertex { x: x, y: yd, color: c },
            ],
            vec![4 * i, 4 * i + 1, 4 * i + 2, 4 * i + 2, 4 * i + 3, 4 * i],
        )
    }

    /// Spreads one byte into its eight bits, most significant first.
    pub fn as_bits(byte: &u8) -> (bits: Vec<u8>)
        ensures
            bits@ == byte_bits(*byte),
    {
        let mut b: u8 = *byte;
        let mut ret: Vec<u8> = Vec::new();
        let mut times: u8 = 8;
        proof {
            lemma_shifted_left_range(*byte, 0);
        }
        while times > 0
            invariant
                times <= 8,
                ret@.len() == 8 - times,
                b as int == shifted_left(*byte, (8 - times) as nat),
                forall|k: int| 0 <= k < ret@.len() ==> ret@[k] == bit_at(*byte, k),
            decreases times,
        {
            proof {
                lemma_shifted_left_range(*byte, (8 - times) as nat);
                lemma_shifted_left_leading_bit(*byte, (8 - times) as nat);
                lemma_shifted_left_next(*byte, (8 - times) as nat);
                assert(b << 1u8 == (2 * b) % 256) by (bit_vector);
            }
            if b >= LEADING_BIT {
                ret.push(1u8)
            } else {
                ret.push(0u8)
            }
            b = b << 1u8;
            times -= 1;
        }
        ret
    }
}

} // verus!
