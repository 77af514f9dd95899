//! The vertex data of a glyph mesh and the mathematical description of the
//! layout: one quad per bit on a grid seven cells wide.
//!
//! All quantities are exact. The grid is measured in half cells, so that its
//! centre, three and a half cells from either edge, is a whole number; scaling
//! by the same three and a half cells then puts every corner of every cell on
//! a multiple of one seventh. A vertex stores those numerators. Colour
//! components are stored in tenths in the same way.

use crate::bits::unpacked_bits;
use vstd::prelude::*;

verus! {

/// Number of cells in one row of the grid.
pub const GRID_COLUMNS: u16 = 7;

/// The row of bit 0 sits this many cells above the row that would lie on the
/// horizontal axis; later rows lie below it.
pub const GRID_TOP: i32 = 7;

/// Distance from the edge of the grid to its centre, in half cells.
pub const CENTER_HALVES: i32 = 7;

/// The factor by which the grid is shrunk to fit the drawing area, in half
/// cells. A length of `n` half cells becomes `n / SCALE_HALVES`.
pub const SCALE_HALVES: i32 = 7;

/// The side of a cell, in half cells.
pub const CELL_HALVES: i32 = 2;

/// Colour components count in steps of one over this number.
pub const COLOR_STEPS: u8 = 10;

/// The largest number of quads whose corner offsets all fit in sixteen bits.
pub const MAX_QUADS: usize = 16384;

/// The largest number of glyph bytes that unpack to no more than
/// [`MAX_QUADS`] bits.
pub const MAX_GLYPH_BYTES: usize = 2048;

/// A colour. Each component is a number of tenths, from 0 for none to
/// [`COLOR_STEPS`] for full intensity.
#[derive(Clone, Copy, Debug, PartialEq, Eq, Structural)]
pub struct Rgb {
    pub r: u8,
    pub g: u8,
    pub b: u8,
}

impl Rgb {
    /// No component exceeds full intensity.
    pub open spec fn wf(&self) -> bool {
        self.r <= COLOR_STEPS && self.g <= COLOR_STEPS && self.b <= COLOR_STEPS
    }

    /// The colour of a set bit, in specifications.
    pub open spec fn spec_ink() -> Rgb {
        Rgb { r: 0, g: 0, b: 0 }
    }

    /// The colour of a clear bit, in specifications.
    pub open spec fn spec_paper() -> Rgb {
        Rgb { r: 1, g: 2, b: 3 }
    }

    /// The colour of a set bit: black.
    #[verifier::when_used_as_spec(spec_ink)]
    pub fn ink() -> (c: Rgb)
        ensures
            c == Rgb::spec_ink(),
            c.wf(),
    {
        Rgb { r: 0, g: 0, b: 0 }
    }

    /// The colour of a clear bit: a dark blue, one, two and three tenths of
    /// red, green and blue.
    #[verifier::when_used_as_spec(spec_paper)]
    pub fn paper() -> (c: Rgb)
        ensures
            c == Rgb::spec_paper(),
            c.wf(),
    {
        Rgb { r: 1, g: 2, b: 3 }
    }
}

/// A corner of a quad. The position is `(x / SCALE_HALVES, y / SCALE_HALVES)`
/// with the x axis pointing right and the y axis pointing up.
#[derive(Clone, Copy, Debug, PartialEq, Eq, Structural)]
pub struct Vertex {
    pub x: i32,
    pub y: i32,
    pub color: Rgb,
}

/// The colour that a bit is drawn in.
pub open spec fn shade(bit: u8) -> Rgb {
    if bit == 1 {
        Rgb::ink()
    } else {
        Rgb::paper()
    }
}

/// The column of the cell of bit `i`.
pub open spec fn cell_column(i: int) -> int {
    i % (GRID_COLUMNS as int)
}

/// The row of the cell of bit `i`, counted downwards from the top.
pub open spec fn cell_row(i: int) -> int {
    i / (GRID_COLUMNS as int)
}

/// The left edge of the cell of bit `i`, in half cells from the centre.
pub open spec fn cell_left(i: int) -> int {
    CELL_HALVES * cell_column(i) - CENTER_HALVES
}

/// The top edge of the cell of bit `i`, in half cells from the centre.
pub open spec fn cell_top(i: int) -> int {
    CELL_HALVES * (GRID_TOP - cell_row(i)) - CENTER_HALVES
}

/// The four corners of the cell of bit `i` in colour `c`: top left, top
/// right, bottom right, bottom left.
pub open spec fn quad_vertices(i: int, c: Rgb) -> Seq<Vertex> {
    let left = cell_left(i);
    let top = cell_top(i);
    let right = left + CELL_HALVES;
    let bottom = top - CELL_HALVES;
    seq![
        Vertex { x: left as i32, y: top as i32, color: c },
        Vertex { x: right as i32, y: top as i32, color: c },
        Vertex { x: right as i32, y: bottom as i32, color: c },
        Vertex { x: left as i32, y: bottom as i32, color: c },
    ]
}

/// The offsets, into the vertices of a whole mesh, of the two triangles that
/// cover the cell of bit `i`: top left, top right, bottom right, and bottom
/// right, bottom left, top left.
pub open spec fn quad_indices(i: int) -> Seq<u16> {
    let first = 4 * i;
    seq![
        first as u16,
        (first + 1) as u16,
        (first + 2) as u16,
        (first + 2) as u16,
        (first + 3) as u16,
        first as u16,
    ]
}

/// The vertices of the mesh of `bits`: the quads of all bits, in bit order.
pub open spec fn mesh_vertices(bits: Seq<u8>) -> Seq<Vertex> {
    Seq::new(4 * bits.len(), |j: int| quad_vertices(j / 4, shade(bits[j / 4]))[j % 4])
}

/// The triangle offsets of the mesh of `bits`: six for each bit, in bit order.
pub open spec fn mesh_indices(bits: Seq<u8>) -> Seq<u16> {
    Seq::new(6 * bits.len(), |j: int| quad_indices(j / 6)[j % 6])
}

/// The vertex offsets that the two triangles of bit `i` refer to, where
/// `indices` holds six offsets for each bit.
pub open spec fn referenced_offsets(indices: Seq<u16>, i: int) -> Set<int> {
    Set::new(
        |v: int| exists|k: int| 6 * i <= k < 6 * i + 6 && #[trigger] indices[k] as int == v,
    )
}

/// The offsets of the four vertices of bit `i`, where a mesh holds four
/// vertices for each bit.
pub open spec fn own_offsets(i: int) -> Set<int> {
    Set::new(|v: int| 4 * i <= v < 4 * i + 4)
}

/// The four vertices of bit `i` in `vertices` all carry the colour `c`.
pub open spec fn quad_has_color(vertices: Seq<Vertex>, i: int, c: Rgb) -> bool {
    forall|j: int| 4 * i <= j < 4 * i + 4 ==> (#[trigger] vertices[j]).color == c
}

/// Every offset in `indices` points at a vertex in `vertices`.
pub open spec fn offsets_in_bounds(vertices: Seq<Vertex>, indices: Seq<u16>) -> bool {
    forall|k: int| 0 <= k < indices.len() ==> (#[trigger] indices[k] as int) < vertices.len()
}

/// `vertices` and `indices` are the mesh of the glyph with the given bytes.
pub open spec fn is_mesh_of(bytes: Seq<u8>, vertices: Seq<Vertex>, indices: Seq<u16>) -> bool {
    &&& vertices == mesh_vertices(unpacked_bits(bytes))
    &&& indices == mesh_indices(unpacked_bits(bytes))
}

/// Twice the signed area of the triangle `a`, `b`, `c`, in half cells
/// squared: negative where the corners run clockwise.
pub open spec fn doubled_area(a: Vertex, b: Vertex, c: Vertex) -> int {
    (b.x - a.x) * (c.y - a.y) - (c.x - a.x) * (b.y - a.y)
}

/// A mesh has four vertices and six offsets for each bit.
pub proof fn lemma_mesh_lengths(bits: Seq<u8>)
    ensures
        mesh_vertices(bits).len() == 4 * bits.len(),
        mesh_indices(bits).len() == 6 * bits.len(),
{
}

/// While the offsets fit in sixteen bits, the two triangles of every bit
/// refer to each of the four vertices of that bit and to no other vertex.
pub proof fn lemma_quads_self_contained(bits: Seq<u8>, i: int)
    requires
        bits.len() <= MAX_QUADS,
        0 <= i < bits.len(),
    ensures
        referenced_offsets(mesh_indices(bits), i) == own_offsets(i),
{
    let indices = mesh_indices(bits);
    let referenced = referenced_offsets(indices, i);
    assert forall|k: int| 6 * i <= k < 6 * i + 6 implies indices[k] == quad_indices(i)[k - 6 * i] by {
        assert(k / 6 == i);
        assert(k % 6 == k - 6 * i);
    }
    assert forall|v: int| own_offsets(i).contains(v) implies referenced.contains(v) by {
        let k = if v == 4 * i {
            6 * i
        } else if v == 4 * i + 1 {
            6 * i + 1
        } else if v == 4 * i + 2 {
            6 * i + 2
        } else {
            6 * i + 4
        };
        assert(indices[k] as int == v);
    }
    assert forall|v: int| referenced.contains(v) implies own_offsets(i).contains(v) by {
        let k = choose|k: int| 6 * i <= k < 6 * i + 6 && #[trigger] indices[k] as int == v;
        assert(indices[k] == quad_indices(i)[k - 6 * i]);
    }
    assert(referenced =~= own_offsets(i));
}

/// The four vertices of every bit carry the colour of that bit: ink where the
/// bit is 1, paper where it is 0.
pub proof fn lemma_quads_colored(bits: Seq<u8>, i: int)
    requires
        0 <= i < bits.len(),
    ensures
        quad_has_color(mesh_vertices(bits), i, shade(bits[i])),
        bits[i] == 1 ==> quad_has_color(mesh_vertices(bits), i, Rgb::ink()),
        bits[i] == 0 ==> quad_has_color(mesh_vertices(bits), i, Rgb::paper()),
{
    assert forall|j: int| 4 * i <= j < 4 * i + 4 implies (#[trigger] mesh_vertices(
        bits,
    )[j]).color == shade(bits[i]) by {
        assert(j / 4 == i);
    }
}

/// While the offsets fit in sixteen bits, every offset of a mesh points at
/// one of its vertices.
pub proof fn lemma_mesh_offsets_in_bounds(bits: Seq<u8>)
    requires
        bits.len() <= MAX_QUADS,
    ensures
        offsets_in_bounds(mesh_vertices(bits), mesh_indices(bits)),
{
    let indices = mesh_indices(bits);
    assert forall|k: int| 0 <= k < indices.len() implies (#[trigger] indices[k] as int)
        < mesh_vertices(bits).len() by {
        assert(k / 6 < bits.len());
    }
}

/// While the offsets fit in sixteen bits, every triangle of a mesh, the
/// offsets taken three by three, runs clockwise and covers half a cell.
pub proof fn lemma_triangles_wind_clockwise(bits: Seq<u8>, t: int)
    requires
        bits.len() <= MAX_QUADS,
        0 <= t < 2 * bits.len(),
    ensures
        doubled_area(
            mesh_vertices(bits)[mesh_indices(bits)[3 * t] as int],
            mesh_vertices(bits)[mesh_indices(bits)[3 * t + 1] as int],
            mesh_vertices(bits)[mesh_indices(bits)[3 * t + 2] as int],
        ) == -(CELL_HALVES * CELL_HALVES),
{
    let i = t / 2;
    let quad = quad_vertices(i, shade(bits[i]));
    let local = quad_indices(0);
    assert forall|s: int| 0 <= s < 6 implies mesh_vertices(bits)[mesh_indices(bits)[6 * i
        + s] as int] == quad[#[trigger] local[s] as int] by {
        let k = 6 * i + s;
        assert(k / 6 == i);
        assert(k % 6 == s);
        let j = mesh_indices(bits)[k] as int;
        assert(j == 4 * i + local[s]);
        assert(j / 4 == i);
        assert(j % 4 == local[s] as int);
    }
    let first = if t % 2 == 0 {
        0int
    } else {
        3int
    };
    assert(3 * t == 6 * i + first);
    let a = quad[local[first] as int];
    let b = quad[local[first + 1] as int];
    let c = quad[local[first + 2] as int];
    assert(mesh_vertices(bits)[mesh_indices(bits)[3 * t] as int] == a);
    assert(mesh_vertices(bits)[mesh_indices(bits)[3 * t + 1] as int] == b);
    assert(mesh_vertices(bits)[mesh_indices(bits)[3 * t + 2] as int] == c);
    assert(doubled_area(a, b, c) == -4) by (nonlinear_arith)
        requires
            (b.x - a.x == 2 && c.y - a.y == -2 && c.x - a.x == 2 && b.y - a.y == 0) || (b.x - a.x
                == -2 && c.y - a.y == 2 && c.x - a.x == -2 && b.y - a.y == 0),
    ;
}

/// The first seven rows of the grid fill the square that reaches
/// [`SCALE_HALVES`] half cells from the centre in every direction, and no
/// corner of their cells lies outside it.
pub proof fn lemma_grid_fits_square(i: int, c: Rgb, j: int)
    requires
        0 <= i < GRID_COLUMNS * GRID_TOP,
        0 <= j < 4,
    ensures
        -SCALE_HALVES <= quad_vertices(i, c)[j].x <= SCALE_HALVES,
        -SCALE_HALVES <= quad_vertices(i, c)[j].y <= SCALE_HALVES,
        quad_vertices(0, c)[0].x == -SCALE_HALVES,
        quad_vertices(0, c)[0].y == SCALE_HALVES,
        quad_vertices(GRID_COLUMNS * GRID_TOP - 1, c)[2].x == SCALE_HALVES,
        quad_vertices(GRID_COLUMNS * GRID_TOP - 1, c)[2].y == -SCALE_HALVES,
{
}

/// The mesh depends on nothing but the bytes of the glyph: whatever is the
/// mesh of the same bytes is the same mesh, vertex for vertex and offset for
/// offset.
pub proof fn lemma_mesh_unique(
    bytes: Seq<u8>,
    first: (Seq<Vertex>, Seq<u16>),
    second: (Seq<Vertex>, Seq<u16>),
)
    requires
        is_mesh_of(bytes, first.0, first.1),
        is_mesh_of(bytes, second.0, second.1),
    ensures
        first == second,
{
}

/// One more bit appends the four corners of its cell.
pub proof fn lemma_mesh_vertices_push(bits: Seq<u8>, bit: u8)
    ensures
        mesh_vertices(bits.push(bit)) == mesh_vertices(bits) + quad_vertices(
            bits.len() as int,
            shade(bit),
        ),
{
    let whole = mesh_vertices(bits.push(bit));
    let parts = mesh_vertices(bits) + quad_vertices(bits.len() as int, shade(bit));
    assert(whole.len() == parts.len());
    assert forall|j: int| 0 <= j < whole.len() implies whole[j] == parts[j] by {
        if j >= 4 * bits.len() {
            assert(j / 4 == bits.len());
            assert(j % 4 == j - 4 * bits.len());
        } else {
            assert(j / 4 < bits.len());
        }
    }
}

/// One more bit appends the six offsets of its two triangles.
pub proof fn lemma_mesh_indices_push(bits: Seq<u8>, bit: u8)
    ensures
        mesh_indices(bits.push(bit)) == mesh_indices(bits) + quad_indices(bits.len() as int),
{
    let whole = mesh_indices(bits.push(bit));
    let parts = mesh_indices(bits) + quad_indices(bits.len() as int);
    assert(whole.len() == parts.len());
    assert forall|j: int| 0 <= j < whole.len() implies whole[j] == parts[j] by {
        if j >= 6 * bits.len() {
            assert(j / 6 == bits.len());
            assert(j % 6 == j - 6 * bits.len());
        } else {
            assert(j / 6 < bits.len());
        }
    }
}

} // verus!
