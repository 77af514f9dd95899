use glyph_mesh::mesh::{
    Rgb, Vertex, CELL_HALVES, CENTER_HALVES, COLOR_STEPS, GRID_COLUMNS, GRID_TOP,
    MAX_GLYPH_BYTES, MAX_QUADS, SCALE_HALVES,
};
use glyph_mesh::Glyph;

const INK: Rgb = Rgb { r: 0, g: 0, b: 0 };
const PAPER: Rgb = Rgb { r: 1, g: 2, b: 3 };

fn corner(x: i32, y: i32, color: Rgb) -> Vertex {
    Vertex { x, y, color }
}

fn sample(len: usize) -> Vec<u8> {
    (0..len).map(|n| (n * 91 % 256) as u8 ^ 0x5a).collect()
}

#[test]
fn grid_constants() {
    assert_eq!(GRID_COLUMNS, 7);
    assert_eq!(GRID_TOP, 7);
    assert_eq!(CENTER_HALVES, 7);
    assert_eq!(SCALE_HALVES, 7);
    assert_eq!(CELL_HALVES, 2);
    assert_eq!(COLOR_STEPS, 10);
    assert_eq!(MAX_QUADS, 16384);
    assert_eq!(MAX_GLYPH_BYTES, 2048);
    assert_eq!(8 * MAX_GLYPH_BYTES, MAX_QUADS);
    assert_eq!(4 * (MAX_QUADS - 1) + 3, u16::MAX as usize);
}

#[test]
fn ink_is_black_and_paper_is_dark_blue() {
    assert_eq!(Rgb::ink(), INK);
    assert_eq!(Rgb::paper(), PAPER);
}

#[test]
fn colors_in_tenths_are_the_decimal_fractions() {
    let ink = Rgb::ink();
    let paper = Rgb::paper();
    let steps = COLOR_STEPS as f32;
    assert_eq!([ink.r as f32 / steps, ink.g as f32 / steps, ink.b as f32 / steps], [0.0, 0.0, 0.0]);
    assert_eq!(
        [paper.r as f32 / steps, paper.g as f32 / steps, paper.b as f32 / steps],
        [0.1f32, 0.2f32, 0.3f32]
    );
}

#[test]
fn square_at_the_first_cell() {
    let (vertices, indices) = Glyph::square_at(0, INK);
    assert_eq!(
        vertices,
        vec![corner(-7, 7, INK), corner(-5, 7, INK), corner(-5, 5, INK), corner(-7, 5, INK)]
    );
    assert_eq!(indices, vec![0, 1, 2, 2, 3, 0]);
}

#[test]
fn square_at_the_second_row() {
    let (vertices, indices) = Glyph::square_at(8, PAPER);
    assert_eq!(
        vertices,
        vec![corner(-5, 5, PAPER), corner(-3, 5, PAPER), corner(-3, 3, PAPER), corner(-5, 3, PAPER)]
    );
    assert_eq!(indices, vec![32, 33, 34, 34, 35, 32]);
}

#[test]
fn square_at_the_last_cell_of_the_seventh_row() {
    let (vertices, indices) = Glyph::square_at(48, INK);
    assert_eq!(
        vertices,
        vec![corner(5, -5, INK), corner(7, -5, INK), corner(7, -7, INK), corner(5, -7, INK)]
    );
    assert_eq!(indices, vec![192, 193, 194, 194, 195, 192]);
}

#[test]
fn square_at_below_the_seventh_row() {
    let (vertices, _) = Glyph::square_at(63, PAPER);
    assert_eq!(
        vertices,
        vec![corner(-7, -11, PAPER), corner(-5, -11, PAPER), corner(-5, -13, PAPER), corner(-7, -13, PAPER)]
    );
}

#[test]
fn square_at_the_last_quad_that_fits() {
    let (vertices, indices) = Glyph::square_at(16383, PAPER);
    assert_eq!(16383 % 7, 3);
    assert_eq!(16383 / 7, 2340);
    assert_eq!(vertices[0], corner(-1, 7 - 2 * 2340, PAPER));
    assert_eq!(vertices[2], corner(1, 5 - 2 * 2340, PAPER));
    assert_eq!(indices, vec![65532, 65533, 65534, 65534, 65535, 65532]);
}

#[test]
fn square_at_carries_the_colour_it_is_given() {
    let odd = Rgb { r: 10, g: 0, b: 5 };
    let (vertices, _) = Glyph::square_at(3, odd);
    assert!(vertices.iter().all(|v| v.color == odd));
}

#[test]
fn square_at_matches_the_decimal_layout() {
    for i in 0..16384i32 {
        let (vertices, _) = Glyph::square_at(i, INK);
        let x = (i % 7) as f32 - 3.5;
        let y = (7 - i / 7) as f32 - 3.5;
        let expected = [
            [x / 3.5, y / 3.5],
            [(x + 1.0) / 3.5, y / 3.5],
            [(x + 1.0) / 3.5, (y - 1.0) / 3.5],
            [x / 3.5, (y - 1.0) / 3.5],
        ];
        for (v, e) in vertices.iter().zip(expected.iter()) {
            let got = [v.x as f32 / SCALE_HALVES as f32, v.y as f32 / SCALE_HALVES as f32];
            assert_eq!(got, *e, "cell {}", i);
        }
    }
}

#[test]
fn mesh_of_the_empty_glyph_is_empty() {
    let (vertices, indices) = Glyph::new_empty().vertices_indices();
    assert!(vertices.is_empty());
    assert!(indices.is_empty());
    let (vertices, indices) = Glyph::new(vec![]).vertices_indices();
    assert!(vertices.is_empty());
    assert!(indices.is_empty());
}

#[test]
fn mesh_of_one_byte_end_to_end() {
    let glyph = Glyph::new(vec![0b10000010u8]);
    assert_eq!(glyph.unpacked(), vec![1, 0, 0, 0, 0, 0, 1, 0]);
    let (vertices, indices) = glyph.vertices_indices();
    assert_eq!(vertices.len(), 32);
    assert_eq!(indices.len(), 48);
    assert_eq!(
        vertices[0..4],
        [corner(-7, 7, INK), corner(-5, 7, INK), corner(-5, 5, INK), corner(-7, 5, INK)]
    );
    assert_eq!(
        vertices[24..28],
        [corner(5, 7, INK), corner(7, 7, INK), corner(7, 5, INK), corner(5, 5, INK)]
    );
    for i in [1usize, 2, 3, 4, 5, 7] {
        assert!(vertices[4 * i..4 * i + 4].iter().all(|v| v.color == PAPER), "bit {}", i);
    }
    assert_eq!(
        vertices[28..32],
        [corner(-7, 5, PAPER), corner(-5, 5, PAPER), corner(-5, 3, PAPER), corner(-7, 3, PAPER)]
    );
    assert_eq!(indices[0..6], [0, 1, 2, 2, 3, 0]);
    assert_eq!(indices[36..42], [24, 25, 26, 26, 27, 24]);
    assert_eq!(indices[42..48], [28, 29, 30, 30, 31, 28]);
}

#[test]
fn mesh_has_four_vertices_and_six_indices_per_bit() {
    for len in [0usize, 1, 2, 6, 7, 8, 100, 2048] {
        let glyph = Glyph::new(sample(len));
        let bits = glyph.unpacked().len();
        let (vertices, indices) = glyph.vertices_indices();
        assert_eq!(vertices.len(), 4 * bits);
        assert_eq!(indices.len(), 6 * bits);
        assert_eq!(vertices.len(), 32 * len);
        assert_eq!(indices.len(), 48 * len);
    }
}

#[test]
fn mesh_is_the_quads_of_all_bits_in_order() {
    let glyph = Glyph::new(sample(9));
    let bits = glyph.unpacked();
    let (vertices, indices) = glyph.vertices_indices();
    let mut expected_vertices = Vec::new();
    let mut expected_indices = Vec::new();
    for (i, bit) in bits.iter().enumerate() {
        let (vx, ix) = Glyph::square_at(i as i32, if *bit == 1 { INK } else { PAPER });
        expected_vertices.extend(vx);
        expected_indices.extend(ix);
    }
    assert_eq!(vertices, expected_vertices);
    assert_eq!(indices, expected_indices);
}

#[test]
fn mesh_indices_of_a_quad_are_its_own_four_vertices() {
    let (_, indices) = Glyph::new(sample(2048)).vertices_indices();
    for (i, six) in indices.chunks(6).enumerate() {
        let first = (4 * i) as u16;
        assert_eq!(six, [first, first + 1, first + 2, first + 2, first + 3, first]);
        let mut seen: Vec<u16> = six.to_vec();
        seen.sort();
        seen.dedup();
        assert_eq!(seen, vec![first, first + 1, first + 2, first + 3]);
    }
}

#[test]
fn mesh_indices_point_into_the_vertices() {
    for len in [1usize, 7, 2047, 2048] {
        let (vertices, indices) = Glyph::new(sample(len)).vertices_indices();
        assert!(indices.iter().all(|ix| (*ix as usize) < vertices.len()));
    }
}

#[test]
fn mesh_of_the_largest_glyph_ends_at_the_last_offset() {
    let (vertices, indices) = Glyph::new(vec![0xffu8; MAX_GLYPH_BYTES]).vertices_indices();
    assert_eq!(vertices.len(), 65536);
    assert_eq!(indices.len(), 98304);
    assert_eq!(indices[98298..98304], [65532, 65533, 65534, 65534, 65535, 65532]);
}

#[test]
fn mesh_quads_are_inked_where_the_bit_is_set() {
    let glyph = Glyph::new(sample(64));
    let bits = glyph.unpacked();
    let (vertices, _) = glyph.vertices_indices();
    for (i, bit) in bits.iter().enumerate() {
        let expected = if *bit == 1 { INK } else { PAPER };
        assert!(vertices[4 * i..4 * i + 4].iter().all(|v| v.color == expected), "bit {}", i);
    }
}

#[test]
fn mesh_of_all_ink_and_of_all_paper() {
    let (vertices, _) = Glyph::new(vec![0xff; 7]).vertices_indices();
    assert!(vertices.iter().all(|v| v.color == INK));
    let (vertices, _) = Glyph::new(vec![0x00; 7]).vertices_indices();
    assert!(vertices.iter().all(|v| v.color == PAPER));
}

#[test]
fn mesh_cells_follow_columns_and_rows() {
    let (vertices, _) = Glyph::new(vec![0u8; 7]).vertices_indices();
    for i in 0..56usize {
        let column = (i % 7) as i32;
        let row = (i / 7) as i32;
        let top_left = vertices[4 * i];
        assert_eq!(top_left.x, 2 * column - 7);
        assert_eq!(top_left.y, 2 * (7 - row) - 7);
        let bottom_right = vertices[4 * i + 2];
        assert_eq!(bottom_right.x, top_left.x + 2);
        assert_eq!(bottom_right.y, top_left.y - 2);
        assert_eq!((vertices[4 * i + 1].x, vertices[4 * i + 1].y), (top_left.x + 2, top_left.y));
        assert_eq!((vertices[4 * i + 3].x, vertices[4 * i + 3].y), (top_left.x, top_left.y - 2));
    }
}

#[test]
fn mesh_of_seven_rows_fills_the_square() {
    let (vertices, _) = Glyph::new(vec![0u8; 7]).vertices_indices();
    let seven_rows = &vertices[0..4 * 49];
    assert!(seven_rows.iter().all(|v| -7 <= v.x && v.x <= 7 && -7 <= v.y && v.y <= 7));
    assert_eq!(seven_rows.iter().map(|v| v.x).min(), Some(-7));
    assert_eq!(seven_rows.iter().map(|v| v.x).max(), Some(7));
    assert_eq!(seven_rows.iter().map(|v| v.y).min(), Some(-7));
    assert_eq!(seven_rows.iter().map(|v| v.y).max(), Some(7));
}

#[test]
fn mesh_triangles_all_wind_clockwise() {
    let (vertices, indices) = Glyph::new(sample(20)).vertices_indices();
    for tri in indices.chunks(3) {
        let a = vertices[tri[0] as usize];
        let b = vertices[tri[1] as usize];
        let c = vertices[tri[2] as usize];
        let doubled_area = (b.x - a.x) * (c.y - a.y) - (c.x - a.x) * (b.y - a.y);
        assert_eq!(doubled_area, -4);
    }
}

#[test]
fn mesh_twice_is_the_same_mesh() {
    let glyph = Glyph::new(sample(33));
    let first = glyph.vertices_indices();
    let second = glyph.vertices_indices();
    assert_eq!(first, second);
    let again = Glyph::new(sample(33)).vertices_indices();
    assert_eq!(first, again);
}
