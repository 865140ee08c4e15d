//! End-to-end tests of the contour-extraction engine.

use marching_squares::algorithm::{Algorithm, Args, IntoArgs};
use marching_squares::grid::{capacity, clear, get, Cell, Edges, Vertices};

fn drain_vertices(vertices: &mut Vertices) -> Vec<(u16, u16)> {
    let mut out = Vec::new();
    while let Some(pair) = vertices.next() {
        out.push(pair);
    }
    out
}

fn drain_edges(edges: &mut Edges) -> Vec<(u16, u16)> {
    let mut out = Vec::new();
    while let Some(pair) = edges.next() {
        out.push(pair);
    }
    out
}

fn run(width: usize, height: usize, pixels: Vec<bool>) -> (Vec<(u16, u16)>, Vec<(u16, u16)>) {
    let mut algorithm = Algorithm::new();
    let (mut vertices, mut edges) = algorithm.search(Args::new(width, height, pixels));
    (drain_vertices(&mut vertices), drain_edges(&mut edges))
}

#[test]
fn capacity_formula() {
    assert_eq!(capacity(3, 2), 12);
    assert_eq!(capacity(1, 1), 4);
    assert_eq!(capacity(7, 7), 64);
}

#[test]
fn capacity_degenerate() {
    assert_eq!(capacity(0, 5), 0);
    assert_eq!(capacity(5, 0), 0);
    assert_eq!(capacity(0, 0), 0);
}

#[test]
fn empty_mask_yields_nothing() {
    let (vertices, edges) = run(3, 2, vec![false; 6]);
    assert!(vertices.is_empty());
    assert!(edges.is_empty());
}

#[test]
fn degenerate_mask_yields_nothing() {
    let (vertices, edges) = run(0, 4, vec![true; 4]);
    assert!(vertices.is_empty());
    assert!(edges.is_empty());
    let (vertices, edges) = run(4, 0, vec![true; 4]);
    assert!(vertices.is_empty());
    assert!(edges.is_empty());
}

#[test]
fn full_mask_traces_its_rectangle() {
    // A fully filled mask still has a boundary against the empty surround:
    // its four grid corners, joined into one rectangular loop.
    let (vertices, edges) = run(2, 2, vec![true; 4]);
    assert_eq!(vertices, vec![(0, 0), (2, 0), (0, 2), (2, 2)]);
    assert_eq!(edges, vec![(0, 1), (2, 3), (0, 2), (1, 3)]);
}

#[test]
fn single_pixel_quad() {
    // One filled pixel at (row 1, column 1) of a 3x3 mask: its four corner
    // grid points, and four edges closing them into a quadrilateral.
    let mut pixels = vec![false; 9];
    pixels[4] = true;
    let (vertices, edges) = run(3, 3, pixels);
    assert_eq!(vertices, vec![(1, 1), (2, 1), (1, 2), (2, 2)]);
    assert_eq!(edges, vec![(0, 1), (2, 3), (0, 2), (1, 3)]);
}

#[test]
fn single_pixel_at_origin() {
    let (vertices, edges) = run(1, 1, vec![true]);
    assert_eq!(vertices, vec![(0, 0), (1, 0), (0, 1), (1, 1)]);
    assert_eq!(edges, vec![(0, 1), (2, 3), (0, 2), (1, 3)]);
}

#[test]
fn saddle_mask_two_loops() {
    // Two diagonal pixels of a 2x2 mask: the centre grid point is a saddle
    // hosting two crossings, and the output is two quadrilateral loops
    // sharing that centre vertex (index 3), not one merged loop.
    let (vertices, edges) = run(2, 2, vec![true, false, false, true]);
    assert_eq!(
        vertices,
        vec![(0, 0), (1, 0), (0, 1), (1, 1), (2, 1), (1, 2), (2, 2)]
    );
    assert_eq!(
        edges,
        vec![
            (0, 1),
            (2, 3),
            (3, 4),
            (5, 6),
            (0, 2),
            (1, 3),
            (3, 5),
            (4, 6)
        ]
    );
    // First loop: vertices 0, 1, 2, 3; second loop: vertices 3, 4, 5, 6.
    let first = [(0, 1), (2, 3), (0, 2), (1, 3)];
    let second = [(3, 4), (5, 6), (3, 5), (4, 6)];
    for pair in first.iter().chain(second.iter()) {
        assert!(edges.contains(pair));
    }
}

#[test]
fn saddle_cell_is_marked_ambiguous() {
    let mut cells = vec![Cell(0); capacity(2, 2)];
    let pixels = vec![true, false, false, true];
    marching_squares::grid::set(&mut cells, 2, 2, &pixels);
    // The centre grid point (1, 1) is cell 4 of the 3x3 grid; it holds the
    // fourth identifier with the ambiguous marker: 4 << 1 | 1.
    assert_eq!(cells[4].0, 9);
    assert_eq!(cells[4].0 & 1, 1);
}

#[test]
fn rerun_matches_fresh_run() {
    // Re-running one engine instance on a new mask leaves no residue from
    // the previous classification.
    let mut algorithm = Algorithm::new();
    let (mut v1, mut e1) = algorithm.search(Args::new(2, 2, vec![true; 4]));
    drain_vertices(&mut v1);
    drain_edges(&mut e1);
    let mut pixels = vec![false; 9];
    pixels[4] = true;
    let (mut v2, mut e2) = algorithm.search(Args::new(3, 3, pixels.clone()));
    let reused = (drain_vertices(&mut v2), drain_edges(&mut e2));
    assert_eq!(reused, run(3, 3, pixels));
}

#[test]
fn rerun_after_shrink() {
    let mut algorithm = Algorithm::with_capacity(3, 3);
    let (mut v1, mut e1) = algorithm.search(Args::new(3, 3, vec![true; 9]));
    drain_vertices(&mut v1);
    drain_edges(&mut e1);
    let (mut v2, mut e2) = algorithm.search(Args::new(1, 1, vec![true]));
    assert_eq!(drain_vertices(&mut v2), vec![(0, 0), (1, 0), (0, 1), (1, 1)]);
    assert_eq!(drain_edges(&mut e2), vec![(0, 1), (2, 3), (0, 2), (1, 3)]);
}

#[test]
fn traversal_is_idempotent() {
    // Two traversals derived from the same classified grid, without an
    // intervening mutation, yield identical sequences.
    let mut cells = vec![Cell(0); capacity(3, 2)];
    let pixels = vec![true, true, false, false, true, true];
    marching_squares::grid::set(&mut cells, 3, 2, &pixels);
    let (mut va, mut ha, mut wa) = get(&cells, 3);
    let (mut vb, mut hb, mut wb) = get(&cells, 3);
    assert_eq!(drain_vertices(&mut va), drain_vertices(&mut vb));
    let mut first_h = Vec::new();
    while let Some(pair) = ha.next() {
        first_h.push(pair);
    }
    let mut second_h = Vec::new();
    while let Some(pair) = hb.next() {
        second_h.push(pair);
    }
    assert_eq!(first_h, second_h);
    let mut first_w = Vec::new();
    while let Some(pair) = wa.next() {
        first_w.push(pair);
    }
    let mut second_w = Vec::new();
    while let Some(pair) = wb.next() {
        second_w.push(pair);
    }
    assert_eq!(first_w, second_w);
}

#[test]
fn horizontal_edges_stay_within_their_row() {
    // The scan-order parity invariant: the pairing state is clear at every
    // row boundary, so each horizontal edge joins two vertices of one row.
    let pixels = vec![
        true, false, true, false, //
        true, true, true, false, //
        false, true, false, true, //
    ];
    let mut cells = vec![Cell(0); capacity(4, 3)];
    marching_squares::grid::set(&mut cells, 4, 3, &pixels);
    let (mut vertices, mut horizontal, _vertical) = get(&cells, 4);
    let coords = drain_vertices(&mut vertices);
    while let Some((a, b)) = horizontal.next() {
        assert_eq!(coords[a as usize].1, coords[b as usize].1);
    }
}

#[test]
fn vertical_edges_stay_within_their_column() {
    let pixels = vec![
        true, false, true, false, //
        true, true, true, false, //
        false, true, false, true, //
    ];
    let mut cells = vec![Cell(0); capacity(4, 3)];
    marching_squares::grid::set(&mut cells, 4, 3, &pixels);
    let (mut vertices, _horizontal, mut vertical) = get(&cells, 4);
    let coords = drain_vertices(&mut vertices);
    while let Some((a, b)) = vertical.next() {
        assert_eq!(coords[a as usize].0, coords[b as usize].0);
    }
}

#[test]
fn short_pixel_sequence_is_padded_with_empty() {
    // A 3x3 mask supplied only 4 pixels: the rest count as empty.
    let (vertices, edges) = run(3, 3, vec![false, true, false, false]);
    assert_eq!(vertices, vec![(1, 0), (2, 0), (1, 1), (2, 1)]);
    assert_eq!(edges, vec![(0, 1), (2, 3), (0, 2), (1, 3)]);
}

#[test]
fn surplus_pixels_are_ignored() {
    let mut pixels = vec![false; 9];
    pixels[4] = true;
    pixels.extend([true, true, true]);
    let (vertices, edges) = run(3, 3, pixels);
    assert_eq!(vertices, vec![(1, 1), (2, 1), (1, 2), (2, 2)]);
    assert_eq!(edges, vec![(0, 1), (2, 3), (0, 2), (1, 3)]);
}

#[test]
fn clear_resets_every_cell() {
    let mut cells = vec![Cell(0); capacity(2, 2)];
    let pixels = vec![true, false, false, true];
    marching_squares::grid::set(&mut cells, 2, 2, &pixels);
    assert!(cells.iter().any(|cell| cell.0 != 0));
    clear(&mut cells);
    assert!(cells.iter().all(|cell| cell.0 == 0));
    assert_eq!(cells.len(), 9);
}

#[test]
fn into_args_is_identity() {
    let args = Args::new(2, 3, vec![true, false]);
    let args = args.into_args();
    assert_eq!(args.width, 2);
    assert_eq!(args.height, 3);
    assert_eq!(args.pixels, vec![true, false]);
}
