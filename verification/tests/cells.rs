//! Tests of the cell type, its debug glyphs, and the traversal cursors.

use marching_squares::algorithm::{Algorithm, Args};
use marching_squares::grid::Cell;

#[test]
fn default_cell_is_empty() {
    assert_eq!(Cell::default(), Cell(0));
    assert_eq!(Cell::default().0, 0);
}

#[test]
fn first_pass_symbols() {
    assert_eq!(Cell(0)._as_first_pass_symbol(), '\u{2591}');
    assert_eq!(Cell(1)._as_first_pass_symbol(), '\u{2596}');
    assert_eq!(Cell(2)._as_first_pass_symbol(), '\u{2597}');
    assert_eq!(Cell(4)._as_first_pass_symbol(), '\u{2598}');
    assert_eq!(Cell(8)._as_first_pass_symbol(), '\u{259d}');
    assert_eq!(Cell(9)._as_first_pass_symbol(), '\u{259e}');
    assert_eq!(Cell(6)._as_first_pass_symbol(), '\u{259a}');
    assert_eq!(Cell(15)._as_first_pass_symbol(), '\u{2588}');
    assert_eq!(Cell(42)._as_first_pass_symbol(), '\u{fffd}');
}

#[test]
fn vertex_cursor_counts_down() {
    let mut algorithm = Algorithm::new();
    let (mut vertices, mut edges) =
        algorithm.search(Args::new(2, 2, vec![true, false, false, true]));
    assert_eq!(vertices.size_hint(), (0, Some(7)));
    assert_eq!(vertices.next(), Some((0, 0)));
    assert_eq!(vertices.size_hint(), (0, Some(6)));
    assert_eq!(edges.size_hint(), (0, Some(8)));
    assert_eq!(edges.next(), Some((0, 1)));
    assert_eq!(edges.size_hint(), (0, Some(7)));
}

#[test]
fn exhausted_cursor_stays_exhausted() {
    let mut algorithm = Algorithm::new();
    let (mut vertices, mut edges) = algorithm.search(Args::new(1, 1, vec![true]));
    for _ in 0..4 {
        assert!(vertices.next().is_some());
    }
    assert_eq!(vertices.next(), None);
    assert_eq!(vertices.next(), None);
    assert_eq!(vertices.size_hint(), (0, Some(0)));
    for _ in 0..4 {
        assert!(edges.next().is_some());
    }
    assert_eq!(edges.next(), None);
    assert_eq!(edges.next(), None);
}
