use triangle_solitaire::point::get_sign;
use triangle_solitaire::{Graph, Piece, Point};

fn filled(size: usize, holes: &[(isize, isize)]) -> Graph {
    let mut g = Graph::triangle_from_size(size);
    let mut id = 1;
    for i in 0..(size as isize) {
        for j in 0..=i {
            if !holes.contains(&(i, j)) {
                g.add_piece(Point(i, j), id);
            }
            id += 1;
        }
    }
    g
}

#[test]
fn new_board_has_no_rows() {
    let g = Graph::new();
    assert_eq!(g.pieces(), 0);
    assert_eq!(g.size(), 0);
    assert!(!g.in_bounds(Point(0, 0)));
    assert_eq!(g.contains_piece(Point(0, 0)), None);
}

#[test]
fn triangle_of_size_zero_is_empty() {
    let g = Graph::triangle_from_size(0);
    assert_eq!(g.size(), 0);
    assert_eq!(g.pieces(), 0);
    assert!(!g.in_bounds(Point(0, 0)));
    assert!(g == Graph::new());
}

#[test]
fn triangle_rows_grow_by_one() {
    let g = Graph::triangle_from_size(4);
    assert_eq!(g.size(), 4);
    assert_eq!(g.pieces(), 0);
    let mut cells = 0;
    for i in -2..7 {
        for j in -2..7 {
            let p = Point(i, j);
            assert_eq!(g.contains_piece(p), None);
            if g.in_bounds(p) {
                cells += 1;
            }
        }
    }
    assert_eq!(cells, 10);
}

#[test]
fn in_bounds_is_the_triangle() {
    for size in 0..6usize {
        let g = Graph::triangle_from_size(size);
        for i in -3..9isize {
            for j in -3..9isize {
                let expected = 0 <= j && j <= i && i < size as isize;
                assert_eq!(g.in_bounds(Point(i, j)), expected, "size {} at ({}, {})", size, i, j);
            }
        }
    }
}

#[test]
fn in_bounds_edges() {
    let g = Graph::triangle_from_size(3);
    assert!(g.in_bounds(Point(0, 0)));
    assert!(g.in_bounds(Point(2, 0)));
    assert!(g.in_bounds(Point(2, 2)));
    assert!(!g.in_bounds(Point(3, 0)));
    assert!(!g.in_bounds(Point(1, 2)));
    assert!(!g.in_bounds(Point(-1, 0)));
    assert!(!g.in_bounds(Point(1, -1)));
    assert!(!g.in_bounds(Point(-1, -1)));
    assert!(!g.in_bounds(Point(isize::MAX, 0)));
    assert!(!g.in_bounds(Point(isize::MIN, isize::MIN)));
}

#[test]
fn add_piece_raises_count_and_fills_cell() {
    let mut g = Graph::triangle_from_size(3);
    assert_eq!(g.contains_piece(Point(2, 1)), None);
    g.add_piece(Point(2, 1), 42);
    assert_eq!(g.pieces(), 1);
    assert_eq!(g.contains_piece(Point(2, 1)), Some(Piece(42)));
    g.add_piece(Point(0, 0), 7);
    assert_eq!(g.pieces(), 2);
    assert_eq!(g.contains_piece(Point(0, 0)), Some(Piece(7)));
    assert_eq!(g.contains_piece(Point(2, 1)), Some(Piece(42)));
    assert_eq!(g.contains_piece(Point(1, 0)), None);
    assert_eq!(g.contains_piece(Point(2, 2)), None);
}

#[test]
fn add_piece_on_an_occupied_cell_counts_again() {
    let mut g = Graph::triangle_from_size(2);
    g.add_piece(Point(1, 1), 1);
    g.add_piece(Point(1, 1), 2);
    assert_eq!(g.pieces(), 2);
    assert_eq!(g.contains_piece(Point(1, 1)), Some(Piece(2)));
}

#[test]
fn contains_piece_outside_the_storage_is_empty() {
    let g = filled(3, &[]);
    assert_eq!(g.pieces(), 6);
    assert_eq!(g.contains_piece(Point(3, 0)), None);
    assert_eq!(g.contains_piece(Point(1, 2)), None);
    assert_eq!(g.contains_piece(Point(-1, 0)), None);
    assert_eq!(g.contains_piece(Point(0, -1)), None);
    assert_eq!(g.contains_piece(Point(isize::MIN, 0)), None);
    assert_eq!(g.contains_piece(Point(0, isize::MAX)), None);
    assert_eq!(g.contains_piece(Point(0, 0)), Some(Piece(1)));
    assert_eq!(g.contains_piece(Point(2, 2)), Some(Piece(6)));
}

#[test]
fn unchecked_read_agrees_with_checked_read() {
    let g = filled(4, &[(2, 1), (3, 3)]);
    for i in 0..4isize {
        for j in 0..=i {
            let p = Point(i, j);
            assert!(g.in_bounds(p));
            assert_eq!(g.contains_piece_unchecked(p), g.contains_piece(p));
        }
    }
    assert_eq!(g.contains_piece_unchecked(Point(2, 1)), None);
    assert_eq!(g.contains_piece_unchecked(Point(3, 0)), Some(Piece(7)));
}

#[test]
fn take_removes_and_returns_the_piece() {
    let mut g = filled(3, &[(0, 0)]);
    assert_eq!(g.pieces(), 5);
    assert_eq!(g.take(Point(2, 1)), Some(Piece(5)));
    assert_eq!(g.contains_piece(Point(2, 1)), None);
    assert_eq!(g.pieces(), 5);
    assert_eq!(g.take(Point(2, 1)), None);
    assert_eq!(g.take(Point(0, 0)), None);
    assert_eq!(g.contains_piece(Point(2, 0)), Some(Piece(4)));
    assert_eq!(g.contains_piece(Point(2, 2)), Some(Piece(6)));
}

#[test]
fn take_outside_the_triangle_changes_nothing() {
    let mut g = filled(3, &[]);
    let before = g.clone();
    assert_eq!(g.take(Point(3, 0)), None);
    assert_eq!(g.take(Point(1, 2)), None);
    assert_eq!(g.take(Point(-1, -1)), None);
    assert!(g == before);
    assert_eq!(g.pieces(), 6);
    for i in 0..3isize {
        for j in 0..=i {
            assert_eq!(g.contains_piece(Point(i, j)), before.contains_piece(Point(i, j)));
        }
    }
}

#[test]
fn clone_is_independent() {
    let mut g = filled(3, &[(1, 1)]);
    let copy = g.clone();
    g.add_piece(Point(1, 1), 99);
    assert_eq!(copy.contains_piece(Point(1, 1)), None);
    assert_eq!(copy.pieces(), 5);
    assert_eq!(g.pieces(), 6);
    assert!(g != copy);
}

#[test]
fn equality_ignores_identifiers() {
    let mut a = Graph::triangle_from_size(3);
    let mut b = Graph::triangle_from_size(3);
    a.add_piece(Point(1, 0), 1);
    a.add_piece(Point(2, 2), 2);
    b.add_piece(Point(2, 2), 70);
    b.add_piece(Point(1, 0), 80);
    assert!(a == b);
    assert!(b == a);
    assert!(!(a != b));
}

#[test]
fn equality_sees_size_count_and_pattern() {
    let mut a = Graph::triangle_from_size(3);
    a.add_piece(Point(1, 0), 1);
    let mut other_size = Graph::triangle_from_size(4);
    other_size.add_piece(Point(1, 0), 1);
    assert!(a != other_size);
    let mut other_cell = Graph::triangle_from_size(3);
    other_cell.add_piece(Point(1, 1), 1);
    assert!(a != other_cell);
    let mut other_count = Graph::triangle_from_size(3);
    other_count.add_piece(Point(1, 0), 1);
    other_count.add_piece(Point(1, 0), 1);
    assert!(a != other_count);
    let mut emptied = a.clone();
    emptied.take(Point(1, 0));
    assert_eq!(emptied.pieces(), a.pieces());
    assert!(a != emptied);
    assert!(a != Graph::triangle_from_size(3));
    assert!(a == a.clone());
}

#[test]
fn sign_of_a_component() {
    assert_eq!(get_sign(0), 0);
    assert_eq!(get_sign(2), 1);
    assert_eq!(get_sign(-2), -1);
    assert_eq!(get_sign(1), 1);
    assert_eq!(get_sign(-1), -1);
    assert_eq!(get_sign(isize::MAX), 1);
    assert_eq!(get_sign(isize::MIN), -1);
}

#[test]
fn points_add_and_subtract_by_component() {
    assert_eq!(Point(3, 1) + Point(-2, 0), Point(1, 1));
    assert_eq!(Point(3, 1) + Point(2, 2), Point(5, 3));
    assert_eq!(Point(3, 1) - Point(1, 1), Point(2, 0));
    assert_eq!(Point(0, 0) - Point(2, 2), Point(-2, -2));
    assert_eq!(Point(4, 2) - Point(4, 2), Point(0, 0));
}
