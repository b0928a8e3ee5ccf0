use triangle_solitaire::{Graph, Piece, Point};

fn board(size: usize, pieces: &[(isize, isize, usize)]) -> Graph {
    let mut g = Graph::triangle_from_size(size);
    for &(i, j, id) in pieces {
        g.add_piece(Point(i, j), id);
    }
    g
}

fn same_cells(a: &Graph, b: &Graph, size: isize) -> bool {
    for i in 0..size {
        for j in 0..=i {
            if a.contains_piece(Point(i, j)) != b.contains_piece(Point(i, j)) {
                return false;
            }
        }
    }
    a.pieces() == b.pieces() && a.size() == b.size()
}

fn check_jump(o: (isize, isize), mid: (isize, isize), d: (isize, isize)) {
    let g = board(5, &[(o.0, o.1, 11), (mid.0, mid.1, 22), (4, 4, 33)]);
    let expected = board(5, &[(d.0, d.1, 11), (4, 4, 33)]);
    let next = g.move_piece(Point(o.0, o.1), Point(d.0, d.1)).expect("the jump is legal");
    assert!(same_cells(&next, &expected, 5));
    assert_eq!(next.pieces(), 2);
    assert_eq!(next.contains_piece(Point(d.0, d.1)), Some(Piece(11)));
    assert_eq!(next.contains_piece(Point(o.0, o.1)), None);
    assert_eq!(next.contains_piece(Point(mid.0, mid.1)), None);
    let mut in_place = g.clone();
    assert!(in_place.move_piece_mut(Point(o.0, o.1), Point(d.0, d.1)));
    assert!(same_cells(&in_place, &expected, 5));
    assert_eq!(in_place.pieces(), 2);
}

#[test]
fn jump_down_a_column() {
    check_jump((1, 0), (2, 0), (3, 0));
}

#[test]
fn jump_up_a_column() {
    check_jump((3, 1), (2, 1), (1, 1));
}

#[test]
fn jump_right_along_a_row() {
    check_jump((3, 0), (3, 1), (3, 2));
}

#[test]
fn jump_left_along_a_row() {
    check_jump((3, 3), (3, 2), (3, 1));
}

#[test]
fn jump_down_the_diagonal() {
    check_jump((1, 0), (2, 1), (3, 2));
}

#[test]
fn jump_up_the_diagonal() {
    check_jump((3, 3), (2, 2), (1, 1));
}

#[test]
fn functional_move_leaves_the_board_unchanged() {
    let g = board(3, &[(1, 0, 5), (2, 0, 6), (2, 1, 7), (2, 2, 8), (1, 1, 9)]);
    let snapshot = g.clone();
    let next = g.move_piece(Point(2, 0), Point(0, 0)).expect("the jump is legal");
    assert!(same_cells(&g, &snapshot, 3));
    assert!(g == snapshot);
    assert_eq!(g.pieces(), 5);
    assert_eq!(next.pieces(), 4);
    assert_eq!(next.contains_piece(Point(0, 0)), Some(Piece(6)));
    assert_eq!(next.contains_piece(Point(2, 0)), None);
    assert_eq!(next.contains_piece(Point(1, 0)), None);
    assert_eq!(next.contains_piece(Point(1, 1)), Some(Piece(9)));
    assert_eq!(next.contains_piece(Point(2, 1)), Some(Piece(7)));
    assert_eq!(next.contains_piece(Point(2, 2)), Some(Piece(8)));
    assert!(g.move_piece(Point(2, 1), Point(0, 1)).is_none());
    assert!(same_cells(&g, &snapshot, 3));
}

#[test]
fn count_after_a_move_is_the_number_of_pieces_left() {
    let g = board(4, &[(3, 0, 1), (3, 1, 2), (3, 3, 3)]);
    let next = g.move_piece(Point(3, 0), Point(3, 2)).expect("the jump is legal");
    let mut left = 0;
    for i in 0..4isize {
        for j in 0..=i {
            if next.contains_piece(Point(i, j)).is_some() {
                left += 1;
            }
        }
    }
    assert_eq!(left, 2);
    assert_eq!(next.pieces(), left);
    assert_eq!(next.pieces(), g.pieces() - 1);
}

fn check_illegal(g: &Graph, o: (isize, isize), d: (isize, isize)) {
    let size = g.size() as isize;
    assert!(g.move_piece(Point(o.0, o.1), Point(d.0, d.1)).is_none());
    assert_eq!(g.jumped_over(Point(o.0, o.1), Point(d.0, d.1)), None);
    let mut in_place = g.clone();
    assert!(!in_place.move_piece_mut(Point(o.0, o.1), Point(d.0, d.1)));
    assert!(same_cells(&in_place, g, size));
}

#[test]
fn destination_out_of_bounds_is_refused() {
    let g = board(3, &[(1, 0, 1), (2, 0, 2), (2, 1, 3), (1, 1, 4)]);
    check_illegal(&g, (1, 0), (3, 0));
    check_illegal(&g, (2, 0), (2, -2));
    check_illegal(&g, (1, 1), (1, 3));
    check_illegal(&g, (1, 0), (-1, 0));
    check_illegal(&g, (1, 1), (-1, -1));
    check_illegal(&g, (2, 1), (4, 3));
}

#[test]
fn occupied_destination_is_refused() {
    let g = board(3, &[(2, 0, 1), (2, 1, 2), (2, 2, 3)]);
    check_illegal(&g, (2, 0), (2, 2));
    check_illegal(&g, (2, 2), (2, 0));
}

#[test]
fn empty_origin_is_refused() {
    let g = board(3, &[(2, 1, 2)]);
    check_illegal(&g, (2, 0), (2, 2));
    check_illegal(&g, (2, 2), (2, 0));
    check_illegal(&g, (3, 1), (1, 1));
    check_illegal(&g, (-1, 1), (1, 1));
}

#[test]
fn other_displacements_are_refused() {
    let g = board(5, &[(2, 0, 1), (2, 1, 2), (3, 1, 3), (3, 2, 4), (1, 1, 5), (2, 2, 6)]);
    check_illegal(&g, (2, 1), (2, 1));
    check_illegal(&g, (2, 1), (3, 3));
    check_illegal(&g, (2, 1), (4, 4));
    check_illegal(&g, (2, 0), (4, 1));
    check_illegal(&g, (2, 2), (4, 0));
    check_illegal(&g, (3, 1), (1, 0));
    check_illegal(&g, (2, 0), (3, 0));
    check_illegal(&g, (1, 1), (4, 4));
    check_illegal(&g, (2, 1), (4, 0));
    check_illegal(&g, (3, 2), (1, 1));
    check_illegal(&g, (1, 1), (3, 0));
}

#[test]
fn the_other_diagonal_is_no_jump() {
    let g = board(5, &[(2, 2, 1), (3, 1, 2), (4, 4, 3)]);
    check_illegal(&g, (2, 2), (4, 0));
    let h = board(5, &[(4, 0, 1), (3, 1, 2)]);
    check_illegal(&h, (4, 0), (2, 2));
}

#[test]
fn empty_midpoint_is_refused() {
    let g = board(4, &[(1, 0, 1), (3, 3, 2)]);
    check_illegal(&g, (1, 0), (3, 0));
    check_illegal(&g, (1, 0), (3, 2));
    check_illegal(&g, (3, 3), (3, 1));
    check_illegal(&g, (3, 3), (1, 1));
}

#[test]
fn jumped_over_names_the_cell_between() {
    let g = board(4, &[(1, 0, 1), (2, 0, 2), (2, 1, 3)]);
    assert_eq!(g.jumped_over(Point(1, 0), Point(3, 0)), Some(Point(2, 0)));
    assert_eq!(g.jumped_over(Point(1, 0), Point(3, 2)), Some(Point(2, 1)));
    assert_eq!(g.jumped_over(Point(2, 0), Point(2, 2)), Some(Point(2, 1)));
    assert_eq!(g.jumped_over(Point(2, 1), Point(2, 3)), None);
    assert_eq!(g.jumped_over(Point(2, 0), Point(0, 0)), Some(Point(1, 0)));
}

#[test]
fn both_moves_agree_on_every_pair_of_cells() {
    let g = board(4, &[(1, 0, 1), (1, 1, 2), (2, 0, 3), (2, 2, 4), (3, 1, 5), (3, 2, 6)]);
    let mut legal = 0;
    for oi in -1..5isize {
        for oj in -1..5isize {
            for di in -1..5isize {
                for dj in -1..5isize {
                    let (o, d) = (Point(oi, oj), Point(di, dj));
                    let functional = g.move_piece(o, d);
                    let mut in_place = g.clone();
                    let done = in_place.move_piece_mut(o, d);
                    assert_eq!(functional.is_some(), done);
                    match functional {
                        Some(next) => {
                            legal += 1;
                            assert!(same_cells(&next, &in_place, 4));
                            assert_eq!(next.pieces(), 5);
                        }
                        None => assert!(same_cells(&g, &in_place, 4)),
                    }
                }
            }
        }
    }
    assert_eq!(legal, 6);
}
