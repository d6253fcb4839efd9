use tetrust::board::Board;
use tetrust::catalog::o_tetrimino;
use tetrust::point::Point;

fn filled_board(cells: &[(i32, i32, u32)]) -> Board {
    let mut b = Board::new(4, 10);
    for &(x, y, v) in cells {
        assert!(b.fill_point(Point(x, y), v));
    }
    b
}

#[test]
fn fill_and_query() {
    let mut b = Board::new(10, 20);
    assert_eq!(b.num_active_rows(), 0);
    assert!(!b.is_point_filled(Point(3, 5)));
    assert!(b.is_point_filled(Point(-1, 5)));
    assert!(b.is_point_filled(Point(10, 5)));
    assert!(b.is_point_filled(Point(3, -1)));
    assert!(b.fill_point(Point(3, 5), 7));
    assert_eq!(b.num_active_rows(), 6);
    assert!(b.is_point_filled(Point(3, 5)));
    assert_eq!(b.get_cell(Point(3, 5)), Some(7));
    assert_eq!(b.value_at(Point(3, 5)), Some(7));
    // filling again keeps the first value
    assert!(b.fill_point(Point(3, 5), 9));
    assert_eq!(b.value_at(Point(3, 5)), Some(7));
    // the top row can be filled; a row at the configured height cannot
    assert!(!b.fill_point(Point(0, 20), 1));
    assert!(b.fill_point(Point(0, 19), 1));
    assert_eq!(b.num_active_rows(), 20);
    assert_eq!(b.get_spawn_point(), Point(5, 19));
    assert!(b.is_on_board(Point(9, 19)));
    assert!(!b.is_on_board(Point(9, 20)));
}

#[test]
fn unfill_trims_empty_top_rows() {
    let mut b = filled_board(&[(0, 0, 1), (1, 4, 2)]);
    assert_eq!(b.num_active_rows(), 5);
    b.unfill_point(Point(1, 4));
    assert_eq!(b.num_active_rows(), 1);
    assert!(!b.is_point_filled(Point(1, 4)));
    b.unfill_point(Point(0, 0));
    assert_eq!(b.num_active_rows(), 0);
}

#[test]
fn clear_rows_shifts_rows_above() {
    let mut b = filled_board(&[(0, 0, 1), (1, 0, 1), (2, 0, 1), (3, 0, 1), (1, 1, 5), (0, 2, 1), (1, 2, 1), (2, 2, 1), (3, 2, 1), (2, 3, 6)]);
    assert!(b.is_row_full(0));
    assert!(!b.is_row_full(1));
    // row 1 is requested but not full: it stays
    b.clear_rows(vec![2, 0, 1]);
    assert_eq!(b.num_active_rows(), 2);
    assert_eq!(b.value_at(Point(1, 0)), Some(5));
    assert_eq!(b.value_at(Point(2, 1)), Some(6));
    assert_eq!(b.value_at(Point(0, 0)), None);
}

#[test]
fn clear_points_empties_cells() {
    let mut b = filled_board(&[(0, 0, 1), (1, 0, 2), (1, 1, 3)]);
    b.clear_points(&vec![Point(1, 0), Point(3, 3), Point(1, 1)]);
    assert!(b.is_point_filled(Point(0, 0)));
    assert!(!b.is_point_filled(Point(1, 0)));
    assert_eq!(b.num_active_rows(), 1);
}

#[test]
fn falling_points_report_filled_rows() {
    let mut b = filled_board(&[(0, 0, 1), (1, 0, 1), (2, 0, 1), (3, 2, 4)]);
    let rows = b.translate_falling_points(&vec![(Point(3, 2), 2), (Point(0, 0), 5)]);
    assert_eq!(rows, vec![0]);
    assert_eq!(b.value_at(Point(3, 0)), Some(4));
    assert_eq!(b.value_at(Point(3, 2)), None);
    // the drop past the floor was skipped
    assert_eq!(b.value_at(Point(0, 0)), Some(1));
}

#[test]
fn first_collision_is_tightest() {
    let b = filled_board(&[(0, 2, 1), (1, 0, 1)]);
    assert_eq!(b.point_first_collision(Point(0, 6)), Point(0, -3));
    assert_eq!(b.point_first_collision(Point(1, 6)), Point(0, -5));
    assert_eq!(b.point_first_collision(Point(2, 6)), Point(0, -6));
    assert_eq!(b.first_collision(vec![Point(1, 6), Point(0, 6), Point(2, 6)]), Point(0, -3));
}

#[test]
fn add_piece_reports_full_rows() {
    let mut b = filled_board(&[(0, 0, 1), (3, 0, 1)]);
    let piece = o_tetrimino().instance(vec![2, 2, 2, 2]).as_active_instance(Point(0, 1));
    // cells (1,1), (2,1), (1,0), (2,0)
    assert!(b.does_tetrimino_fit(&piece));
    assert!(b.do_points_fit(&piece.get_points()));
    let rows = b.add_tetrimino(piece);
    assert_eq!(rows, Some(vec![0]));
    assert_eq!(b.value_at(Point(1, 1)), Some(2));
    let high = o_tetrimino().instance(vec![2, 2, 2, 2]).as_active_instance(Point(0, 10));
    assert_eq!(b.add_tetrimino(high), None);
    // a piece in the top row fits
    let top = o_tetrimino().instance(vec![3, 3, 3, 3]).as_active_instance(Point(0, 9));
    assert_eq!(b.add_tetrimino(top), Some(vec![]));
    assert_eq!(b.value_at(Point(1, 9)), Some(3));
}

#[test]
fn clearing_points_trims_empty_top_rows() {
    let mut b = Board::new(4, 10);
    assert!(b.fill_point(Point(0, 0), 1));
    assert!(b.fill_point(Point(1, 3), 2));
    assert!(b.fill_point(Point(2, 5), 3));
    b.clear_points(&vec![Point(2, 5), Point(1, 3)]);
    assert_eq!(b.num_active_rows(), 1);
    let big = Board::new(6000, 6000);
    assert_eq!(big.get_width(), 6000);
    assert!(!big.is_point_filled(Point(5999, 5999)));
}
