use tetrust::board::Board;
use tetrust::physics::{
    calculate_sticky_falls, calculate_sticky_falls_from_rows, discover_shapes, falls_of_shapes, resolve_fall_bounds, sticky_falls,
    ShapeDependency,
};
use tetrust::point::Point;

fn board_with(cells: &[(i32, i32, u32)]) -> Board {
    let mut b = Board::new(4, 12);
    for &(x, y, v) in cells {
        assert!(b.fill_point(Point(x, y), v));
    }
    b
}

fn sorted(mut v: Vec<(Point, i32)>) -> Vec<(Point, i32)> {
    v.sort_by_key(|(p, d)| (p.1, p.0, *d));
    v
}

#[test]
fn tower_top_falls_onto_grounded_bottom() {
    // bottom cell on the floor, a gap, then a cell of another color
    let b = board_with(&[(0, 0, 1), (0, 2, 2)]);
    let falls = calculate_sticky_falls(&b, vec![Point(0, 2)]);
    assert_eq!(falls, vec![(Point(0, 2), 1)]);
}

#[test]
fn tower_with_clearance_below() {
    // the bottom cell can fall one row by itself; the top one falls onto it
    let b = board_with(&[(0, 1, 1), (0, 3, 2)]);
    let falls = sorted(calculate_sticky_falls(&b, vec![Point(0, 3)]));
    assert_eq!(falls, vec![(Point(0, 1), 1), (Point(0, 3), 2)]);
    for (_, d) in falls {
        assert!(d > 0);
    }
}

#[test]
fn same_color_cells_fall_together() {
    // an L of one color hanging over a gap, resting on nothing
    let b = board_with(&[(3, 0, 9), (1, 2, 4), (1, 3, 4), (2, 3, 4)]);
    let falls = sorted(calculate_sticky_falls(&b, vec![Point(1, 3)]));
    assert_eq!(falls, vec![(Point(1, 2), 2), (Point(1, 3), 2), (Point(2, 3), 2)]);
}

#[test]
fn resting_shapes_do_not_move() {
    let b = board_with(&[(0, 0, 1), (0, 1, 2), (1, 0, 3)]);
    assert!(calculate_sticky_falls(&b, vec![Point(0, 1)]).is_empty());
    assert!(calculate_sticky_falls_from_rows(&b, vec![0, 1]).is_empty());
    assert!(sticky_falls(&b, &vec![Point(2, 5)], -1).is_empty());
}

#[test]
fn falls_from_rows_seed_every_cell_of_the_row() {
    let b = board_with(&[(0, 0, 1), (2, 2, 5), (3, 2, 6)]);
    let falls = sorted(calculate_sticky_falls_from_rows(&b, vec![2]));
    assert_eq!(falls, vec![(Point(2, 2), 2), (Point(3, 2), 2)]);
}

#[test]
fn mutual_support_cycle_resolves() {
    // shape 0 may fall 3 by itself and rests on shape 1 with 2 rows of gap;
    // shape 1 may fall 5 by itself and rests on shape 0 with 1 row of gap
    let own = vec![3u64, 5];
    let deps = vec![vec![ShapeDependency::Fall(1, 2)], vec![ShapeDependency::Fall(0, 1)]];
    assert_eq!(resolve_fall_bounds(&own, &deps), vec![3, 4]);
    let own = vec![6u64, 2];
    assert_eq!(resolve_fall_bounds(&own, &deps), vec![4, 2]);
}

#[test]
fn adjacent_chain_takes_the_lowest() {
    let own = vec![9u64, 9, 1];
    let deps = vec![vec![ShapeDependency::Adjacent(1)], vec![ShapeDependency::Fall(2, 3)], vec![]];
    assert_eq!(resolve_fall_bounds(&own, &deps), vec![4, 4, 1]);
    let t = ShapeDependency::Fall(2, 3);
    assert_eq!((t.get_target(), t.get_offset()), (2, 3));
    assert_eq!(ShapeDependency::Adjacent(1).get_offset(), 0);
}

#[test]
fn discovered_graph_for_a_gap() {
    let b = board_with(&[(0, 0, 1), (0, 2, 2)]);
    let g = discover_shapes(&b, &vec![Point(0, 2)], -1);
    assert_eq!(g.points, vec![vec![Point(0, 2)], vec![Point(0, 0)]]);
    // the top cell has one empty row, then the bottom shape
    assert_eq!(g.deps, vec![vec![ShapeDependency::Fall(1, 1)], vec![]]);
    // the bottom cell sits on the floor
    assert_eq!(g.own[1], 0);
    assert_eq!(falls_of_shapes(&g), vec![(Point(0, 2), 1)]);
}
