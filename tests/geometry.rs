use tetrust::catalog::{default_tetriminos, fusion_tetriminos, i_tetrimino, o_tetrimino, FUSION_TETRIMINO_INDEX};
use tetrust::orientation::{Direction, Orientation};
use tetrust::point::{PartialPoint, Point};

#[test]
fn point_arithmetic() {
    let a = Point::new(3, -2);
    let b = Point(1, 5);
    assert_eq!(a.plus(b), Point(4, 3));
    assert_eq!(a.minus(b), Point(2, -7));
    assert_eq!(a.x(), 3);
    assert_eq!(a.y(), -2);
    assert_eq!(a.min(), -2);
    assert_eq!(a.max(), 3);
    assert_eq!(Point::diag(4), Point(4, 4));
    assert_eq!(Point::unit_x(7), Point(7, 0));
    assert_eq!(Point::unit_y(-7), Point(0, -7));
}

#[test]
fn partial_points_round_down() {
    // (-1.5, 0.5) lies in cell (-2, 0); (0.5, -0.5) in cell (0, -1)
    assert_eq!(PartialPoint { twice_x: -3, twice_y: 1 }.to_point(), Point(-2, 0));
    assert_eq!(PartialPoint { twice_x: 1, twice_y: -1 }.to_point(), Point(0, -1));
    assert_eq!(PartialPoint { twice_x: 2, twice_y: 0 }.to_point(), Point(1, 0));
    let r = PartialPoint { twice_x: 3, twice_y: 1 }.rotate_clockwise();
    assert_eq!((r.twice_x, r.twice_y), (1, -3));
}

#[test]
fn orientation_cycles() {
    let o = Orientation::Origin;
    assert_eq!(o.rotated_clockwise(), Orientation::Right);
    assert_eq!(o.rotated_counter_clockwise(), Orientation::Left);
    assert_eq!(Orientation::Left.rotated(Direction::Clockwise), Orientation::Origin);
    assert_eq!(Orientation::Around.rotated(Direction::CounterClockwise), Orientation::Right);
    assert_eq!(Orientation::from(6), Orientation::Around);
    let mut x = Orientation::Right;
    for _ in 0..4 {
        x = x.rotated_clockwise();
    }
    assert_eq!(x, Orientation::Right);
}

#[test]
fn catalog_shapes() {
    let types = default_tetriminos();
    assert_eq!(types.len(), 7);
    let fusion = fusion_tetriminos();
    assert_eq!(fusion.len(), 8);
    assert_eq!(fusion[FUSION_TETRIMINO_INDEX].shapes[0], vec![Point(0, 0)]);
    let o = o_tetrimino();
    assert_eq!(o.shapes[0], vec![Point(-1, 0), Point(0, 0), Point(-1, -1), Point(0, -1)]);
    // the square looks the same in every orientation
    let mut first = o.shapes[0].clone();
    first.sort_by_key(|p| (p.1, p.0));
    for k in 1..4 {
        let mut s = o.shapes[k].clone();
        s.sort_by_key(|p| (p.1, p.0));
        assert_eq!(s, first);
    }
    let i = i_tetrimino();
    assert_eq!(i.shapes[0], vec![Point(-2, 0), Point(-1, 0), Point(0, 0), Point(1, 0)]);
    assert_eq!(i.shapes[1], vec![Point(0, 1), Point(0, 0), Point(0, -1), Point(0, -2)]);
    assert_eq!(i.get_points(), vec![Point(0, -1), Point(1, -1), Point(2, -1), Point(3, -1)]);
    assert_eq!(i.get_dimensions(), Point(4, 1));
    let kicks = i.get_wall_kicks(Orientation::Origin, Direction::Clockwise);
    assert_eq!(kicks, &vec![Point(-2, 0), Point(1, 0), Point(-2, -1), Point(1, 2)]);
}

#[test]
fn active_piece_points() {
    let o = o_tetrimino();
    let piece = o.instance(vec![2, 2, 2, 2]).as_active_instance(Point(5, 19));
    assert_eq!(piece.get_points(), vec![Point(6, 19), Point(7, 19), Point(6, 18), Point(7, 18)]);
    assert_eq!(piece.get_translated_points(Point(0, -3)), vec![Point(6, 16), Point(7, 16), Point(6, 15), Point(7, 15)]);
    let moved = piece.translated(Point(-1, 0));
    assert_eq!(moved.position, Point(4, 19));
    let mut t = moved;
    t.rotate(Direction::Clockwise);
    assert_eq!(t.orientation, Orientation::Right);
    t.translate(Point(0, -1));
    assert_eq!(t.position, Point(4, 18));
    assert_eq!(t.get_tetrimino().values, vec![2, 2, 2, 2]);
}
