use vstd::prelude::*;

use crate::point::{Point, PartialPoint};
use crate::tetrimino::{kicks_view, kicks_wf, points_view, shapes_wf, small, TetriminoType, MAX_CELLS};

verus! {

/// Largest magnitude of a doubled coordinate in a shape definition.
pub const SHAPE_DEF_LIMIT: i32 = 8;

pub open spec fn shape_def_ok(cells: Seq<PartialPoint>) -> bool {
    &&& 1 <= cells.len() <= MAX_CELLS
    &&& forall|i: int|
        0 <= i < cells.len() ==> -SHAPE_DEF_LIMIT <= #[trigger] cells[i].twice_x <= SHAPE_DEF_LIMIT
            && -SHAPE_DEF_LIMIT <= cells[i].twice_y <= SHAPE_DEF_LIMIT
}

/// The cells of a shape in each of the four orientations: the half-integer points turned
/// a quarter clockwise `o` times, then rounded down to grid cells.
pub fn all_orientations(cells: &Vec<PartialPoint>) -> (r: Vec<Vec<Point>>)
    requires
        shape_def_ok(cells@),
    ensures
        shapes_wf(points_view(r@)),
        points_view(r@)[0].len() == cells@.len(),
{
    let mut r: Vec<Vec<Point>> = Vec::new();
    let mut current: Vec<PartialPoint> = cells.clone();
    assert(current@ =~= cells@);
    let mut o: usize = 0;
    while o < 4
        invariant
            o <= 4,
            r.len() == o,
            current.len() == cells.len(),
            shape_def_ok(current@),
            shape_def_ok(cells@),
            forall|j: int| 0 <= j < o ==> (#[trigger] r@[j])@.len() == cells.len(),
            forall|j: int, i: int| 0 <= j < o && 0 <= i < r@[j]@.len() ==> small(#[trigger] r@[j]@[i]),
        decreases 4 - o,
    {
        let mut shape: Vec<Point> = Vec::new();
        let mut next: Vec<PartialPoint> = Vec::new();
        let mut i: usize = 0;
        while i < current.len()
            invariant
                i <= current.len(),
                shape.len() == i,
                next.len() == i,
                shape_def_ok(current@),
                forall|k: int| 0 <= k < i ==> small(#[trigger] shape@[k]),
                forall|k: int|
                    0 <= k < i ==> -SHAPE_DEF_LIMIT <= #[trigger] next@[k].twice_x <= SHAPE_DEF_LIMIT
                        && -SHAPE_DEF_LIMIT <= next@[k].twice_y <= SHAPE_DEF_LIMIT,
            decreases current.len() - i,
        {
            let c = current[i];
            shape.push(c.to_point());
            next.push(c.rotate_clockwise());
            i += 1;
        }
        r.push(shape);
        current = next;
        o += 1;
    }
    proof {
        let v = points_view(r@);
        assert forall|j: int| 0 <= j < 4 implies #[trigger] v[j].len() == v[0].len() by {}
        assert forall|j: int, i: int| 0 <= j < 4 && 0 <= i < v[j].len() implies small(#[trigger] v[j][i]) by {
            assert(v[j] == r@[j]@);
        }
    }
    r
}

fn pp(twice_x: i32, twice_y: i32) -> (r: PartialPoint)
    ensures
        r.twice_x == twice_x,
        r.twice_y == twice_y,
{
    PartialPoint { twice_x, twice_y }
}

/// A piece type from its unrotated half-integer cells.
pub fn tetrimino_type_from(
    cells: Vec<PartialPoint>,
    wall_kicks: Vec<Vec<Vec<Point>>>,
    bounding_box: Point,
    dimensions: Point,
) -> (r: TetriminoType)
    requires
        shape_def_ok(cells@),
        kicks_wf(kicks_view(wall_kicks@)),
        small(bounding_box),
    ensures
        r@.wf(),
        r@.cell_count() == cells@.len(),
        r@.bounding_box == bounding_box,
        r@.dimensions == dimensions,
{
    let shapes = all_orientations(&cells);
    TetriminoType::new(shapes, wall_kicks, bounding_box, dimensions)
}

fn kick_row(a: Point, b: Point, c: Point, d: Point) -> (r: Vec<Point>)
    requires
        small(a),
        small(b),
        small(c),
        small(d),
    ensures
        r@.len() == 4,
        forall|k: int| 0 <= k < 4 ==> small(#[trigger] r@[k]),
{
    let r = vec![a, b, c, d];
    assert(r@[0] == a && r@[1] == b && r@[2] == c && r@[3] == d);
    r
}

fn kick_pair(cw: Vec<Point>, ccw: Vec<Point>) -> (r: Vec<Vec<Point>>)
    requires
        cw@.len() <= MAX_CELLS,
        ccw@.len() <= MAX_CELLS,
        forall|k: int| 0 <= k < cw@.len() ==> small(#[trigger] cw@[k]),
        forall|k: int| 0 <= k < ccw@.len() ==> small(#[trigger] ccw@[k]),
    ensures
        points_view(r@).len() == 2,
        forall|d: int| 0 <= d < 2 ==> #[trigger] points_view(r@)[d].len() <= MAX_CELLS,
        forall|d: int, k: int|
            0 <= d < 2 && 0 <= k < points_view(r@)[d].len() ==> small(#[trigger] points_view(r@)[d][k]),
{
    let ghost a = cw@;
    let ghost b = ccw@;
    let r = vec![cw, ccw];
    assert(points_view(r@)[0] == a);
    assert(points_view(r@)[1] == b);
    r
}

fn kick_table(o: Vec<Vec<Point>>, r1: Vec<Vec<Point>>, a: Vec<Vec<Point>>, l: Vec<Vec<Point>>) -> (r: Vec<Vec<Vec<Point>>>)
    requires
        forall|d: int| 0 <= d < 2 ==> #[trigger] points_view(o@)[d].len() <= MAX_CELLS,
        forall|d: int| 0 <= d < 2 ==> #[trigger] points_view(r1@)[d].len() <= MAX_CELLS,
        forall|d: int| 0 <= d < 2 ==> #[trigger] points_view(a@)[d].len() <= MAX_CELLS,
        forall|d: int| 0 <= d < 2 ==> #[trigger] points_view(l@)[d].len() <= MAX_CELLS,
        points_view(o@).len() == 2,
        points_view(r1@).len() == 2,
        points_view(a@).len() == 2,
        points_view(l@).len() == 2,
        forall|d: int, k: int| 0 <= d < 2 && 0 <= k < points_view(o@)[d].len() ==> small(#[trigger] points_view(o@)[d][k]),
        forall|d: int, k: int| 0 <= d < 2 && 0 <= k < points_view(r1@)[d].len() ==> small(#[trigger] points_view(r1@)[d][k]),
        forall|d: int, k: int| 0 <= d < 2 && 0 <= k < points_view(a@)[d].len() ==> small(#[trigger] points_view(a@)[d][k]),
        forall|d: int, k: int| 0 <= d < 2 && 0 <= k < points_view(l@)[d].len() ==> small(#[trigger] points_view(l@)[d][k]),
    ensures
        kicks_wf(kicks_view(r@)),
{
    let ghost v0 = points_view(o@);
    let ghost v1 = points_view(r1@);
    let ghost v2 = points_view(a@);
    let ghost v3 = points_view(l@);
    let r = vec![o, r1, a, l];
    proof {
        let k = kicks_view(r@);
        assert(k[0] == v0 && k[1] == v1 && k[2] == v2 && k[3] == v3);
    }
    r
}

/// The wall kicks of the "I" piece.
pub fn i_wall_kicks() -> (r: Vec<Vec<Vec<Point>>>)
    ensures
        kicks_wf(kicks_view(r@)),
{
    kick_table(
        kick_pair(
            kick_row(Point(-2, 0), Point(1, 0), Point(-2, -1), Point(1, 2)),
            kick_row(Point(-1, 0), Point(2, 0), Point(-1, 2), Point(2, -1)),
        ),
        kick_pair(
            kick_row(Point(-1, 0), Point(2, 0), Point(-1, 2), Point(2, -1)),
            kick_row(Point(2, 0), Point(-1, 0), Point(2, 1), Point(-1, -2)),
        ),
        kick_pair(
            kick_row(Point(2, 0), Point(-1, 0), Point(2, 1), Point(-1, -2)),
            kick_row(Point(1, 0), Point(-2, 0), Point(1, -2), Point(-2, 1)),
        ),
        kick_pair(
            kick_row(Point(1, 0), Point(-2, 0), Point(1, -2), Point(-2, 1)),
            kick_row(Point(-2, 0), Point(1, 0), Point(-2, -1), Point(1, 2)),
        ),
    )
}

/// The wall kicks of every piece but "I".
pub fn other_wall_kicks() -> (r: Vec<Vec<Vec<Point>>>)
    ensures
        kicks_wf(kicks_view(r@)),
{
    kick_table(
        kick_pair(
            kick_row(Point(-1, 0), Point(-1, 1), Point(0, -2), Point(-1, -2)),
            kick_row(Point(1, 0), Point(1, 1), Point(0, -2), Point(1, -2)),
        ),
        kick_pair(
            kick_row(Point(1, 0), Point(1, -1), Point(0, 2), Point(1, 2)),
            kick_row(Point(1, 0), Point(1, -1), Point(0, 2), Point(1, 2)),
        ),
        kick_pair(
            kick_row(Point(1, 0), Point(1, 1), Point(0, -2), Point(1, -2)),
            kick_row(Point(-1, 0), Point(-1, 1), Point(0, -2), Point(-1, -2)),
        ),
        kick_pair(
            kick_row(Point(-1, 0), Point(-1, -1), Point(0, 2), Point(-1, 2)),
            kick_row(Point(-1, 0), Point(-1, -1), Point(0, 2), Point(-1, 2)),
        ),
    )
}

fn four_cells(a: PartialPoint, b: PartialPoint, c: PartialPoint, d: PartialPoint) -> (r: Vec<PartialPoint>)
    requires
        -SHAPE_DEF_LIMIT <= a.twice_x <= SHAPE_DEF_LIMIT && -SHAPE_DEF_LIMIT <= a.twice_y <= SHAPE_DEF_LIMIT,
        -SHAPE_DEF_LIMIT <= b.twice_x <= SHAPE_DEF_LIMIT && -SHAPE_DEF_LIMIT <= b.twice_y <= SHAPE_DEF_LIMIT,
        -SHAPE_DEF_LIMIT <= c.twice_x <= SHAPE_DEF_LIMIT && -SHAPE_DEF_LIMIT <= c.twice_y <= SHAPE_DEF_LIMIT,
        -SHAPE_DEF_LIMIT <= d.twice_x <= SHAPE_DEF_LIMIT && -SHAPE_DEF_LIMIT <= d.twice_y <= SHAPE_DEF_LIMIT,
    ensures
        shape_def_ok(r@),
        r@.len() == 4,
{
    let r = vec![a, b, c, d];
    assert(r@[0] == a && r@[1] == b && r@[2] == c && r@[3] == d);
    r
}

/// The straight piece.
pub fn i_tetrimino() -> (r: TetriminoType)
    ensures
        r@.wf(),
        r@.cell_count() == 4,
{
    tetrimino_type_from(four_cells(pp(-3, 1), pp(-1, 1), pp(1, 1), pp(3, 1)), i_wall_kicks(), Point(-2, 1), Point(4, 1))
}

/// The "T" piece.
pub fn t_tetrimino() -> (r: TetriminoType)
    ensures
        r@.wf(),
        r@.cell_count() == 4,
{
    tetrimino_type_from(four_cells(pp(-2, 0), pp(0, 0), pp(2, 0), pp(0, 2)), other_wall_kicks(), Point(-1, 1), Point(3, 2))
}

/// The square piece.
pub fn o_tetrimino() -> (r: TetriminoType)
    ensures
        r@.wf(),
        r@.cell_count() == 4,
{
    tetrimino_type_from(four_cells(pp(-1, 1), pp(1, 1), pp(-1, -1), pp(1, -1)), other_wall_kicks(), Point(-2, 0), Point(2, 2))
}

/// The "S" piece.
pub fn s_tetrimino() -> (r: TetriminoType)
    ensures
        r@.wf(),
        r@.cell_count() == 4,
{
    tetrimino_type_from(four_cells(pp(2, 2), pp(0, 2), pp(0, 0), pp(-2, 0)), other_wall_kicks(), Point(-1, 1), Point(3, 2))
}

/// The "Z" piece.
pub fn z_tetrimino() -> (r: TetriminoType)
    ensures
        r@.wf(),
        r@.cell_count() == 4,
{
    tetrimino_type_from(four_cells(pp(-2, 2), pp(0, 2), pp(0, 0), pp(2, 0)), other_wall_kicks(), Point(-1, 1), Point(3, 2))
}

/// The "L" piece.
pub fn l_tetrimino() -> (r: TetriminoType)
    ensures
        r@.wf(),
        r@.cell_count() == 4,
{
    tetrimino_type_from(four_cells(pp(-2, 2), pp(2, 0), pp(0, 0), pp(-2, 0)), other_wall_kicks(), Point(-1, 1), Point(3, 2))
}

/// The "J" piece.
pub fn j_tetrimino() -> (r: TetriminoType)
    ensures
        r@.wf(),
        r@.cell_count() == 4,
{
    tetrimino_type_from(four_cells(pp(2, 2), pp(2, 0), pp(0, 0), pp(-2, 0)), other_wall_kicks(), Point(-1, 1), Point(3, 2))
}

/// The single-cell wildcard piece of the fusion rules.
pub fn fusion_tetrimino() -> (r: TetriminoType)
    ensures
        r@.wf(),
        r@.cell_count() == 1,
{
    let c = pp(0, 0);
    let cells = vec![c];
    assert(cells@[0] == c);
    tetrimino_type_from(cells, other_wall_kicks(), Point(0, 0), Point(1, 1))
}

pub open spec fn catalog_wf(types: Seq<TetriminoType>) -> bool {
    forall|i: int| 0 <= i < types.len() ==> (#[trigger] types[i])@.wf()
}

/// The seven standard pieces: I, T, O, S, Z, L, J, in that order.
pub fn default_tetriminos() -> (r: Vec<TetriminoType>)
    ensures
        r.len() == 7,
        catalog_wf(r@),
{
    let r = vec![i_tetrimino(), t_tetrimino(), o_tetrimino(), s_tetrimino(), z_tetrimino(), l_tetrimino(), j_tetrimino()];
    r
}

/// The standard pieces followed by the fusion wildcard piece.
pub fn fusion_tetriminos() -> (r: Vec<TetriminoType>)
    ensures
        r.len() == 8,
        catalog_wf(r@),
        r@[FUSION_TETRIMINO_INDEX as int]@.cell_count() == 1,
{
    let mut r = default_tetriminos();
    r.push(fusion_tetrimino());
    r
}

/// Index of the wildcard piece in `fusion_tetriminos`; cells of that piece carry it as their value.
pub const FUSION_TETRIMINO_INDEX: usize = 7;

} // verus!
