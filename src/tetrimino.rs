use vstd::prelude::*;

use crate::orientation::{Direction, Orientation};
use crate::point::{pt, Point};

verus! {

/// Largest magnitude of a coordinate in a piece definition (cells, kicks, bounding box).
pub const PIECE_LIMIT: i32 = 16;

/// Largest number of cells a piece may have.
pub const MAX_CELLS: usize = 16;

/// Largest magnitude of an active piece's position coordinates.
pub const POSITION_LIMIT: i32 = 536870912;

pub type CellValue = u32;

pub open spec fn small(p: Point) -> bool {
    -PIECE_LIMIT <= p.0 <= PIECE_LIMIT && -PIECE_LIMIT <= p.1 <= PIECE_LIMIT
}

pub open spec fn within(x: int, y: int) -> bool {
    -POSITION_LIMIT <= x <= POSITION_LIMIT && -POSITION_LIMIT <= y <= POSITION_LIMIT
}

pub open spec fn placeable(p: Point) -> bool {
    within(p.0 as int, p.1 as int)
}

/// `shape` moved by `(dx, dy)`.
pub open spec fn shifted(shape: Seq<Point>, dx: int, dy: int) -> Seq<Point> {
    Seq::new(shape.len(), |i: int| pt(shape[i].0 + dx, shape[i].1 + dy))
}

pub open spec fn points_view(v: Seq<Vec<Point>>) -> Seq<Seq<Point>> {
    Seq::new(v.len(), |i: int| v[i]@)
}

pub open spec fn kicks_view(v: Seq<Vec<Vec<Point>>>) -> Seq<Seq<Seq<Point>>> {
    Seq::new(v.len(), |i: int| points_view(v[i]@))
}

/// The abstract content of a piece type.
pub struct PieceShape {
    /// one cell list per orientation, in clockwise order
    pub shapes: Seq<Seq<Point>>,
    /// kick offsets, indexed by orientation then rotation direction
    pub kicks: Seq<Seq<Seq<Point>>>,
    pub bounding_box: Point,
    pub dimensions: Point,
}

impl PieceShape {
    pub open spec fn cell_count(self) -> int {
        self.shapes[0].len() as int
    }

    pub open spec fn wf(self) -> bool {
        &&& shapes_wf(self.shapes)
        &&& kicks_wf(self.kicks)
        &&& small(self.bounding_box)
    }
}

/// Four cell lists of one common, nonzero length, with small coordinates.
pub open spec fn shapes_wf(shapes: Seq<Seq<Point>>) -> bool {
    &&& shapes.len() == 4
    &&& 1 <= shapes[0].len() <= MAX_CELLS
    &&& forall|o: int| 0 <= o < 4 ==> #[trigger] shapes[o].len() == shapes[0].len()
    &&& forall|o: int, i: int| 0 <= o < 4 && 0 <= i < shapes[o].len() ==> small(#[trigger] shapes[o][i])
}

/// A kick list for each orientation and direction, with small offsets.
pub open spec fn kicks_wf(kicks: Seq<Seq<Seq<Point>>>) -> bool {
    &&& kicks.len() == 4
    &&& forall|o: int| 0 <= o < 4 ==> #[trigger] kicks[o].len() == 2
    &&& forall|o: int, d: int| 0 <= o < 4 && 0 <= d < 2 ==> #[trigger] kicks[o][d].len() <= MAX_CELLS
    &&& forall|o: int, d: int, k: int|
        0 <= o < 4 && 0 <= d < 2 && 0 <= k < kicks[o][d].len() ==> small(#[trigger] kicks[o][d][k])
}

/// The immutable description of one kind of piece: its cells in each orientation,
/// its wall-kick table and its bounding box.
pub struct TetriminoType {
    pub shapes: Vec<Vec<Point>>,
    pub wall_kicks: Vec<Vec<Vec<Point>>>,
    pub bounding_box: Point,
    pub dimensions: Point,
}

impl View for TetriminoType {
    type V = PieceShape;

    open spec fn view(&self) -> PieceShape {
        PieceShape {
            shapes: points_view(self.shapes@),
            kicks: kicks_view(self.wall_kicks@),
            bounding_box: self.bounding_box,
            dimensions: self.dimensions,
        }
    }
}

/// A copy of a list of points.
pub fn copy_points(v: &Vec<Point>) -> (r: Vec<Point>)
    ensures
        r@ == v@,
{
    let mut r: Vec<Point> = Vec::new();
    let mut i: usize = 0;
    while i < v.len()
        invariant
            i <= v.len(),
            r@ == v@.subrange(0, i as int),
        decreases v.len() - i,
    {
        r.push(v[i]);
        i += 1;
    }
    assert(r@ =~= v@);
    r
}

fn copy_point_lists(v: &Vec<Vec<Point>>) -> (r: Vec<Vec<Point>>)
    ensures
        points_view(r@) == points_view(v@),
{
    let mut r: Vec<Vec<Point>> = Vec::new();
    let mut i: usize = 0;
    while i < v.len()
        invariant
            i <= v.len(),
            r.len() == i,
            forall|j: int| 0 <= j < i ==> #[trigger] r@[j]@ == v@[j]@,
        decreases v.len() - i,
    {
        r.push(copy_points(&v[i]));
        i += 1;
    }
    assert(points_view(r@) =~= points_view(v@));
    r
}

fn copy_kick_table(v: &Vec<Vec<Vec<Point>>>) -> (r: Vec<Vec<Vec<Point>>>)
    ensures
        kicks_view(r@) == kicks_view(v@),
{
    let mut r: Vec<Vec<Vec<Point>>> = Vec::new();
    let mut i: usize = 0;
    while i < v.len()
        invariant
            i <= v.len(),
            r.len() == i,
            forall|j: int| 0 <= j < i ==> points_view(#[trigger] r@[j]@) == points_view(v@[j]@),
        decreases v.len() - i,
    {
        r.push(copy_point_lists(&v[i]));
        i += 1;
    }
    assert(kicks_view(r@) =~= kicks_view(v@));
    r
}

/// `points` each moved by `(dx, dy)`.
pub fn shift_points(points: &Vec<Point>, dx: i32, dy: i32) -> (r: Vec<Point>)
    requires
        forall|i: int|
            0 <= i < points.len() ==> i32::MIN <= #[trigger] points@[i].0 + dx <= i32::MAX
                && i32::MIN <= points@[i].1 + dy <= i32::MAX,
    ensures
        r@ == shifted(points@, dx as int, dy as int),
{
    let mut r: Vec<Point> = Vec::new();
    let mut i: usize = 0;
    while i < points.len()
        invariant
            i <= points.len(),
            forall|k: int|
                0 <= k < points.len() ==> i32::MIN <= #[trigger] points@[k].0 + dx <= i32::MAX
                    && i32::MIN <= points@[k].1 + dy <= i32::MAX,
            r@ == shifted(points@, dx as int, dy as int).subrange(0, i as int),
        decreases points.len() - i,
    {
        let p = points[i];
        r.push(Point(p.0 + dx, p.1 + dy));
        i += 1;
    }
    assert(r@ =~= shifted(points@, dx as int, dy as int));
    r
}

impl TetriminoType {
    pub fn new(
        shapes: Vec<Vec<Point>>,
        wall_kicks: Vec<Vec<Vec<Point>>>,
        bounding_box: Point,
        dimensions: Point,
    ) -> (r: TetriminoType)
        ensures
            r@.shapes == points_view(shapes@),
            r@.kicks == kicks_view(wall_kicks@),
            r@.bounding_box == bounding_box,
            r@.dimensions == dimensions,
    {
        TetriminoType { shapes, wall_kicks, bounding_box, dimensions }
    }

    /// A copy of this piece type.
    pub fn copy(&self) -> (r: TetriminoType)
        ensures
            r@ == self@,
    {
        TetriminoType {
            shapes: copy_point_lists(&self.shapes),
            wall_kicks: copy_kick_table(&self.wall_kicks),
            bounding_box: self.bounding_box,
            dimensions: self.dimensions,
        }
    }

    /// A piece of this type whose cells carry `values`.
    pub fn instance(&self, values: Vec<CellValue>) -> (r: Tetrimino)
        ensures
            r.tetrimino_type@ == self@,
            r.values@ == values@,
    {
        Tetrimino::new(self.copy(), values)
    }

    /// The kick offsets tried, in order, when rotating from `orientation` in `direction`.
    pub fn get_wall_kicks(&self, orientation: Orientation, direction: Direction) -> (r: &Vec<
        Point,
    >)
        requires
            self@.wf(),
        ensures
            r@ == self@.kicks[orientation.spec_index()][direction.spec_index()],
    {
        let o = orientation.index();
        let d = direction.index();
        let row = &self.wall_kicks[o];
        assert(points_view(row@) == self@.kicks[o as int]);
        assert(self@.kicks[o as int].len() == 2);
        assert(points_view(row@).len() == row@.len());
        assert(row@[d as int]@ == points_view(row@)[d as int]);
        &row[d]
    }

    /// The cells of the unrotated shape, relative to the bounding box's corner.
    pub fn get_points(&self) -> (r: Vec<Point>)
        requires
            self@.wf(),
        ensures
            r@ == shifted(
                self@.shapes[0],
                -self.bounding_box.0 as int,
                -self.bounding_box.1 as int,
            ),
    {
        let shape = &self.shapes[0];
        assert(forall|i: int| 0 <= i < shape.len() ==> small(#[trigger] self@.shapes[0][i]));
        shift_points(shape, -self.bounding_box.0, -self.bounding_box.1)
    }

    pub fn get_dimensions(&self) -> (r: Point)
        ensures
            r == self.dimensions,
    {
        self.dimensions
    }
}

/// A piece of a given type whose cells carry values (a color or an identity tag).
pub struct Tetrimino {
    pub tetrimino_type: TetriminoType,
    pub values: Vec<CellValue>,
}

impl Tetrimino {
    pub open spec fn wf(&self) -> bool {
        &&& self.tetrimino_type@.wf()
        &&& self.values.len() == self.tetrimino_type@.cell_count()
    }

    pub fn new(tetrimino_type: TetriminoType, values: Vec<CellValue>) -> (r: Tetrimino)
        ensures
            r.tetrimino_type@ == tetrimino_type@,
            r.values@ == values@,
    {
        Tetrimino { tetrimino_type, values }
    }

    /// A copy of this piece.
    pub fn copy(&self) -> (r: Tetrimino)
        ensures
            r.tetrimino_type@ == self.tetrimino_type@,
            r.values@ == self.values@,
    {
        Tetrimino { tetrimino_type: self.tetrimino_type.copy(), values: self.values.clone() }
    }

    /// The piece placed at `position` in its starting orientation.
    pub fn as_active_instance(self, position: Point) -> (r: ActiveTetrimino)
        ensures
            r.position == position,
            r.orientation == Orientation::Origin,
            r.tetrimino == self,
    {
        ActiveTetrimino::new(position, self)
    }
}

/// A piece in play: where it is, how it is turned, and which piece it is.
pub struct ActiveTetrimino {
    pub position: Point,
    pub orientation: Orientation,
    pub tetrimino: Tetrimino,
}

impl ActiveTetrimino {
    pub open spec fn wf(&self) -> bool {
        &&& self.tetrimino.wf()
        &&& placeable(self.position)
    }

    /// The cells of the piece in orientation `o`, with its position moved by `(dx, dy)`.
    pub open spec fn cells_at(&self, o: int, dx: int, dy: int) -> Seq<Point> {
        let ty = self.tetrimino.tetrimino_type@;
        shifted(
            ty.shapes[o],
            self.position.0 - ty.bounding_box.0 + dx,
            self.position.1 - ty.bounding_box.1 + dy,
        )
    }

    /// The cells the piece occupies.
    pub open spec fn cells(&self) -> Seq<Point> {
        self.cells_at(self.orientation.spec_index(), 0, 0)
    }

    pub fn new(position: Point, tetrimino: Tetrimino) -> (r: ActiveTetrimino)
        ensures
            r.position == position,
            r.orientation == Orientation::Origin,
            r.tetrimino == tetrimino,
    {
        ActiveTetrimino { position, orientation: Orientation::Origin, tetrimino }
    }

    /// The piece moved by `translation`.
    pub fn translated(self, translation: Point) -> (r: ActiveTetrimino)
        requires
            within(self.position.0 + translation.0, self.position.1 + translation.1),
        ensures
            r.position == pt(self.position.0 + translation.0, self.position.1 + translation.1),
            r.orientation == self.orientation,
            r.tetrimino == self.tetrimino,
    {
        let mut s = self;
        s.position = s.position.plus(translation);
        s
    }

    pub fn translate(&mut self, direction: Point)
        requires
            within(old(self).position.0 + direction.0, old(self).position.1 + direction.1),
        ensures
            final(self).position == pt(
                old(self).position.0 + direction.0,
                old(self).position.1 + direction.1,
            ),
            final(self).orientation == old(self).orientation,
            final(self).tetrimino == old(self).tetrimino,
    {
        self.position = self.position.plus(direction);
    }

    pub fn rotate(&mut self, direction: Direction)
        ensures
            final(self).position == old(self).position,
            final(self).orientation == old(self).orientation.spec_rotated(direction),
            final(self).tetrimino == old(self).tetrimino,
    {
        self.orientation = self.orientation.rotated(direction);
    }

    pub fn get_points(&self) -> (r: Vec<Point>)
        requires
            self.wf(),
        ensures
            r@ == self.cells(),
    {
        self.get_translated_points(Point(0, 0))
    }

    /// The cells the piece would occupy if moved by `translation`.
    pub fn get_translated_points(&self, translation: Point) -> (r: Vec<Point>)
        requires
            self.wf(),
            placeable(translation),
        ensures
            r@ == self.cells_at(
                self.orientation.spec_index(),
                translation.0 as int,
                translation.1 as int,
            ),
    {
        self.points_in(self.orientation, translation)
    }

    /// The cells the piece would occupy, in place, once rotated in `direction`.
    pub fn get_rotated_points(&self, direction: Direction) -> (r: Vec<Point>)
        requires
            self.wf(),
        ensures
            r@ == self.cells_at(self.orientation.spec_rotated(direction).spec_index(), 0, 0),
    {
        self.points_in(self.orientation.rotated(direction), Point(0, 0))
    }

    /// The cells the piece would occupy turned to `orientation` and moved by `translation`.
    pub fn points_in(&self, orientation: Orientation, translation: Point) -> (r: Vec<Point>)
        requires
            self.wf(),
            placeable(translation),
        ensures
            r@ == self.cells_at(
                orientation.spec_index(),
                translation.0 as int,
                translation.1 as int,
            ),
    {
        let ty = &self.tetrimino.tetrimino_type;
        let o = orientation.index();
        let dx = self.position.0 - ty.bounding_box.0 + translation.0;
        let dy = self.position.1 - ty.bounding_box.1 + translation.1;
        let shape = &ty.shapes[o];
        assert(shape@ == ty@.shapes[o as int]);
        assert(forall|i: int| 0 <= i < shape.len() ==> small(#[trigger] ty@.shapes[o as int][i]));
        shift_points(shape, dx, dy)
    }

    pub fn get_tetrimino(&self) -> (r: &Tetrimino)
        ensures
            r == self.tetrimino,
    {
        &self.tetrimino
    }
}

} // verus!
