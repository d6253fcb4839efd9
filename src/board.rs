use vstd::prelude::*;

use crate::point::Point;
use crate::tetrimino::{ActiveTetrimino, CellValue};

verus! {

/// Largest width or height a board may be configured with: its coordinates, with a piece's
/// offsets added, must fit an `i32`.
pub const MAX_DIM: usize = 536870912;

pub type Cell = Option<CellValue>;

/// Number of filled cells in a row.
pub open spec fn filled_count(s: Seq<Cell>) -> nat
    decreases s.len(),
{
    if s.len() == 0 {
        0
    } else {
        filled_count(s.drop_last()) + if s.last() is Some { 1nat } else { 0nat }
    }
}

proof fn lemma_count_update(s: Seq<Cell>, i: int, c: Cell)
    requires
        0 <= i < s.len(),
    ensures
        filled_count(s.update(i, c)) + (if s[i] is Some { 1int } else { 0int }) == filled_count(s)
            + (if c is Some { 1int } else { 0int }),
    decreases s.len(),
{
    let t = s.update(i, c);
    if i == s.len() - 1 {
        assert(t.drop_last() =~= s.drop_last());
    } else {
        assert(t.drop_last() =~= s.drop_last().update(i, c));
        lemma_count_update(s.drop_last(), i, c);
    }
}

proof fn lemma_count_bounds(s: Seq<Cell>)
    ensures
        filled_count(s) <= s.len(),
        filled_count(s) == s.len() <==> (forall|i: int| 0 <= i < s.len() ==> #[trigger] s[i] is Some),
        filled_count(s) == 0 <==> (forall|i: int| 0 <= i < s.len() ==> #[trigger] s[i] is None),
    decreases s.len(),
{
    if s.len() > 0 {
        lemma_count_bounds(s.drop_last());
        let d = s.drop_last();
        assert(forall|i: int| 0 <= i < d.len() ==> d[i] == s[i]);
        if filled_count(s) == s.len() {
            assert forall|i: int| 0 <= i < s.len() implies #[trigger] s[i] is Some by {
                if i < s.len() - 1 {
                    assert(d[i] == s[i]);
                }
            }
        }
        if filled_count(s) == 0 {
            assert forall|i: int| 0 <= i < s.len() implies #[trigger] s[i] is None by {
                if i < s.len() - 1 {
                    assert(d[i] == s[i]);
                }
            }
        }
    }
}

proof fn lemma_count_empty(n: nat)
    ensures
        filled_count(Seq::new(n, |i: int| None::<CellValue>)) == 0,
{
    let s = Seq::new(n, |i: int| None::<CellValue>);
    lemma_count_bounds(s);
}

/// Every cell of row `y` of width `width` is present in `m`.
pub open spec fn row_full(m: Map<(int, int), CellValue>, width: int, y: int) -> bool {
    forall|x: int| 0 <= x < width ==> #[trigger] m.contains_key((x, y))
}


/// `m` after each of `cells` is filled with the matching value, skipping cells already filled.
pub open spec fn placed(
    m: Map<(int, int), CellValue>,
    cells: Seq<Point>,
    values: Seq<CellValue>,
    n: int,
) -> Map<(int, int), CellValue>
    decreases n,
{
    if n <= 0 {
        m
    } else {
        let prev = placed(m, cells, values, n - 1);
        let k = (cells[n - 1].0 as int, cells[n - 1].1 as int);
        if prev.contains_key(k) {
            prev
        } else {
            prev.insert(k, values[n - 1])
        }
    }
}

/// `m` with the cell of each of the first `n` points emptied.
pub open spec fn without_points(m: Map<(int, int), CellValue>, points: Seq<Point>, n: int) -> Map<
    (int, int),
    CellValue,
>
    decreases n,
{
    if n <= 0 {
        m
    } else {
        without_points(m, points, n - 1).remove((points[n - 1].0 as int, points[n - 1].1 as int))
    }
}

/// Whether a drop of the filled cell `p` by `fall` rows applies: the cell is filled and
/// the drop neither rises nor passes the floor.
pub open spec fn drop_applies(m: Map<(int, int), CellValue>, p: Point, fall: i32) -> bool {
    m.contains_key((p.0 as int, p.1 as int)) && 0 <= fall <= p.1
}

/// One drop: the value at `p` moves `fall` rows down, unless its target is taken, in which
/// case it is lost.
pub open spec fn drop_step(m: Map<(int, int), CellValue>, p: Point, fall: i32) -> Map<(int, int), CellValue> {
    if drop_applies(m, p, fall) {
        let v = m[(p.0 as int, p.1 as int)];
        let m1 = m.remove((p.0 as int, p.1 as int));
        let t = (p.0 as int, p.1 - fall);
        if m1.contains_key(t) {
            m1
        } else {
            m1.insert(t, v)
        }
    } else {
        m
    }
}

/// `m` after the first `n` drops, in order.
pub open spec fn after_drops(m: Map<(int, int), CellValue>, drops: Seq<(Point, i32)>, n: int) -> Map<
    (int, int),
    CellValue,
>
    decreases n,
{
    if n <= 0 {
        m
    } else {
        let prev = after_drops(m, drops, n - 1);
        drop_step(prev, drops[n - 1].0, drops[n - 1].1)
    }
}

/// The target rows of the first `n` drops that applied and left their target row full.
pub open spec fn rows_filled_by_drops(
    m: Map<(int, int), CellValue>,
    drops: Seq<(Point, i32)>,
    width: int,
    n: int,
) -> Seq<i32>
    decreases n,
{
    if n <= 0 {
        Seq::empty()
    } else {
        let prev = rows_filled_by_drops(m, drops, width, n - 1);
        let p = drops[n - 1].0;
        let f = drops[n - 1].1;
        if drop_applies(after_drops(m, drops, n - 1), p, f) && row_full(
            after_drops(m, drops, n),
            width,
            p.1 - f,
        ) {
            prev.push((p.1 - f) as i32)
        } else {
            prev
        }
    }
}

proof fn lemma_row_full_insert(m: Map<(int, int), CellValue>, width: int, k: (int, int), v: CellValue, y: int)
    requires
        k.1 != y,
    ensures
        row_full(m.insert(k, v), width, y) == row_full(m, width, y),
{
    if row_full(m.insert(k, v), width, y) {
        assert forall|x: int| 0 <= x < width implies #[trigger] m.contains_key((x, y)) by {
            assert(m.insert(k, v).contains_key((x, y)));
        }
    }
}

pub fn contains_row(rows: &Vec<i32>, y: i32) -> (r: bool)
    ensures
        r == rows@.contains(y),
{
    let mut i: usize = 0;
    while i < rows.len()
        invariant
            i <= rows.len(),
            forall|j: int| 0 <= j < i ==> rows@[j] != y,
        decreases rows.len() - i,
    {
        if rows[i] == y {
            return true;
        }
        i += 1;
    }
    false
}

/// The grid of a game: rows from the bottom, each a run of optional cell values.
/// Only the rows up to the highest one in use are stored.
pub struct Board {
    rows: Vec<Vec<Cell>>,
    counts: Vec<usize>,
    height: usize,
    width: usize,
}

impl Board {
    pub closed spec fn spec_width(&self) -> int {
        self.width as int
    }

    pub closed spec fn spec_height(&self) -> int {
        self.height as int
    }

    pub closed spec fn stored_rows(&self) -> int {
        self.rows@.len() as int
    }

    pub closed spec fn cell_at(&self, x: int, y: int) -> Cell {
        self.rows@[y]@[x]
    }

    /// The filled cells, keyed by (column, row).
    pub closed spec fn cells(&self) -> Map<(int, int), CellValue> {
        Map::new(
            |k: (int, int)|
                0 <= k.1 < self.rows@.len() && 0 <= k.0 < self.width && self.cell_at(k.0, k.1) is Some,
            |k: (int, int)| self.cell_at(k.0, k.1)->Some_0,
        )
    }

    /// A cell is filled when it lies left, right or below the board, or holds a value.
    pub open spec fn filled(&self, x: int, y: int) -> bool {
        x < 0 || x >= self.spec_width() || y < 0 || self.cells().contains_key((x, y))
    }

    pub open spec fn full(&self, y: int) -> bool {
        row_full(self.cells(), self.spec_width(), y)
    }

    pub closed spec fn wf(&self) -> bool {
        &&& 1 <= self.width <= MAX_DIM
        &&& self.height <= MAX_DIM
        &&& self.width * self.height <= usize::MAX
        &&& self.rows@.len() == self.counts@.len()
        &&& self.rows@.len() <= self.height
        &&& forall|y: int| 0 <= y < self.rows@.len() ==> (#[trigger] self.rows@[y])@.len() == self.width
        &&& forall|y: int|
            0 <= y < self.rows@.len() ==> #[trigger] self.counts@[y] == filled_count(self.rows@[y]@)
    }

    /// The board state after the unchanged dimensions: same width and height.
    pub open spec fn same_shape(&self, other: &Board) -> bool {
        self.spec_width() == other.spec_width() && self.spec_height() == other.spec_height()
    }

    pub fn new(width: usize, height: usize) -> (r: Board)
        requires
            1 <= width <= MAX_DIM,
            height <= MAX_DIM,
            width * height <= usize::MAX,
        ensures
            r.wf(),
            r.spec_width() == width,
            r.spec_height() == height,
            r.cells() == Map::<(int, int), CellValue>::empty(),
            r.stored_rows() == 0,
    {
        let r = Board { rows: Vec::new(), counts: Vec::new(), width, height };
        assert(r.cells() =~= Map::<(int, int), CellValue>::empty());
        r
    }

    proof fn lemma_full_count(&self, y: int)
        requires
            self.wf(),
            0 <= y < self.rows@.len(),
        ensures
            self.full(y) <==> self.counts@[y] == self.width,
    {
        let row = self.rows@[y]@;
        lemma_count_bounds(row);
        if self.full(y) {
            assert forall|i: int| 0 <= i < row.len() implies #[trigger] row[i] is Some by {
                assert(self.cells().contains_key((i, y)));
            }
        }
        if self.counts@[y] == self.width {
            assert forall|x: int| 0 <= x < self.width implies #[trigger] self.cells().contains_key((x, y)) by {
                assert(row[x] is Some);
            }
        }
    }

    proof fn lemma_unstored_not_full(&self, y: int)
        requires
            self.wf(),
            y >= self.rows@.len() || y < 0,
        ensures
            !self.full(y),
    {
        assert(!self.cells().contains_key((0, y)));
    }

    /// Whether row `y` is stored and every one of its cells is filled.
    pub fn is_row_full(&self, y: i32) -> (r: bool)
        requires
            self.wf(),
        ensures
            r == self.full(y as int),
    {
        if y < 0 || y as usize >= self.rows.len() {
            proof { self.lemma_unstored_not_full(y as int); }
            false
        } else {
            proof { self.lemma_full_count(y as int); }
            self.counts[y as usize] == self.width
        }
    }

    /// The content of a stored cell.
    pub fn get_cell(&self, point: Point) -> (r: Cell)
        requires
            self.wf(),
            0 <= point.0 < self.spec_width(),
            0 <= point.1 < self.stored_rows(),
        ensures
            r == self.cell_at(point.0 as int, point.1 as int),
            r is Some <==> self.cells().contains_key((point.0 as int, point.1 as int)),
            r is Some ==> r->Some_0 == self.cells()[(point.0 as int, point.1 as int)],
    {
        self.rows[point.1 as usize][point.0 as usize]
    }

    /// The value of the cell at `point`, if it is on the board and filled.
    pub fn value_at(&self, point: Point) -> (r: Cell)
        requires
            self.wf(),
        ensures
            r is Some <==> self.cells().contains_key((point.0 as int, point.1 as int)),
            r is Some ==> r->Some_0 == self.cells()[(point.0 as int, point.1 as int)],
    {
        if point.0 < 0 || point.0 as usize >= self.width || point.1 < 0 || point.1 as usize >= self.rows.len() {
            None
        } else {
            self.get_cell(point)
        }
    }

    /// Fills the cell at `point` with `value` unless it is already filled, growing the
    /// stored rows up to it. Fails, leaving the cells as they were, when the row would
    /// exceed the configured height.
    pub fn fill_point(&mut self, point: Point, value: CellValue) -> (r: bool)
        requires
            old(self).wf(),
            0 <= point.0 < old(self).spec_width(),
            0 <= point.1,
        ensures
            final(self).wf(),
            final(self).same_shape(old(self)),
            r == (point.1 < old(self).spec_height()),
            r ==> final(self).cells() == if old(self).cells().contains_key((point.0 as int, point.1 as int)) {
                old(self).cells()
            } else {
                old(self).cells().insert((point.0 as int, point.1 as int), value)
            },
            !r ==> *final(self) == *old(self),
            final(self).stored_rows() >= old(self).stored_rows(),
            r ==> final(self).stored_rows() > point.1,
    {
        let ghost old_cells = self.cells();
        assert(old_cells == old(self).cells());
        if point.1 as usize >= self.height {
            return false;
        }
        let y = point.1 as usize;
        let x = point.0 as usize;
        while y >= self.rows.len()
            invariant
                self.wf(),
                self.width == old(self).width,
                self.height == old(self).height,
                self.cells() == old_cells,
                old_cells == old(self).cells(),
                self.rows@.len() >= old(self).rows@.len(),
                y == point.1,
                y < self.height,
            decreases y + 1 - self.rows.len(),
        {
            if self.rows.len() >= self.height {
                return false;
            }
            let ghost before = self.cells();
            let row: Vec<Cell> = vec![None; self.width];
            proof {
                assert(row@ =~= Seq::new(self.width as nat, |i: int| None::<CellValue>));
                lemma_count_empty(self.width as nat);
            }
            self.rows.push(row);
            self.counts.push(0);
            assert(self.cells() =~= before);
        }
        if self.rows[y][x].is_none() {
            proof {
                lemma_count_update(self.rows@[y as int]@, x as int, Some(value));
                lemma_count_bounds(self.rows@[y as int]@.update(x as int, Some(value)));
            }
            let c = self.counts[y] + 1;
            self.counts.set(y, c);
            self.rows[y].set(x, Some(value));
            assert(self.cells() =~= old_cells.insert((point.0 as int, point.1 as int), value));
        }
        true
    }

    /// Empties the filled cell at `point`. When that leaves the topmost stored row empty,
    /// it and every empty row below it are no longer stored.
    pub fn unfill_point(&mut self, point: Point)
        requires
            old(self).wf(),
            old(self).cells().contains_key((point.0 as int, point.1 as int)),
        ensures
            final(self).wf(),
            final(self).same_shape(old(self)),
            final(self).cells() == old(self).cells().remove((point.0 as int, point.1 as int)),
            final(self).stored_rows() <= old(self).stored_rows(),
            0 < final(self).stored_rows() < old(self).stored_rows() ==> exists|x: int|
                #[trigger] final(self).cells().contains_key((x, final(self).stored_rows() - 1)),
            final(self).stored_rows() < old(self).stored_rows() <==> (point.1 == old(self).stored_rows() - 1
                && forall|x: int| !#[trigger] final(self).cells().contains_key((x, point.1 as int))),
    {
        let ghost old_cells = self.cells();
        let y = point.1 as usize;
        let x = point.0 as usize;
        proof {
            lemma_count_update(self.rows@[y as int]@, x as int, None);
        }
        let c = self.counts[y] - 1;
        self.counts.set(y, c);
        self.rows[y].set(x, None);
        assert(self.cells() =~= old_cells.remove((point.0 as int, point.1 as int)));
        proof {
            let row = self.rows@[y as int]@;
            lemma_count_bounds(row);
            if c != 0 {
                let i = choose|i: int| 0 <= i < row.len() && !(row[i] is None);
                assert(self.cells().contains_key((i, y as int)));
            } else {
                assert forall|x2: int| !#[trigger] self.cells().contains_key((x2, point.1 as int)) by {
                    if self.cells().contains_key((x2, point.1 as int)) {
                        assert(row[x2] is Some);
                    }
                }
            }
        }
        if c == 0 && y + 1 == self.rows.len() {
            while self.rows.len() > 0 && self.counts[self.rows.len() - 1] == 0
                invariant
                    self.wf(),
                    self.rows@.len() <= y + 1,
                    self.width == old(self).width,
                    self.height == old(self).height,
                    self.cells() == old_cells.remove((point.0 as int, point.1 as int)),
                    self.rows@.len() <= old(self).rows@.len(),
                decreases self.rows.len(),
            {
                let ghost before = self.cells();
                proof {
                    let last = self.rows@.len() - 1;
                    lemma_count_bounds(self.rows@[last]@);
                }
                self.rows.pop();
                self.counts.pop();
                proof {
                    assert forall|k: (int, int)| #[trigger] before.contains_key(k) implies self.cells().contains_key(k) by {
                        if k.1 == self.rows@.len() {
                            assert(old(self).rows@.len() >= 1);
                        }
                    }
                }
                assert(self.cells() =~= before);
            }
            proof {
                if 0 < self.rows@.len() {
                    let last = self.rows@.len() - 1;
                    lemma_count_bounds(self.rows@[last]@);
                    let i = choose|i: int| 0 <= i < self.rows@[last]@.len() && !(self.rows@[last]@[i] is None);
                    assert(self.cells().contains_key((i, last)));
                }
            }
        }
    }

    /// A filled cell lies on a stored row, within the width, below the configured height.
    pub proof fn lemma_cells_in_range(&self, k: (int, int))
        requires
            self.wf(),
            self.cells().contains_key(k),
        ensures
            0 <= k.0 < self.spec_width(),
            0 <= k.1 < self.stored_rows(),
            k.1 < self.spec_height(),
    {
    }

    /// The dimensions of a well-formed board are within `MAX_DIM`, with at least one column.
    pub proof fn lemma_dims(&self)
        requires
            self.wf(),
        ensures
            1 <= self.spec_width() <= MAX_DIM,
            0 <= self.spec_height() <= MAX_DIM,
            0 <= self.stored_rows() <= MAX_DIM,
            self.stored_rows() <= self.spec_height(),
            self.stored_rows() * self.spec_width() <= usize::MAX,
    {
        assert(self.stored_rows() * self.spec_width() <= self.spec_height() * self.spec_width()) by (nonlinear_arith)
            requires self.stored_rows() <= self.spec_height(), 0 <= self.spec_width(), 0 <= self.stored_rows();
        assert(self.spec_height() * self.spec_width() == self.width * self.height) by (nonlinear_arith);
    }

    /// Whether row `y` is one that `clear_rows(rows)` removes: requested and full.
    pub open spec fn removed_by(&self, rows: Seq<i32>, y: int) -> bool {
        rows.contains(y as i32) && self.full(y)
    }

    /// Number of rows below `y` that `clear_rows(rows)` removes.
    pub open spec fn removed_below(&self, rows: Seq<i32>, y: int) -> int
        decreases y,
    {
        if y <= 0 {
            0
        } else {
            self.removed_below(rows, y - 1) + if self.removed_by(rows, y - 1) { 1int } else { 0int }
        }
    }

    proof fn lemma_removed_below_mono(&self, rows: Seq<i32>, a: int, b: int)
        requires
            0 <= a <= b,
        ensures
            0 <= self.removed_below(rows, a) <= a,
            a - self.removed_below(rows, a) <= b - self.removed_below(rows, b),
        decreases b - a + b,
    {
        if a < b {
            self.lemma_removed_below_mono(rows, a, b - 1);
        } else if a > 0 {
            self.lemma_removed_below_mono(rows, a - 1, a - 1);
        }
    }

    /// Fills each cell of the piece with its value. Returns the rows of the piece that are
    /// full afterwards, each once, or `None`, leaving the board as it was, when a cell lies
    /// at or above the configured height.
    pub fn add_tetrimino(&mut self, tetrimino: ActiveTetrimino) -> (r: Option<Vec<i32>>)
        requires
            old(self).wf(),
            tetrimino.wf(),
            forall|i: int|
                0 <= i < tetrimino.cells().len() ==> 0 <= (#[trigger] tetrimino.cells()[i]).0 < old(self).spec_width()
                    && 0 <= tetrimino.cells()[i].1,
        ensures
            final(self).wf(),
            final(self).same_shape(old(self)),
            r is None <==> exists|i: int|
                0 <= i < tetrimino.cells().len() && (#[trigger] tetrimino.cells()[i]).1 >= old(self).spec_height(),
            r is None ==> *final(self) == *old(self),
            r is Some ==> r->Some_0@.no_duplicates(),
            r is Some ==> final(self).cells() == placed(
                old(self).cells(),
                tetrimino.cells(),
                tetrimino.tetrimino.values@,
                tetrimino.cells().len() as int,
            ),
            r is Some ==> forall|y: int|
                #![trigger r->Some_0@.contains(y as i32)]
                i32::MIN <= y <= i32::MAX ==> (r->Some_0@.contains(y as i32) <==> (exists|i: int|
                    0 <= i < tetrimino.cells().len() && #[trigger] tetrimino.cells()[i].1 == y)
                    && final(self).full(y)),
    {
        let points = tetrimino.get_points();
        let ghost cells = tetrimino.cells();
        let mut i: usize = 0;
        while i < points.len()
            invariant
                i <= points.len(),
                points@ == cells,
                cells == tetrimino.cells(),
                *self == *old(self),
                self.wf(),
                forall|j: int|
                    0 <= j < cells.len() ==> 0 <= (#[trigger] cells[j]).0 < self.spec_width() && 0 <= cells[j].1,
                forall|j: int| 0 <= j < i ==> (#[trigger] cells[j]).1 < self.spec_height(),
            decreases points.len() - i,
        {
            if points[i].1 as usize >= self.height {
                assert(cells[i as int].1 >= self.spec_height());
                return None;
            }
            i += 1;
        }
        let mut rows: Vec<i32> = Vec::new();
        let mut i: usize = 0;
        while i < points.len()
            invariant
                self.wf(),
                rows@.no_duplicates(),
                forall|j: int| 0 <= j < cells.len() ==> (#[trigger] cells[j]).1 < old(self).spec_height(),
                self.same_shape(old(self)),
                points@ == cells,
                cells == tetrimino.cells(),
                tetrimino.wf(),
                i <= points.len(),
                forall|j: int|
                    0 <= j < cells.len() ==> 0 <= (#[trigger] cells[j]).0 < self.spec_width() && 0 <= cells[j].1,
                self.cells() == placed(old(self).cells(), cells, tetrimino.tetrimino.values@, i as int),
                forall|y: int|
                    #![trigger rows@.contains(y as i32)]
                    i32::MIN <= y <= i32::MAX ==> (rows@.contains(y as i32) <==> (exists|j: int|
                        0 <= j < i && #[trigger] cells[j].1 == y) && self.full(y)),
            decreases points.len() - i,
        {
            let p = points[i];
            let ghost before = self.cells();
            let ghost rows_before = rows@;
            self.fill_point(p, tetrimino.tetrimino.values[i]);
            proof {
                assert forall|y: int| y != p.1 implies #[trigger] row_full(self.cells(), self.spec_width(), y)
                    == row_full(before, self.spec_width(), y) by {
                    if !before.contains_key((p.0 as int, p.1 as int)) {
                        lemma_row_full_insert(before, self.spec_width(), (p.0 as int, p.1 as int), tetrimino.tetrimino.values@[i as int], y);
                    }
                }
            }
            if self.is_row_full(p.1) && !contains_row(&rows, p.1) {
                rows.push(p.1);
                proof {
                    assert forall|a: int, b: int| 0 <= a < rows@.len() && 0 <= b < rows@.len() && a != b implies rows@[a] != rows@[b] by {
                        if a == rows@.len() - 1 {
                            assert(rows_before[b] == rows@[b]);
                        } else if b == rows@.len() - 1 {
                            assert(rows_before[a] == rows@[a]);
                        }
                    }
                    assert forall|y: int| i32::MIN <= y <= i32::MAX && y != p.1 implies #[trigger] rows@.contains(y as i32) == rows_before.contains(y as i32) by {
                        if rows@.contains(y as i32) {
                            let j = choose|j: int| 0 <= j < rows@.len() && rows@[j] == y as i32;
                            if j < rows_before.len() {
                                assert(rows_before[j] == y as i32);
                            }
                        }
                        if rows_before.contains(y as i32) {
                            let j = choose|j: int| 0 <= j < rows_before.len() && rows_before[j] == y as i32;
                            assert(rows@[j] == y as i32);
                        }
                    }
                    assert(rows@[rows@.len() - 1] == p.1);
                }
            }
            proof {
                assert forall|y: int|
                    #![trigger rows@.contains(y as i32)]
                    i32::MIN <= y <= i32::MAX implies (rows@.contains(y as i32) <==> (exists|j: int|
                        0 <= j < i + 1 && #[trigger] cells[j].1 == y) && self.full(y)) by {
                    if y == p.1 {
                        if self.full(y) {
                            assert(cells[i as int].1 == y);
                        }
                    } else {
                        if exists|j: int| 0 <= j < i + 1 && #[trigger] cells[j].1 == y {
                            let j = choose|j: int| 0 <= j < i + 1 && #[trigger] cells[j].1 == y;
                            assert(j < i);
                        }
                    }
                }
            }
            i += 1;
        }
        Some(rows)
    }

    /// `new` is `old` with each of `rows` that is full removed, the rows above moving down.
    pub open spec fn rows_cleared(old: Board, new: Board, rows: Seq<i32>) -> bool {
        &&& new.same_shape(&old)
        &&& new.stored_rows() == old.stored_rows() - old.removed_below(rows, old.stored_rows())
        &&& forall|x: int, y: int|
            #![trigger old.cells().contains_key((x, y))]
            0 <= y < old.stored_rows() && !old.removed_by(rows, y) ==> {
                let k = (x, y - old.removed_below(rows, y));
                &&& new.cells().contains_key(k) == old.cells().contains_key((x, y))
                &&& old.cells().contains_key((x, y)) ==> new.cells()[k] == old.cells()[(x, y)]
            }
    }

    /// Removes each of `rows` that is full; the rows above a removed row move down.
    pub fn clear_rows(&mut self, rows: Vec<i32>)
        requires
            old(self).wf(),
        ensures
            final(self).wf(),
            Board::rows_cleared(*old(self), *final(self), rows@),
    {
        let ghost old_board = *self;
        let mut new_rows: Vec<Vec<Cell>> = Vec::new();
        let mut new_counts: Vec<usize> = Vec::new();
        let n = self.rows.len();
        let mut y: usize = 0;
        while y < n
            invariant
                *self == old_board,
                old_board.wf(),
                n == old_board.rows@.len(),
                y <= n,
                new_rows@.len() == new_counts@.len(),
                new_rows@.len() == y - old_board.removed_below(rows@, y as int),
                0 <= old_board.removed_below(rows@, y as int) <= y,
                forall|j: int| 0 <= j < new_rows@.len() ==> (#[trigger] new_rows@[j])@.len() == old_board.width,
                forall|j: int| 0 <= j < new_rows@.len() ==> #[trigger] new_counts@[j] == filled_count(new_rows@[j]@),
                forall|z: int|
                    0 <= z < y && !old_board.removed_by(rows@, z) ==> #[trigger] new_rows@[z - old_board.removed_below(rows@, z)]@
                        == old_board.rows@[z]@,
            decreases n - y,
        {
            let full = self.is_row_full(y as i32);
            let requested = contains_row(&rows, y as i32);
            let ghost before = new_rows@;
            proof { old_board.lemma_removed_below_mono(rows@, y as int, y as int + 1); }
            if full && requested {
            } else {
                let row = self.rows[y].clone();
                assert(row@ =~= self.rows@[y as int]@);
                new_rows.push(row);
                new_counts.push(self.counts[y]);
                proof {
                    assert forall|z: int|
                        0 <= z < y + 1 && !old_board.removed_by(rows@, z) implies #[trigger] new_rows@[z - old_board.removed_below(rows@, z)]@
                            == old_board.rows@[z]@ by {
                        if z < y {
                            old_board.lemma_removed_below_mono(rows@, z + 1, y as int);
                            old_board.lemma_removed_below_mono(rows@, z, z);
                            assert(old_board.removed_below(rows@, z + 1) == old_board.removed_below(rows@, z));
                            assert(new_rows@[z - old_board.removed_below(rows@, z)] == before[z - old_board.removed_below(rows@, z)]);
                        }
                    }
                }
            }
            y += 1;
        }
        self.rows = new_rows;
        self.counts = new_counts;
        proof {
            assert forall|x: int, y: int|
                #![trigger old(self).cells().contains_key((x, y))]
                0 <= y < old(self).stored_rows() && !old(self).removed_by(rows@, y) implies {
                    let k = (x, y - old(self).removed_below(rows@, y));
                    &&& self.cells().contains_key(k) == old(self).cells().contains_key((x, y))
                    &&& old(self).cells().contains_key((x, y)) ==> self.cells()[k] == old(self).cells()[(x, y)]
                } by {
                old_board.lemma_removed_below_mono(rows@, y, y + 1);
                old_board.lemma_removed_below_mono(rows@, y + 1, n as int);
                assert(old_board.removed_below(rows@, y + 1) == old_board.removed_below(rows@, y));
                let yy = y - old_board.removed_below(rows@, y);
                assert(self.rows@[yy]@ == old_board.rows@[y]@);
            }
        }
    }

    /// Stops storing the empty rows at the top.
    fn trim_top(&mut self)
        requires
            old(self).wf(),
        ensures
            final(self).wf(),
            final(self).same_shape(old(self)),
            final(self).cells() == old(self).cells(),
            final(self).stored_rows() <= old(self).stored_rows(),
            final(self).stored_rows() > 0 ==> exists|x: int| #[trigger] final(self).cells().contains_key((x, final(self).stored_rows() - 1)),
    {
        while self.rows.len() > 0 && self.counts[self.rows.len() - 1] == 0
            invariant
                self.wf(),
                self.same_shape(old(self)),
                self.cells() == old(self).cells(),
                self.rows@.len() <= old(self).rows@.len(),
            decreases self.rows.len(),
        {
            let ghost before = self.cells();
            proof {
                let last = self.rows@.len() - 1;
                lemma_count_bounds(self.rows@[last]@);
            }
            self.rows.pop();
            self.counts.pop();
            assert(self.cells() =~= before);
        }
        proof {
            if 0 < self.rows@.len() {
                let last = self.rows@.len() - 1;
                lemma_count_bounds(self.rows@[last]@);
                let i = choose|i: int| 0 <= i < self.rows@[last]@.len() && !(self.rows@[last]@[i] is None);
                assert(self.cells().contains_key((i, last)));
            }
        }
    }

    /// Empties the cell of each of `points` that is filled; the empty rows at the top are then
    /// no longer stored.
    pub fn clear_points(&mut self, points: &Vec<Point>)
        requires
            old(self).wf(),
        ensures
            final(self).wf(),
            final(self).same_shape(old(self)),
            final(self).cells() == without_points(old(self).cells(), points@, points@.len() as int),
            final(self).stored_rows() <= old(self).stored_rows(),
            final(self).stored_rows() > 0 ==> exists|x: int|
                #[trigger] final(self).cells().contains_key((x, final(self).stored_rows() - 1)),
    {
        let mut i: usize = 0;
        while i < points.len()
            invariant
                self.wf(),
                self.same_shape(old(self)),
                self.stored_rows() <= old(self).stored_rows(),
                i <= points.len(),
                self.cells() == without_points(old(self).cells(), points@, i as int),
            decreases points.len() - i,
        {
            let p = points[i];
            let ghost before = self.cells();
            if self.value_at(p).is_some() {
                self.unfill_point(p);
            } else {
                assert(before.remove((p.0 as int, p.1 as int)) =~= before);
            }
            i += 1;
        }
        self.trim_top();
    }

    /// Moves each filled `point` down by its distance, in order. A drop that would rise or
    /// pass the floor, or whose cell is empty, is skipped. Returns the target rows left full.
    pub fn translate_falling_points(&mut self, point_drops: &Vec<(Point, i32)>) -> (r: Vec<i32>)
        requires
            old(self).wf(),
        ensures
            final(self).wf(),
            final(self).same_shape(old(self)),
            final(self).cells() == after_drops(old(self).cells(), point_drops@, point_drops@.len() as int),
            r@ == rows_filled_by_drops(
                old(self).cells(),
                point_drops@,
                old(self).spec_width(),
                point_drops@.len() as int,
            ),
    {
        let mut rows: Vec<i32> = Vec::new();
        let mut i: usize = 0;
        while i < point_drops.len()
            invariant
                self.wf(),
                self.same_shape(old(self)),
                i <= point_drops.len(),
                self.cells() == after_drops(old(self).cells(), point_drops@, i as int),
                rows@ == rows_filled_by_drops(old(self).cells(), point_drops@, old(self).spec_width(), i as int),
            decreases point_drops.len() - i,
        {
            let (p, fall) = point_drops[i];
            if 0 <= fall && fall <= p.1 {
                match self.value_at(p) {
                    Some(value) => {
                        proof { self.lemma_cells_in_range((p.0 as int, p.1 as int)); }
                        self.unfill_point(p);
                        let target = Point(p.0, p.1 - fall);
                        self.fill_point(target, value);
                        if self.is_row_full(target.1) {
                            rows.push(target.1);
                        }
                    },
                    None => {},
                }
            }
            i += 1;
        }
        rows
    }

    /// How far `point` can move down: the result is `(0, -d)` where the `d` cells below the
    /// point are free and the next one is filled.
    pub fn point_first_collision(&self, point: Point) -> (r: Point)
        requires
            self.wf(),
            !self.filled(point.0 as int, point.1 as int),
        ensures
            r.0 == 0,
            0 <= -r.1 <= point.1,
            forall|k: int| 1 <= k <= -r.1 ==> !self.filled(point.0 as int, #[trigger] (point.1 - k)),
            self.filled(point.0 as int, point.1 + r.1 - 1),
    {
        let top = self.rows.len() as i32;
        let mut d: i32 = if point.1 > top { point.1 - top } else { 0 };
        proof {
            assert forall|k: int| 1 <= k <= d implies !self.filled(point.0 as int, #[trigger] (point.1 - k)) by {
                if self.cells().contains_key((point.0 as int, point.1 - k)) {
                    self.lemma_cells_in_range((point.0 as int, point.1 - k));
                }
            }
        }
        while !self.is_point_filled(Point(point.0, point.1 - d - 1))
            invariant
                self.wf(),
                !self.filled(point.0 as int, point.1 as int),
                0 <= d <= point.1,
                forall|k: int| 1 <= k <= d ==> !self.filled(point.0 as int, #[trigger] (point.1 - k)),
            decreases point.1 - d,
        {
            d += 1;
        }
        Point(0, -d)
    }

    /// How far all of `points` can move down together: the result is `(0, -d)` where no
    /// point meets a filled cell within `d` rows, and some point meets one at `d + 1`.
    pub fn first_collision(&self, points: Vec<Point>) -> (r: Point)
        requires
            self.wf(),
            points.len() >= 1,
            forall|i: int| 0 <= i < points.len() ==> !self.filled(#[trigger] points@[i].0 as int, points@[i].1 as int),
        ensures
            r.0 == 0,
            r.1 <= 0,
            forall|i: int, k: int|
                0 <= i < points.len() && 1 <= k <= -r.1 ==> !self.filled(#[trigger] points@[i].0 as int, #[trigger] (points@[i].1 - k)),
            exists|i: int| 0 <= i < points.len() && self.filled(#[trigger] points@[i].0 as int, points@[i].1 + r.1 - 1),
            forall|i: int| 0 <= i < points.len() ==> -r.1 <= #[trigger] points@[i].1,
    {
        let mut best = self.point_first_collision(points[0]);
        let mut i: usize = 1;
        while i < points.len()
            invariant
                self.wf(),
                1 <= i <= points.len(),
                forall|j: int| 0 <= j < points.len() ==> !self.filled(#[trigger] points@[j].0 as int, points@[j].1 as int),
                best.0 == 0,
                best.1 <= 0,
                forall|j: int, k: int|
                    0 <= j < i && 1 <= k <= -best.1 ==> !self.filled(#[trigger] points@[j].0 as int, #[trigger] (points@[j].1 - k)),
                exists|j: int| 0 <= j < i && self.filled(#[trigger] points@[j].0 as int, points@[j].1 + best.1 - 1),
                forall|j: int| 0 <= j < i ==> -best.1 <= #[trigger] points@[j].1,
            decreases points.len() - i,
        {
            let c = self.point_first_collision(points[i]);
            if c.1 > best.1 {
                best = c;
            }
            i += 1;
        }
        best
    }

    pub fn is_point_filled(&self, point: Point) -> (r: bool)
        requires
            self.wf(),
        ensures
            r == self.filled(point.0 as int, point.1 as int),
    {
        if point.0 < 0 || point.0 as usize >= self.width {
            true
        } else if point.1 >= 0 && (point.1 as usize) < self.rows.len() {
            self.get_cell(point).is_some()
        } else if point.1 < 0 {
            true
        } else {
            false
        }
    }

    /// Whether none of `points` is filled.
    pub fn do_points_fit(&self, points: &Vec<Point>) -> (r: bool)
        requires
            self.wf(),
        ensures
            r == (forall|i: int| 0 <= i < points.len() ==> !self.filled(#[trigger] points@[i].0 as int, points@[i].1 as int)),
    {
        let mut i: usize = 0;
        while i < points.len()
            invariant
                self.wf(),
                i <= points.len(),
                forall|j: int| 0 <= j < i ==> !self.filled(#[trigger] points@[j].0 as int, points@[j].1 as int),
            decreases points.len() - i,
        {
            if self.is_point_filled(points[i]) {
                return false;
            }
            i += 1;
        }
        true
    }

    /// Whether the active piece's cells are all free.
    pub fn does_tetrimino_fit(&self, tetrimino: &ActiveTetrimino) -> (r: bool)
        requires
            self.wf(),
            tetrimino.wf(),
        ensures
            r == (forall|i: int| 0 <= i < tetrimino.cells().len() ==> !self.filled(#[trigger] tetrimino.cells()[i].0 as int, tetrimino.cells()[i].1 as int)),
    {
        let points = tetrimino.get_points();
        self.do_points_fit(&points)
    }

    pub fn num_active_rows(&self) -> (r: usize)
        ensures
            r == self.stored_rows(),
    {
        self.rows.len()
    }

    pub fn is_on_board(&self, point: Point) -> (r: bool)
        ensures
            r == (0 <= point.0 < self.spec_width() && 0 <= point.1 < self.spec_height()),
    {
        if point.0 < 0 || point.0 as usize >= self.width {
            false
        } else if point.1 < 0 || point.1 as usize >= self.height {
            false
        } else {
            true
        }
    }

    pub fn get_width(&self) -> (r: usize)
        ensures
            r == self.spec_width(),
    {
        self.width
    }

    pub fn get_height(&self) -> (r: usize)
        ensures
            r == self.spec_height(),
    {
        self.height
    }

    /// Where new pieces appear: the middle column of the top row.
    pub fn get_spawn_point(&self) -> (r: Point)
        requires
            self.wf(),
        ensures
            r == Point((self.spec_width() / 2) as i32, (self.spec_height() - 1) as i32),
    {
        Point((self.width / 2) as i32, self.height as i32 - 1)
    }
}

} // verus!
