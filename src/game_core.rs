use vstd::prelude::*;

use crate::board::{placed, Board};
use crate::generator::TetriminoGenerator;
use crate::orientation::{Direction, Orientation};
use crate::point::Point;
use crate::tetrimino::{
    placeable, shift_points, shifted, within, ActiveTetrimino, Tetrimino, TetriminoType,
    POSITION_LIMIT,
};

verus! {

/// The cell `c` lies beside, below or above the board.
pub open spec fn off_board(board: &Board, c: Point) -> bool {
    c.0 < 0 || c.0 >= board.spec_width() || c.1 < 0 || c.1 >= board.spec_height()
}

/// None of `cells` is filled on `board`.
pub open spec fn fits(board: &Board, cells: Seq<Point>) -> bool {
    forall|i: int| 0 <= i < cells.len() ==> !board.filled(#[trigger] cells[i].0 as int, cells[i].1 as int)
}

/// `cells` can move down `d` rows but not `d + 1`.
pub open spec fn lands_after(board: &Board, cells: Seq<Point>, d: int) -> bool {
    &&& 0 <= d
    &&& forall|i: int, k: int| 0 <= i < cells.len() && 1 <= k <= d ==> !board.filled(#[trigger] cells[i].0 as int, #[trigger] (cells[i].1 - k))
    &&& exists|i: int| 0 <= i < cells.len() && board.filled(#[trigger] cells[i].0 as int, cells[i].1 - d - 1)
}

/// A piece that is free and lands after `d` rows has every cell at least `d` rows up.
pub proof fn lemma_landing_above_floor(board: &Board, cells: Seq<Point>, d: int)
    requires
        fits(board, cells),
        lands_after(board, cells, d),
    ensures
        forall|i: int| 0 <= i < cells.len() ==> d <= #[trigger] cells[i].1,
{
    assert forall|i: int| 0 <= i < cells.len() implies d <= #[trigger] cells[i].1 by {
        assert(!board.filled(cells[i].0 as int, cells[i].1 as int));
        if d > cells[i].1 {
            let k = cells[i].1 + 1;
            assert(!board.filled(cells[i].0 as int, cells[i].1 - k));
        }
    }
}

/// The offsets a rotation tries, in order: in place, then the piece's wall kicks.
pub open spec fn rotation_offsets(active: &ActiveTetrimino, direction: Direction) -> Seq<Point> {
    seq![Point(0, 0)] + active.tetrimino.tetrimino_type@.kicks[active.orientation.spec_index()][direction.spec_index()]
}

/// Whether the piece, turned to orientation `o` and moved by `off`, stays in range and is free.
pub open spec fn offset_fits(board: &Board, active: &ActiveTetrimino, o: int, off: Point) -> bool {
    &&& within(active.position.0 + off.0, active.position.1 + off.1)
    &&& fits(board, active.cells_at(o, off.0 as int, off.1 as int))
}

/// The index of the first of `offsets`, from `k` on, at which the turned piece fits.
pub open spec fn first_fit(board: &Board, active: &ActiveTetrimino, o: int, offsets: Seq<Point>, k: int) -> Option<int>
    decreases offsets.len() - k,
{
    if k < 0 || k >= offsets.len() {
        None
    } else if offset_fits(board, active, o, offsets[k]) {
        Some(k)
    } else {
        first_fit(board, active, o, offsets, k + 1)
    }
}

/// The offset a rotation of `active` in `direction` takes on `board`: the first entry of
/// `rotation_offsets` at which the turned piece fits, if any.
pub open spec fn rotation_outcome(board: &Board, active: &ActiveTetrimino, direction: Direction) -> Option<Point> {
    let offs = rotation_offsets(active, direction);
    match first_fit(board, active, active.orientation.spec_rotated(direction).spec_index(), offs, 0) {
        Some(k) => Some(offs[k]),
        None => None,
    }
}

/// The active piece, the lookahead queue, the hold slot, the board and the piece source.
pub struct GameCore<G: TetriminoGenerator> {
    active_tetrimino: ActiveTetrimino,
    ghost_tetrimino: Vec<Point>,
    held_tetrimino: Option<Tetrimino>,
    tetrimino_queue: Vec<Tetrimino>,
    next_tetrimino_index: usize,
    board: Board,
    tetrimino_generator: G,
}

impl<G: TetriminoGenerator> GameCore<G> {
    pub closed spec fn active(&self) -> ActiveTetrimino {
        self.active_tetrimino
    }

    pub closed spec fn ghost(&self) -> Seq<Point> {
        self.ghost_tetrimino@
    }

    pub closed spec fn held(&self) -> Option<Tetrimino> {
        self.held_tetrimino
    }

    pub closed spec fn queue(&self) -> Seq<Tetrimino> {
        self.tetrimino_queue@
    }

    pub closed spec fn queue_index(&self) -> int {
        self.next_tetrimino_index as int
    }

    pub closed spec fn spec_board(&self) -> Board {
        self.board
    }

    pub closed spec fn generator(&self) -> G {
        self.tetrimino_generator
    }

    /// The piece the queue hands out next.
    pub open spec fn queued_next(&self) -> Tetrimino {
        self.queue()[self.queue_index()]
    }

    pub open spec fn wf(&self) -> bool {
        &&& self.spec_board().wf()
        &&& self.generator().wf()
        &&& self.active().wf()
        &&& self.held() is Some ==> self.held()->Some_0.wf()
        &&& 1 <= self.queue().len()
        &&& 0 <= self.queue_index() < self.queue().len()
        &&& forall|i: int| 0 <= i < self.queue().len() ==> (#[trigger] self.queue()[i]).wf()
    }

    /// The spawn point of the board.
    pub open spec fn spawn(&self) -> Point {
        Point((self.spec_board().spec_width() / 2) as i32, (self.spec_board().spec_height() - 1) as i32)
    }

    /// The ghost shows where the active piece would land, whenever the piece is free.
    pub open spec fn ghost_ok(&self) -> bool {
        fits(&self.spec_board(), self.active().cells()) ==> exists|d: int|
            lands_after(&self.spec_board(), self.active().cells(), d) && #[trigger] shifted(self.active().cells(), 0, -d)
                == self.ghost()
    }

    /// A game on `board` with a queue of `queue_length` pieces, the first generated piece
    /// active at the spawn point and the hold slot empty.
    pub fn new(board: Board, queue_length: usize, tetrimino_generator: G) -> (r: Self)
        requires
            board.wf(),
            tetrimino_generator.wf(),
            1 <= queue_length,
        ensures
            r.wf(),
            r.ghost_ok(),
            r.spec_board() == board,
            r.held() is None,
            r.queue().len() == queue_length,
            r.queue_index() == 0,
            r.active().position == r.spawn(),
            r.active().orientation == Orientation::Origin,
            r.generator().catalog() == tetrimino_generator.catalog(),
            r.generator().history() == tetrimino_generator.history() + seq![r.active().tetrimino] + r.queue(),
    {
        let ghost catalog = tetrimino_generator.catalog();
        let ghost h0 = tetrimino_generator.history();
        let mut tetrimino_generator = tetrimino_generator;
        let spawn = board.get_spawn_point();
        proof { board.lemma_dims(); }
        let active_tetrimino = tetrimino_generator.next().as_active_instance(spawn);
        let mut tetrimino_queue: Vec<Tetrimino> = Vec::new();
        assert(h0 + seq![active_tetrimino.tetrimino] + tetrimino_queue@ =~= h0.push(active_tetrimino.tetrimino));
        let mut i: usize = 0;
        while i < queue_length
            invariant
                i <= queue_length,
                tetrimino_queue.len() == i,
                tetrimino_generator.wf(),
                tetrimino_generator.catalog() == catalog,
                tetrimino_generator.history() == h0 + seq![active_tetrimino.tetrimino] + tetrimino_queue@,
                forall|k: int| 0 <= k < i ==> (#[trigger] tetrimino_queue@[k]).wf(),
            decreases queue_length - i,
        {
            let ghost hq = tetrimino_queue@;
            tetrimino_queue.push(tetrimino_generator.next());
            assert(h0 + seq![active_tetrimino.tetrimino] + tetrimino_queue@ =~= (h0 + seq![active_tetrimino.tetrimino] + hq).push(tetrimino_queue@.last()));
            i += 1;
        }
        let mut core = GameCore {
            active_tetrimino,
            ghost_tetrimino: Vec::new(),
            held_tetrimino: None,
            tetrimino_queue,
            next_tetrimino_index: 0,
            board,
            tetrimino_generator,
        };
        core.active_tetrimino_updated();
        core
    }

    pub fn get_board(&self) -> (r: &Board)
        ensures
            *r == self.spec_board(),
    {
        &self.board
    }

    /// The board, for changes outside piece movement (clearing rows, dropping points).
    pub fn get_board_mut(&mut self) -> (r: &mut Board)
        ensures
            *r == old(self).spec_board(),
            final(self).spec_board() == *final(r),
            final(self).active() == old(self).active(),
            final(self).ghost() == old(self).ghost(),
            final(self).held() == old(self).held(),
            final(self).queue() == old(self).queue(),
            final(self).queue_index() == old(self).queue_index(),
            final(self).generator() == old(self).generator(),
    {
        &mut self.board
    }

    pub fn get_active_tetrimino(&self) -> (r: &ActiveTetrimino)
        ensures
            *r == self.active(),
    {
        &self.active_tetrimino
    }

    pub fn get_ghost_tetriminio(&self) -> (r: &Vec<Point>)
        ensures
            r@ == self.ghost(),
    {
        &self.ghost_tetrimino
    }

    /// The piece `index` places ahead in the queue, counting around.
    pub fn get_next_tetrimino(&self, index: usize) -> (r: &Tetrimino)
        requires
            self.wf(),
        ensures
            *r == self.queue()[(self.queue_index() + index) % self.queue().len() as int],
    {
        let len = self.tetrimino_queue.len();
        let a = self.next_tetrimino_index;
        let b = index % len;
        let i = if a >= len - b { a - (len - b) } else { a + b };
        proof {
            let (ai, bi, li) = (a as int, b as int, len as int);
            vstd::arithmetic::div_mod::lemma_add_mod_noop(ai, index as int, li);
            vstd::arithmetic::div_mod::lemma_small_mod(a as nat, len as nat);
            vstd::arithmetic::div_mod::lemma_small_mod(b as nat, len as nat);
            if ai + bi < li {
                vstd::arithmetic::div_mod::lemma_small_mod((ai + bi) as nat, len as nat);
            } else {
                vstd::arithmetic::div_mod::lemma_mod_add_multiples_vanish(ai + bi - li, li);
                vstd::arithmetic::div_mod::lemma_small_mod((ai + bi - li) as nat, len as nat);
                assert(li + (ai + bi - li) == ai + bi);
            }
        }
        &self.tetrimino_queue[i]
    }

    pub fn get_tetrimino_queue_length(&self) -> (r: usize)
        ensures
            r == self.queue().len(),
    {
        self.tetrimino_queue.len()
    }

    pub fn get_tetrimino_types(&self) -> (r: &Vec<TetriminoType>)
        requires
            self.wf(),
        ensures
            r@ == self.generator().catalog(),
    {
        self.tetrimino_generator.get_tetrimino_types()
    }

    pub fn get_held(&self) -> (r: Option<&Tetrimino>)
        ensures
            r is None <==> self.held() is None,
            r is Some ==> *r->Some_0 == self.held()->Some_0,
    {
        match &self.held_tetrimino {
            Some(t) => Some(t),
            None => None,
        }
    }

    /// Recomputes the ghost: the active piece moved down as far as it can go.
    pub fn active_tetrimino_updated(&mut self)
        requires
            old(self).spec_board().wf(),
            old(self).active().wf(),
        ensures
            final(self).ghost_ok(),
            final(self).active() == old(self).active(),
            final(self).spec_board() == old(self).spec_board(),
            final(self).held() == old(self).held(),
            final(self).queue() == old(self).queue(),
            final(self).queue_index() == old(self).queue_index(),
            final(self).generator() == old(self).generator(),
    {
        let points = self.active_tetrimino.get_points();
        if self.board.do_points_fit(&points) {
            let ghost cells = points@;
            let translation = self.board.first_collision(points);
            let p2 = self.active_tetrimino.get_points();
            proof {
                assert forall|i: int| 0 <= i < p2.len() implies i32::MIN <= #[trigger] p2@[i].0 + 0 <= i32::MAX
                    && i32::MIN <= p2@[i].1 + translation.1 <= i32::MAX by {
                    assert(-translation.1 <= cells[i].1);
                }
                assert(lands_after(&self.board, cells, -translation.1 as int));
            }
            self.ghost_tetrimino = shift_points(&p2, 0, translation.1);
            assert(shifted(self.active().cells(), 0, -(-translation.1 as int)) == self.ghost());
        } else {
            self.ghost_tetrimino = points;
        }
    }

    /// Makes `active_tetrimino` the active piece and returns the one it replaces.
    pub fn set_active_tetrimino(&mut self, active_tetrimino: ActiveTetrimino) -> (r: ActiveTetrimino)
        requires
            old(self).wf(),
            active_tetrimino.wf(),
        ensures
            final(self).wf(),
            final(self).ghost_ok(),
            r == old(self).active(),
            final(self).active() == active_tetrimino,
            final(self).spec_board() == old(self).spec_board(),
            final(self).held() == old(self).held(),
            final(self).queue() == old(self).queue(),
            final(self).queue_index() == old(self).queue_index(),
            final(self).generator() == old(self).generator(),
    {
        let mut a = active_tetrimino;
        std::mem::swap(&mut self.active_tetrimino, &mut a);
        self.active_tetrimino_updated();
        a
    }

    /// Makes the queue's next piece active at the spawn point, refills its slot from the
    /// generator, and returns the piece it replaces.
    pub fn next_tetrimino(&mut self) -> (r: ActiveTetrimino)
        requires
            old(self).wf(),
        ensures
            final(self).wf(),
            final(self).ghost_ok(),
            r == old(self).active(),
            final(self).active().tetrimino == old(self).queued_next(),
            final(self).active().position == old(self).spawn(),
            final(self).active().orientation == Orientation::Origin,
            final(self).spec_board() == old(self).spec_board(),
            final(self).held() == old(self).held(),
            final(self).queue().len() == old(self).queue().len(),
            final(self).queue_index() == (old(self).queue_index() + 1) % (old(self).queue().len() as int),
            forall|i: int| 0 <= i < old(self).queue().len() && i != old(self).queue_index() ==> #[trigger] final(self).queue()[i] == old(self).queue()[i],
            final(self).generator().catalog() == old(self).generator().catalog(),
            final(self).generator().history() == old(self).generator().history().push(final(self).queue()[old(self).queue_index()]),
    {
        let new_tetrimino = self.tetrimino_generator.next();
        let i = self.next_tetrimino_index;
        let next = self.tetrimino_queue.remove(i);
        self.tetrimino_queue.insert(i, new_tetrimino);
        assert(i < self.tetrimino_queue.len());
        self.next_tetrimino_index = (i + 1) % self.tetrimino_queue.len();
        let spawn = self.board.get_spawn_point();
        proof { self.board.lemma_dims(); }
        self.set_active_tetrimino(next.as_active_instance(spawn))
    }

    /// What `hold` does: the active piece goes to the hold slot, and the held piece (or,
    /// with an empty slot, the queue's next piece) appears at the spawn point.
    pub open spec fn hold_result(old: Self, new: Self) -> bool {
        &&& new.held() == Some(old.active().tetrimino)
        &&& new.active().position == old.spawn()
        &&& new.active().orientation == Orientation::Origin
        &&& new.spec_board() == old.spec_board()
        &&& old.held() is Some ==> new.active().tetrimino == old.held()->Some_0 && new.queue() == old.queue()
            && new.queue_index() == old.queue_index()
        &&& old.held() is None ==> new.active().tetrimino == old.queued_next() && new.queue_index() == (
        old.queue_index() + 1) % (old.queue().len() as int) && new.queue().len() == old.queue().len()
            && (forall|i: int| 0 <= i < old.queue().len() && i != old.queue_index() ==> #[trigger] new.queue()[i] == old.queue()[i])
            && new.generator().history() == old.generator().history().push(new.queue()[old.queue_index()])
        &&& old.held() is Some ==> new.generator() == old.generator()
    }

    /// Without an empty hold slot, swaps the active piece's kind with the held one, which
    /// appears at the spawn point; with an empty slot, stores the active piece's kind and
    /// takes the next piece of the queue. Any number of calls is allowed.
    pub fn hold(&mut self)
        requires
            old(self).wf(),
        ensures
            final(self).wf(),
            final(self).ghost_ok(),
            Self::hold_result(*old(self), *final(self)),
    {
        let mut slot: Option<Tetrimino> = None;
        std::mem::swap(&mut slot, &mut self.held_tetrimino);
        match slot {
            Some(held) => {
                let spawn = self.board.get_spawn_point();
                proof { self.board.lemma_dims(); }
                let old_active = self.set_active_tetrimino(held.as_active_instance(spawn));
                self.held_tetrimino = Some(old_active.tetrimino);
            },
            None => {
                let old_active = self.next_tetrimino();
                self.held_tetrimino = Some(old_active.tetrimino);
            },
        }
    }

    /// What `translate(direction)` does: the piece moves when it stays in range and fits,
    /// and nothing else changes.
    pub open spec fn translate_result(old: Self, new: Self, direction: Point, r: bool) -> bool {
        &&& r == (placeable(direction) && within(old.active().position.0 + direction.0, old.active().position.1 + direction.1)
            && fits(&old.spec_board(), old.active().cells_at(old.active().orientation.spec_index(), direction.0 as int, direction.1 as int)))
        &&& r ==> new.active().position == Point((old.active().position.0 + direction.0) as i32, (old.active().position.1 + direction.1) as i32)
        &&& r ==> new.ghost_ok()
        &&& !r ==> new.active().position == old.active().position && new.ghost() == old.ghost()
        &&& new.active().orientation == old.active().orientation
        &&& new.active().tetrimino == old.active().tetrimino
        &&& new.spec_board() == old.spec_board()
        &&& new.held() == old.held()
        &&& new.queue() == old.queue()
        &&& new.queue_index() == old.queue_index()
        &&& new.generator() == old.generator()
    }

    /// Moves the active piece by `direction` if it stays in range and fits there.
    pub fn translate(&mut self, direction: Point) -> (r: bool)
        requires
            old(self).wf(),
        ensures
            final(self).wf(),
            Self::translate_result(*old(self), *final(self), direction, r),
    {
        if direction.0 < -POSITION_LIMIT || direction.0 > POSITION_LIMIT || direction.1 < -POSITION_LIMIT || direction.1 > POSITION_LIMIT {
            return false;
        }
        let nx = self.active_tetrimino.position.0 + direction.0;
        let ny = self.active_tetrimino.position.1 + direction.1;
        if nx < -POSITION_LIMIT || nx > POSITION_LIMIT || ny < -POSITION_LIMIT || ny > POSITION_LIMIT {
            return false;
        }
        let translated_points = self.active_tetrimino.get_translated_points(direction);
        if self.board.do_points_fit(&translated_points) {
            self.active_tetrimino.translate(direction);
            self.active_tetrimino_updated();
            true
        } else {
            false
        }
    }

    /// What placing the piece with cells `cells` (and the active piece's values) does: the
    /// board gets the cells, or, when one lies off the board, stays as it was; the queue's next
    /// piece becomes active at the spawn point and its slot takes the generator's next piece;
    /// `r` lists the full rows among the cells' rows, each once.
    pub open spec fn lock_result(old: Self, new: Self, cells: Seq<Point>, r: Option<Vec<i32>>) -> bool {
        &&& new.active().tetrimino == old.queued_next()
        &&& new.active().position == old.spawn()
        &&& new.active().orientation == Orientation::Origin
        &&& new.queue().len() == old.queue().len()
        &&& new.queue_index() == (old.queue_index() + 1) % (old.queue().len() as int)
        &&& forall|i: int| 0 <= i < old.queue().len() && i != old.queue_index() ==> #[trigger] new.queue()[i] == old.queue()[i]
        &&& new.generator().catalog() == old.generator().catalog()
        &&& new.generator().history() == old.generator().history().push(new.queue()[old.queue_index()])
        &&& new.held() == old.held()
        &&& new.spec_board().same_shape(&old.spec_board())
        &&& r is None <==> exists|i: int| 0 <= i < cells.len() && off_board(&old.spec_board(), #[trigger] cells[i])
        &&& r is None ==> new.spec_board() == old.spec_board()
        &&& r is Some ==> r->Some_0@.no_duplicates()
        &&& r is Some ==> new.spec_board().cells() == placed(old.spec_board().cells(), cells, old.active().tetrimino.values@, cells.len() as int)
        &&& r is Some ==> forall|y: int|
            #![trigger r->Some_0@.contains(y as i32)]
            i32::MIN <= y <= i32::MAX ==> (r->Some_0@.contains(y as i32) <==> (exists|i: int|
                0 <= i < cells.len() && #[trigger] cells[i].1 == y) && new.spec_board().full(y))
    }

    /// Places the active piece on the board and makes the next queued piece active.
    /// Returns the full rows among the piece's rows, each once, or `None`, leaving the board
    /// as it was, when the piece cannot be placed (a cell beside, below or above the board).
    pub fn add_tetrimino(&mut self) -> (r: Option<Vec<i32>>)
        requires
            old(self).wf(),
        ensures
            final(self).wf(),
            final(self).ghost_ok(),
            Self::lock_result(*old(self), *final(self), old(self).active().cells(), r),
    {
        let points = self.active_tetrimino.get_points();
        let w = self.board.get_width();
        let mut inside = true;
        let mut i: usize = 0;
        while i < points.len()
            invariant
                i <= points.len(),
                inside == (forall|j: int| 0 <= j < i ==> 0 <= (#[trigger] points@[j]).0 < w && 0 <= points@[j].1),
            decreases points.len() - i,
        {
            let p = points[i];
            if p.0 < 0 || p.0 as usize >= w || p.1 < 0 {
                inside = false;
            }
            i += 1;
        }
        let rows = if inside {
            let piece = ActiveTetrimino {
                position: self.active_tetrimino.position,
                orientation: self.active_tetrimino.orientation,
                tetrimino: self.active_tetrimino.tetrimino.copy(),
            };
            assert(piece.cells() == self.active_tetrimino.cells());
            self.board.add_tetrimino(piece)
        } else {
            None
        };
        self.next_tetrimino();
        rows
    }

    /// Moves the active piece down one row; returns whether it moved.
    pub fn try_fall(&mut self) -> (r: bool)
        requires
            old(self).wf(),
        ensures
            final(self).wf(),
            Self::translate_result(*old(self), *final(self), Point(0i32, -1i32), r),
    {
        self.translate(Point(0, -1))
    }

    /// What `fall` does: the piece moves down a row when it can; otherwise it is placed where
    /// it is (see `lock_result`).
    pub open spec fn fall_result(old: Self, new: Self, r: (bool, Option<Vec<i32>>)) -> bool {
        &&& !r.0 ==> Self::translate_result(old, new, Point(0i32, -1i32), true) && r.1 is None
        &&& r.0 ==> !Self::can_move(old, Point(0i32, -1i32)) && Self::lock_result(old, new, old.active().cells(), r.1)
    }

    /// The active piece can move by `d`: it stays in range and fits there.
    pub open spec fn can_move(old: Self, d: Point) -> bool {
        placeable(d) && within(old.active().position.0 + d.0, old.active().position.1 + d.1)
            && fits(&old.spec_board(), old.active().cells_at(old.active().orientation.spec_index(), d.0 as int, d.1 as int))
    }

    /// Moves the active piece down one row, or, when it cannot move, places it and brings
    /// in the next piece. Returns whether the piece was placed, and then the full rows.
    pub fn fall(&mut self) -> (r: (bool, Option<Vec<i32>>))
        requires
            old(self).wf(),
        ensures
            final(self).wf(),
            final(self).ghost_ok(),
            Self::fall_result(*old(self), *final(self), r),
    {
        if !self.try_fall() {
            (true, self.add_tetrimino())
        } else {
            (false, None)
        }
    }

    /// Drops the active piece as far as it goes and places it. Returns the rows it fell and
    /// the full rows (see `add_tetrimino`). A piece that overlaps the stack is placed as it is.
    #[verifier::spinoff_prover]
    pub fn fastfall(&mut self) -> (r: (i32, Option<Vec<i32>>))
        requires
            old(self).wf(),
        ensures
            final(self).wf(),
            final(self).ghost_ok(),
            fits(&old(self).spec_board(), old(self).active().cells()) ==> lands_after(&old(self).spec_board(), old(self).active().cells(), r.0 as int),
            !fits(&old(self).spec_board(), old(self).active().cells()) ==> r.0 == 0,
            Self::lock_result(*old(self), *final(self), shifted(old(self).active().cells(), 0, -(r.0 as int)), r.1),
    {
        let points = self.active_tetrimino.get_points();
        let mut distance: i32 = 0;
        if self.board.do_points_fit(&points) {
            let ghost cells = points@;
            let translation = self.board.first_collision(points);
            proof {
                let c0 = cells[0];
                assert(-translation.1 <= c0.1);
                let ty = self.active_tetrimino.tetrimino.tetrimino_type@;
                assert(crate::tetrimino::small(ty.shapes[self.active_tetrimino.orientation.spec_index()][0]));
            }
            distance = -translation.1;
            let moved = self.active_tetrimino.position.1 - distance;
            self.active_tetrimino.position = Point(self.active_tetrimino.position.0, moved);
            proof {
                assert(self.active_tetrimino.cells() =~= shifted(cells, 0, -distance as int));
            }
        } else {
            proof {
                assert(points@ =~= shifted(points@, 0, 0));
            }
        }
        let ghost moved = self.active().cells();
        assert(moved == shifted(old(self).active().cells(), 0, -distance as int));
        let rows = self.add_tetrimino();
        proof {
            let sh = shifted(old(self).active().cells(), 0, -distance as int);
            if rows is None {
                let i = choose|i: int| 0 <= i < moved.len() && off_board(&old(self).spec_board(), #[trigger] moved[i]);
                assert(off_board(&old(self).spec_board(), sh[i]));
            } else {
                assert forall|i: int| 0 <= i < sh.len() implies !off_board(&old(self).spec_board(), #[trigger] sh[i]) by {
                    assert(sh[i] == moved[i]);
                }
            }
            assert(sh == shifted(old(self).active().cells(), 0, -(distance as int)));
            assert(rows is None <==> exists|i: int| 0 <= i < old(self).active().cells().len()
                && off_board(&old(self).spec_board(), #[trigger] shifted(old(self).active().cells(), 0, -(distance as int))[i]));
        }
        (distance, rows)
    }

    /// What `rotate(direction)` does: the piece turns at the first offset of
    /// `rotation_offsets` where it fits, or stays as it is; nothing else changes.
    pub open spec fn rotate_result(old: Self, new: Self, direction: Direction, r: bool) -> bool {
        &&& r == rotation_outcome(&old.spec_board(), &old.active(), direction) is Some
        &&& r ==> {
            let off = rotation_outcome(&old.spec_board(), &old.active(), direction)->Some_0;
            &&& new.active().position == Point((old.active().position.0 + off.0) as i32, (old.active().position.1 + off.1) as i32)
            &&& new.active().orientation == old.active().orientation.spec_rotated(direction)
            &&& new.ghost_ok()
        }
        &&& !r ==> new.active() == old.active()
        &&& new.active().tetrimino == old.active().tetrimino
        &&& new.spec_board() == old.spec_board()
        &&& new.held() == old.held()
        &&& new.queue() == old.queue()
        &&& new.queue_index() == old.queue_index()
    }

    /// Turns the active piece in `direction`: in place if it fits, else at the first wall
    /// kick of its table, in order, at which it fits. Returns whether it turned.
    pub fn rotate(&mut self, direction: Direction) -> (r: bool)
        requires
            old(self).wf(),
        ensures
            final(self).wf(),
            Self::rotate_result(*old(self), *final(self), direction, r),
    {
        let target = self.active_tetrimino.orientation.rotated(direction);
        let ghost o = target.spec_index();
        let ghost offs = rotation_offsets(&self.active_tetrimino, direction);
        let kicks = self.active_tetrimino.tetrimino.tetrimino_type.get_wall_kicks(self.active_tetrimino.orientation, direction);
        let mut k: usize = 0;
        while k <= kicks.len()
            invariant
                self.wf(),
                *self == *old(self),
                offs == rotation_offsets(&self.active_tetrimino, direction),
                o == self.active_tetrimino.orientation.spec_rotated(direction).spec_index(),
                target == self.active_tetrimino.orientation.spec_rotated(direction),
                kicks@ == self.active_tetrimino.tetrimino.tetrimino_type@.kicks[self.active_tetrimino.orientation.spec_index()][direction.spec_index()],
                offs.len() == kicks.len() + 1,
                k <= kicks.len() + 1,
                first_fit(&self.board, &self.active_tetrimino, o, offs, 0) == first_fit(&self.board, &self.active_tetrimino, o, offs, k as int),
            decreases kicks.len() + 1 - k,
        {
            let off = if k == 0 { Point(0, 0) } else { kicks[k - 1] };
            assert(off == offs[k as int]);
            proof {
                if k > 0 {
                    let ty = self.active_tetrimino.tetrimino.tetrimino_type@;
                    assert(crate::tetrimino::small(ty.kicks[self.active_tetrimino.orientation.spec_index()][direction.spec_index()][k - 1]));
                }
            }
            let nx = self.active_tetrimino.position.0 + off.0;
            let ny = self.active_tetrimino.position.1 + off.1;
            if -POSITION_LIMIT <= nx && nx <= POSITION_LIMIT && -POSITION_LIMIT <= ny && ny <= POSITION_LIMIT {
                let points = self.active_tetrimino.points_in(target, off);
                if self.board.do_points_fit(&points) {
                    self.active_tetrimino.translate(off);
                    self.active_tetrimino.rotate(direction);
                    self.active_tetrimino_updated();
                    return true;
                }
            }
            k += 1;
        }
        false
    }
}

/// The hold primitive itself has no once-per-drop limit: holding twice in a row swaps twice, so the
/// second call brings back the piece that was active before the first.
pub proof fn lemma_hold_twice<G: TetriminoGenerator>(g0: GameCore<G>, g1: GameCore<G>, g2: GameCore<G>)
    requires
        GameCore::hold_result(g0, g1),
        GameCore::hold_result(g1, g2),
    ensures
        g2.active().tetrimino == g0.active().tetrimino,
        g2.held() == Some(g1.active().tetrimino),
{
}

/// Rotation is a function of the board's filled cells and the piece: two games whose boards
/// fill the same cells, with the same active piece, turn to the same offset.
pub proof fn lemma_rotation_deterministic(b1: &Board, b2: &Board, active: &ActiveTetrimino, direction: Direction)
    requires
        b1.cells() == b2.cells(),
        b1.spec_width() == b2.spec_width(),
    ensures
        rotation_outcome(b1, active, direction) == rotation_outcome(b2, active, direction),
{
    let o = active.orientation.spec_rotated(direction).spec_index();
    let offs = rotation_offsets(active, direction);
    lemma_first_fit_same(b1, b2, active, o, offs, 0);
}

proof fn lemma_first_fit_same(b1: &Board, b2: &Board, active: &ActiveTetrimino, o: int, offs: Seq<Point>, k: int)
    requires
        b1.cells() == b2.cells(),
        b1.spec_width() == b2.spec_width(),
    ensures
        first_fit(b1, active, o, offs, k) == first_fit(b2, active, o, offs, k),
    decreases offs.len() - k,
{
    if 0 <= k < offs.len() {
        assert(offset_fits(b1, active, o, offs[k]) == offset_fits(b2, active, o, offs[k]));
        lemma_first_fit_same(b1, b2, active, o, offs, k + 1);
    }
}

} // verus!
