use vstd::prelude::*;

use crate::adjust::{copy_rows, lower_points, lowered_all, shift_rows, shifted_rows};
use crate::board::{after_drops, rows_filled_by_drops, without_points};
use crate::board::{Board, MAX_DIM};
use crate::game_core::{fits, lands_after, GameCore};
use crate::tetrimino::shifted;
use crate::generator::TetriminoGenerator;
use crate::orientation::Direction;
use crate::ordering::{sorted_dedup, strictly_sorted};
use crate::point::Point;
use crate::transition::{BoardTransition, TransitionView};

verus! {

/// One frame, in the units gravity is measured in (a hundred-thousandth of a frame).
pub const FRAME: u64 = 100000;

/// Largest number of frame units a level's gravity may take.
pub const MAX_GRAVITY: u64 = 1000000000000;

/// Frames per cell of fall at each level, in hundred-thousandths of a frame:
/// 60 frames at level 0, speeding up to 0.4236 frames at level 14.
pub fn default_gravity() -> (r: Vec<u64>)
    ensures
        r.len() == 15,
        forall|i: int| 0 <= i < r.len() ==> 0 < #[trigger] r@[i] <= MAX_GRAVITY,
{
    let r = vec![
        6000000, 4758000, 3706800, 2836380, 2131200, 1572000, 1138080, 808380, 563280, 384900,
        257880, 169320, 108900, 68640, 42360,
    ];
    assert(r@.len() == 15);
    assert(forall|i: int| 0 <= i < r.len() ==> 0 < #[trigger] r@[i] <= MAX_GRAVITY) by {
        assert(r@ == seq![6000000u64, 4758000, 3706800, 2836380, 2131200, 1572000, 1138080, 808380, 563280, 384900,
            257880, 169320, 108900, 68640, 42360]);
    }
    r
}

/// The gravity of `level`; levels past the table use its last entry.
pub open spec fn gravity_at(gravity: Seq<u64>, level: int) -> u64 {
    if level < gravity.len() { gravity[level] } else { gravity[gravity.len() - 1] }
}

pub fn calculate_gravity(gravity: &Vec<u64>, level: usize) -> (r: u64)
    requires
        gravity.len() >= 1,
    ensures
        r == gravity_at(gravity@, level as int),
{
    if level < gravity.len() { gravity[level] } else { gravity[gravity.len() - 1] }
}

/// What a game is built from.
pub struct DriverConfig {
    pub width: usize,
    pub height: usize,
    pub queue_length: usize,
    pub lock_delay: usize,
    pub gravity: Vec<u64>,
    pub rng_seed: Vec<u8>,
}

impl DriverConfig {
    /// A 10 by 20 board, three pieces of lookahead, a 120-frame lock delay and the default
    /// gravity, with the given seed.
    pub fn new(rng_seed: Vec<u8>) -> (r: DriverConfig)
        ensures
            r.valid(),
            r.width == 10,
            r.height == 20,
            r.queue_length == 3,
            r.lock_delay == 120,
            r.rng_seed@ == rng_seed@,
    {
        DriverConfig { width: 10, height: 20, queue_length: 3, lock_delay: 120, gravity: default_gravity(), rng_seed }
    }

    pub open spec fn valid(&self) -> bool {
        &&& 1 <= self.width <= MAX_DIM
        &&& self.height <= MAX_DIM
        &&& self.width * self.height <= usize::MAX
        &&& 1 <= self.queue_length
        &&& self.gravity.len() >= 1
        &&& forall|i: int| 0 <= i < self.gravity.len() ==> #[trigger] self.gravity@[i] <= MAX_GRAVITY
    }
}

/// The rows of a placement result, none when the piece was not placed.
pub open spec fn rows_of(rows: Option<Vec<i32>>) -> Seq<i32> {
    match rows {
        Some(v) => v@,
        None => Seq::empty(),
    }
}

/// `new` is `old` after `t` is applied through the boards `b1` (its rows cleared) and `b2`
/// (then the cleared points, `points`, emptied); the drops then follow, and `chain` lists the
/// rows they filled.
pub open spec fn finishing_steps(
    old: Board,
    b1: Board,
    b2: Board,
    new: Board,
    t: TransitionView,
    points: Option<Vec<Point>>,
    chain: Seq<i32>,
) -> bool {
    &&& b1.wf() && b2.wf()
    &&& if t.rows_deleted.len() > 0 {
        Board::rows_cleared(old, b1, t.rows_deleted)
    } else {
        b1 == old
    }
    &&& if points is Some {
        b2.cells() == without_points(b1.cells(), points->Some_0@, points->Some_0@.len() as int) && b2.same_shape(&b1)
    } else {
        b2 == b1
    }
    &&& if t.points_falling.len() > 0 {
        new.cells() == after_drops(b2.cells(), t.points_falling, t.points_falling.len() as int)
    } else {
        new == b2
    }
    &&& chain == rows_filled_by_drops(b2.cells(), t.points_falling, b2.spec_width(), t.points_falling.len() as int)
}

/// The frame clock around a game: gravity, lock delay, the once-per-drop hold, score and level.
pub struct DriverCore<G: TetriminoGenerator> {
    pub core: GameCore<G>,
    pub frames_since_drop: u64,
    pub gravity: Vec<u64>,
    pub level: usize,
    pub score: usize,
    pub lock_delay: usize,
    pub frames_since_lock_delay: usize,
    pub lock_delayed: bool,
    pub can_hold: bool,
}

impl<G: TetriminoGenerator> DriverCore<G> {
    pub open spec fn wf(&self) -> bool {
        &&& self.core.wf()
        &&& self.gravity.len() >= 1
        &&& forall|i: int| 0 <= i < self.gravity.len() ==> #[trigger] self.gravity@[i] <= MAX_GRAVITY
        &&& self.frames_since_drop <= MAX_GRAVITY + FRAME
    }

    /// A game built from `config`, with `generator` seeded from the config's seed.
    pub fn new(config: DriverConfig, generator: G) -> (r: Self)
        requires
            config.valid(),
            generator.wf(),
        ensures
            r.wf(),
            r.core.spec_board().spec_width() == config.width,
            r.core.spec_board().spec_height() == config.height,
            r.core.spec_board().cells() == Map::<(int, int), u32>::empty(),
            r.core.queue().len() == config.queue_length,
            r.core.held() is None,
            r.level == 0,
            r.score == 0,
            r.can_hold,
            !r.lock_delayed,
            r.lock_delay == config.lock_delay,
            r.gravity@ == config.gravity@,
            r.frames_since_drop == 0,
            r.frames_since_lock_delay == 0,
            r.core.queue_index() == 0,
            r.core.generator().catalog() == generator.catalog(),
    {
        let DriverConfig { width, height, queue_length, lock_delay, gravity, rng_seed } = config;
        let board = Board::new(width, height);
        let mut generator = generator;
        generator.set_seed(rng_seed);
        let core = GameCore::new(board, queue_length, generator);
        DriverCore {
            core,
            frames_since_drop: 0,
            gravity,
            level: 0,
            score: 0,
            lock_delay,
            frames_since_lock_delay: 0,
            lock_delayed: false,
            can_hold: true,
        }
    }

    /// What `process_frame` does: see its description.
    pub open spec fn frame_step(old: Self, new: Self, r: bool) -> bool {
        &&& new.can_hold == old.can_hold
        &&& new.score == old.score
        &&& new.level == old.level
        &&& new.gravity == old.gravity
        &&& new.lock_delay == old.lock_delay
        &&& old.lock_delayed ==> {
            let count = if old.frames_since_lock_delay < usize::MAX { old.frames_since_lock_delay + 1 } else { old.frames_since_lock_delay as int };
            &&& new.frames_since_lock_delay == count
            &&& r == (count > old.lock_delay)
            &&& new.lock_delayed == !r
            &&& new.core == old.core
            &&& new.frames_since_drop == old.frames_since_drop
        }
        &&& !old.lock_delayed ==> {
            let acc = old.frames_since_drop + FRAME;
            let due = acc > gravity_at(old.gravity@, old.level as int);
            &&& !r
            &&& !due ==> new.frames_since_drop == acc && new.core == old.core && !new.lock_delayed
                && new.frames_since_lock_delay == old.frames_since_lock_delay
            &&& due ==> new.frames_since_drop == 0
            &&& due ==> GameCore::translate_result(old.core, new.core, Point(0i32, -1i32), !new.lock_delayed)
            &&& due && new.lock_delayed ==> new.frames_since_lock_delay == 0
            &&& due && !new.lock_delayed ==> new.frames_since_lock_delay == old.frames_since_lock_delay
        }
    }

    /// The fields of the frame clock that a move leaves as they are.
    pub open spec fn clock_kept(old: Self, new: Self) -> bool {
        &&& new.score == old.score
        &&& new.level == old.level
        &&& new.gravity == old.gravity
        &&& new.lock_delay == old.lock_delay
        &&& new.frames_since_drop == old.frames_since_drop
        &&& new.frames_since_lock_delay == old.frames_since_lock_delay
    }

    /// What `fall` does: the game core falls (see `GameCore::fall_result`), the lock delay
    /// ends, and a placed piece allows holding again; the transition has the filled rows and,
    /// once placed, the piece's cells.
    pub open spec fn fall_step(old: Self, new: Self, r: (bool, BoardTransition)) -> bool {
        &&& exists|rows: Option<Vec<i32>>| #[trigger] GameCore::fall_result(old.core, new.core, (r.0, rows)) && r.1@.rows_deleted == rows_of(rows)
        &&& !new.lock_delayed
        &&& new.can_hold == (r.0 || old.can_hold)
        &&& r.1@.points_added == if r.0 { old.core.active().cells() } else { Seq::<Point>::empty() }
        &&& r.1@.points_deleted.len() == 0
        &&& r.1@.points_falling.len() == 0
        &&& Self::clock_kept(old, new)
    }

    /// What `fastfall` does: the piece drops `r.0` rows and is placed (see
    /// `GameCore::lock_result`), the lock delay ends and holding is allowed again; the
    /// transition has the filled rows and the piece's cells before the drop.
    pub open spec fn fastfall_step(old: Self, new: Self, r: (i32, BoardTransition)) -> bool {
        let cells = old.core.active().cells();
        &&& fits(&old.core.spec_board(), cells) ==> lands_after(&old.core.spec_board(), cells, r.0 as int)
        &&& !fits(&old.core.spec_board(), cells) ==> r.0 == 0
        &&& exists|rows: Option<Vec<i32>>| #[trigger] GameCore::lock_result(old.core, new.core, shifted(cells, 0, -(r.0 as int)), rows)
            && r.1@.rows_deleted == rows_of(rows)
        &&& !new.lock_delayed
        &&& new.can_hold
        &&& r.1@.points_added == cells
        &&& r.1@.points_deleted.len() == 0
        &&& r.1@.points_falling.len() == 0
        &&& Self::clock_kept(old, new)
    }

    /// Advances one frame. During a lock delay, counts it and reports `true` once the delay
    /// has passed (the piece must then be placed). Otherwise accumulates gravity and, when a
    /// cell's worth has built up, moves the piece down, starting the lock delay when it
    /// cannot move.
    pub fn process_frame(&mut self) -> (r: bool)
        requires
            old(self).wf(),
        ensures
            final(self).wf(),
            Self::frame_step(*old(self), *final(self), r),
    {
        if self.lock_delayed {
            if self.frames_since_lock_delay < usize::MAX {
                self.frames_since_lock_delay += 1;
            }
            if self.frames_since_lock_delay > self.lock_delay {
                self.lock_delayed = false;
                return true;
            }
        } else {
            self.frames_since_drop += FRAME;
            let gravity = calculate_gravity(&self.gravity, self.level);
            if self.frames_since_drop > gravity {
                self.frames_since_drop = 0;
                if !self.core.try_fall() {
                    self.lock_delayed = true;
                    self.frames_since_lock_delay = 0;
                }
            }
        }
        false
    }

    pub fn translate_left(&mut self) -> (r: bool)
        requires
            old(self).wf(),
        ensures
            final(self).wf(),
            GameCore::translate_result(old(self).core, final(self).core, Point(-1i32, 0i32), r),
            final(self).score == old(self).score,
            final(self).level == old(self).level,
            final(self).can_hold == old(self).can_hold,
            final(self).lock_delayed == old(self).lock_delayed,
            Self::clock_kept(*old(self), *final(self)),
    {
        self.core.translate(Point(-1, 0))
    }

    pub fn translate_right(&mut self) -> (r: bool)
        requires
            old(self).wf(),
        ensures
            final(self).wf(),
            GameCore::translate_result(old(self).core, final(self).core, Point(1i32, 0i32), r),
            final(self).score == old(self).score,
            final(self).level == old(self).level,
            final(self).can_hold == old(self).can_hold,
            final(self).lock_delayed == old(self).lock_delayed,
            Self::clock_kept(*old(self), *final(self)),
    {
        self.core.translate(Point(1, 0))
    }

    pub fn rotate_clockwise(&mut self) -> (r: bool)
        requires
            old(self).wf(),
        ensures
            final(self).wf(),
            GameCore::rotate_result(old(self).core, final(self).core, Direction::Clockwise, r),
            final(self).score == old(self).score,
            final(self).level == old(self).level,
            final(self).can_hold == old(self).can_hold,
            final(self).lock_delayed == old(self).lock_delayed,
            Self::clock_kept(*old(self), *final(self)),
    {
        self.core.rotate(Direction::Clockwise)
    }

    pub fn rotate_counterclockwise(&mut self) -> (r: bool)
        requires
            old(self).wf(),
        ensures
            final(self).wf(),
            GameCore::rotate_result(old(self).core, final(self).core, Direction::CounterClockwise, r),
            final(self).score == old(self).score,
            final(self).level == old(self).level,
            final(self).can_hold == old(self).can_hold,
            final(self).lock_delayed == old(self).lock_delayed,
            Self::clock_kept(*old(self), *final(self)),
    {
        self.core.rotate(Direction::CounterClockwise)
    }

    /// What `hold` does: once per drop it holds, clears the lock delay and disallows holding until the next placement;
    /// otherwise nothing changes.
    pub open spec fn hold_step(old: Self, new: Self) -> bool {
        if old.can_hold {
            &&& GameCore::hold_result(old.core, new.core)
            &&& !new.can_hold
            &&& !new.lock_delayed
            &&& Self::clock_kept(old, new)
        } else {
            new == old
        }
    }

    /// Holds the active piece, at most once per drop: a second call before the next piece
    /// is placed does nothing.
    pub fn hold(&mut self)
        requires
            old(self).wf(),
        ensures
            final(self).wf(),
            Self::hold_step(*old(self), *final(self)),
    {
        if self.can_hold {
            self.core.hold();
            self.can_hold = false;
            self.lock_delayed = false;
        }
    }

    /// Moves the piece down a row or places it. Returns whether it was placed, and a
    /// transition holding the rows it filled and, once placed, the cells it covered
    /// before the move.
    pub fn fall(&mut self) -> (r: (bool, BoardTransition))
        requires
            old(self).wf(),
        ensures
            final(self).wf(),
            Self::fall_step(*old(self), *final(self), r),
    {
        self.lock_delayed = false;
        let tetrimino_points = self.core.get_active_tetrimino().get_points();
        let (added, rows_deleted) = self.core.fall();
        let ghost rd = rows_deleted;
        let rows = match rows_deleted {
            Some(rows) => rows,
            None => Vec::new(),
        };
        assert(rows@ == rows_of(rd));
        let mut transition = BoardTransition::new().with_rows_deleted(rows);
        if added {
            self.can_hold = true;
            transition.add_points_added(tetrimino_points);
        } else {
            assert(transition@.points_added =~= Seq::<Point>::empty());
        }
        assert(GameCore::fall_result(old(self).core, self.core, (added, rd)));
        assert(transition@.rows_deleted == rows_of(rd));
        let r = (added, transition);
        assert(GameCore::fall_result(old(self).core, self.core, (r.0, rd)) && r.1@.rows_deleted == rows_of(rd));
        r
    }

    /// Drops the piece as far as it goes and places it. Returns the rows it fell and a
    /// transition with the rows it filled and the cells it covered before the drop.
    pub fn fastfall(&mut self) -> (r: (i32, BoardTransition))
        requires
            old(self).wf(),
        ensures
            final(self).wf(),
            Self::fastfall_step(*old(self), *final(self), r),
    {
        self.lock_delayed = false;
        self.can_hold = true;
        let tetrimino_points = self.core.get_active_tetrimino().get_points();
        let (translation, rows_deleted) = self.core.fastfall();
        let ghost rd = rows_deleted;
        let rows = match rows_deleted {
            Some(rows) => rows,
            None => Vec::new(),
        };
        assert(rows@ == rows_of(rd));
        let transition = BoardTransition::new().with_points_added(tetrimino_points).with_rows_deleted(rows);
        assert(GameCore::lock_result(old(self).core, self.core, shifted(old(self).core.active().cells(), 0, -(translation as int)), rd));
        let r = (translation, transition);
        assert(GameCore::lock_result(old(self).core, self.core, shifted(old(self).core.active().cells(), 0, -(r.0 as int)), rd)
            && r.1@.rows_deleted == rows_of(rd));
        r
    }

    /// What `finish_transition(t)` does, in full: see its description.
    pub open spec fn finish_result(old: Self, new: Self, t: TransitionView, r: (Option<Vec<i32>>, Option<Vec<Point>>, BoardTransition)) -> bool {
        &&& new.core.spec_board().same_shape(&old.core.spec_board())
        &&& r.0 is Some <==> t.rows_deleted.len() > 0
        &&& r.0 is Some ==> exists|sorted: Seq<i32>| strictly_sorted(sorted) && sorted.to_set() == t.rows_deleted.to_set() && #[trigger] shifted_rows(sorted) == r.0->Some_0@
        &&& r.1 is Some <==> t.points_deleted.len() > 0
        &&& r.1 is Some && t.rows_deleted.len() == 0 ==> r.1->Some_0@ == t.points_deleted
        &&& r.1 is Some && t.rows_deleted.len() > 0 ==> exists|sorted: Seq<i32>| strictly_sorted(sorted) && sorted.to_set() == t.rows_deleted.to_set() && r.1->Some_0@ == #[trigger] lowered_all(sorted, t.points_deleted)
        &&& r.2@.points_deleted.len() == 0
        &&& r.2@.points_falling.len() == 0
        &&& r.2@.points_added.len() == 0
        &&& new.score == old.score
        &&& new.level == old.level
        &&& new.can_hold == old.can_hold
        &&& new.lock_delayed == old.lock_delayed
        &&& new.frames_since_drop == old.frames_since_drop
        &&& new.frames_since_lock_delay == old.frames_since_lock_delay
        &&& new.gravity == old.gravity
        &&& new.lock_delay == old.lock_delay
        &&& new.core.active() == old.core.active()
        &&& new.core.ghost() == old.core.ghost()
        &&& new.core.held() == old.core.held()
        &&& new.core.queue() == old.core.queue()
        &&& new.core.queue_index() == old.core.queue_index()
        &&& new.core.generator() == old.core.generator()
        &&& exists|b1: Board, b2: Board| #[trigger] finishing_steps(old.core.spec_board(), b1, b2, new.core.spec_board(), t, r.1, r.2@.rows_deleted)
    }

    /// Applies `transition` to the board: clears its rows, then its points (each lowered by
    /// the cleared rows beneath it when rows were cleared too), then moves its falling
    /// points. Returns the cleared rows as indices after the clear (each lowered by the
    /// rows cleared before it), the cleared points, and a transition holding the rows the
    /// falling points filled, for the caller to finish next.
    pub fn finish_transition(&mut self, transition: BoardTransition) -> (r: (Option<Vec<i32>>, Option<Vec<Point>>, BoardTransition))
        requires
            old(self).wf(),
        ensures
            final(self).wf(),
            Self::finish_result(*old(self), *final(self), transition@, r),
    {
        let ghost start = transition@;
        let ghost mut b1 = self.core.spec_board();
        let mut transition = transition;
        let mut chain_transition = BoardTransition::new();
        let mut deleted_rows: Option<Vec<i32>> = None;
        let mut sorted_rows: Vec<i32> = Vec::new();
        let has_rows = match transition.get_rows_deleted() {
            Some(rows) => {
                sorted_rows = sorted_dedup(rows);
                let board = self.core.get_board_mut();
                board.clear_rows(copy_rows(rows));
                proof { b1 = self.core.spec_board(); }
                let shifted = shift_rows(&sorted_rows);
                assert(shifted_rows(sorted_rows@) == shifted@);
                deleted_rows = Some(shifted);
                true
            },
            None => false,
        };
        let ghost mut b2 = b1;
        let mut deleted_points: Option<Vec<Point>> = None;
        match transition.take_points_deleted() {
            Some(points) => {
                let pts = if has_rows {
                    let lowered_points = lower_points(&sorted_rows, &points);
                    lowered_points
                } else {
                    points
                };
                let board = self.core.get_board_mut();
                board.clear_points(&pts);
                proof { b2 = self.core.spec_board(); }
                deleted_points = Some(pts);
            },
            None => {},
        }
        match transition.take_points_falling() {
            Some(points) => {
                let board = self.core.get_board_mut();
                let full_rows = board.translate_falling_points(&points);
                chain_transition.add_rows_deleted(full_rows);
            },
            None => {
                proof {
                    assert(start.points_falling =~= Seq::<(Point, i32)>::empty());
                }
            },
        }
        proof {
            assert(chain_transition@.rows_deleted == rows_filled_by_drops(b2.cells(), start.points_falling, b2.spec_width(), start.points_falling.len() as int));
            assert(finishing_steps(old(self).core.spec_board(), b1, b2, self.core.spec_board(), start, deleted_points, chain_transition@.rows_deleted));
        }
        let r = (deleted_rows, deleted_points, chain_transition);
        assert(finishing_steps(old(self).core.spec_board(), b1, b2, self.core.spec_board(), start, r.1, r.2@.rows_deleted));
        r
    }

    pub fn get_game_core(&self) -> (r: &GameCore<G>)
        ensures
            *r == self.core,
    {
        &self.core
    }

    pub fn get_score(&self) -> (r: usize)
        ensures
            r == self.score,
    {
        self.score
    }

    pub fn get_level(&self) -> (r: usize)
        ensures
            r == self.level,
    {
        self.level
    }
}

/// The driver's hold is gated once per drop: of two holds in a row, with no piece placed
/// between them, the second changes nothing.
pub proof fn lemma_hold_once_per_drop<G: TetriminoGenerator>(d0: DriverCore<G>, d1: DriverCore<G>, d2: DriverCore<G>)
    requires
        DriverCore::hold_step(d0, d1),
        DriverCore::hold_step(d1, d2),
    ensures
        d2 == d1,
        !d1.can_hold,
{
}

} // verus!
