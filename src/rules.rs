use vstd::prelude::*;

use crate::board::Board;
use crate::catalog::{default_tetriminos, fusion_tetriminos, FUSION_TETRIMINO_INDEX};
use crate::driver_core::{DriverConfig, DriverCore};
use crate::game_core::{fits, lands_after, lemma_landing_above_floor, GameCore};
use crate::tetrimino::{shift_points, shifted, within};
use crate::generator::{BasicGenerator, CascadeGenerator, PieceGenerator, StickyGenerator, TetriminoGenerator};
use crate::ordering::{sorted_dedup, strictly_sorted};
use crate::physics::{calculate_sticky_falls, calculate_sticky_falls_from_rows, falls_fit, falls_ok, falls_of_graph, row_seeds, ShapeGraph};
use crate::orientation::Direction;
use crate::point::Point;
use crate::transition::{BoardTransition, TransitionView};

verus! {

/// The rule variants: what follows a clear, and how pieces are made.
#[derive(Clone, Copy, PartialEq, Eq, Structural, Debug)]
pub enum RuleVariant {
    /// Scoring by lines cleared, with a back-to-back bonus for four-line clears.
    Classic,
    /// Every piece has its own color; after a clear, disconnected shapes fall.
    Cascade,
    /// Pieces are sometimes two-colored; after every placement and clear, shapes fall.
    Sticky,
    /// A single-cell wildcard piece: full rows holding one lose only their other cells.
    Fusion,
}

/// Largest level the classic rules reach.
pub const LEVEL_CAP: usize = 15;

/// Points for clearing `count` rows; a four-row clear right after another is worth 12.
pub open spec fn classic_points(count: int, last_was_tetris: bool) -> int {
    if count == 1 {
        1
    } else if count == 2 {
        3
    } else if count == 3 {
        5
    } else if count == 4 {
        if last_was_tetris { 12 } else { 8 }
    } else {
        0
    }
}

pub fn score_for_clear(count: usize, last_was_tetris: bool) -> (r: usize)
    ensures
        r == classic_points(count as int, last_was_tetris),
{
    if count == 1 {
        1
    } else if count == 2 {
        3
    } else if count == 3 {
        5
    } else if count == 4 {
        if last_was_tetris { 12 } else { 8 }
    } else {
        0
    }
}

/// The level after the score reaches `score`: a fifth of the score, when that is higher and
/// below the cap; the level never goes down.
pub open spec fn next_level(level: int, score: int) -> int {
    if level < score / 5 && score / 5 < LEVEL_CAP { score / 5 } else { level }
}

/// Every cell of row `r` is filled with a value other than the wildcard's.
pub open spec fn row_without_wildcard(board: &Board, r: int) -> bool {
    forall|x: int| 0 <= x < board.spec_width() ==> #[trigger] board.cells().contains_key((x, r))
        && board.cells()[(x, r)] != FUSION_TETRIMINO_INDEX as u32
}

/// The filled cells of row `r` among its first `x` columns that do not hold the wildcard.
pub open spec fn non_wildcard_cells(board: &Board, r: int, x: int) -> Seq<Point>
    decreases x,
{
    if x <= 0 {
        Seq::empty()
    } else {
        let prev = non_wildcard_cells(board, r, x - 1);
        if board.cells().contains_key((x - 1, r)) && board.cells()[(x - 1, r)] != FUSION_TETRIMINO_INDEX as u32 {
            prev.push(Point((x - 1) as i32, r as i32))
        } else {
            prev
        }
    }
}

/// The first `k` of `rows` split into rows that clear normally and the non-wildcard cells
/// of the others.
pub open spec fn fusion_split(board: &Board, rows: Seq<i32>, k: int) -> (Seq<i32>, Seq<Point>)
    decreases k,
{
    if k <= 0 {
        (Seq::empty(), Seq::empty())
    } else {
        let prev = fusion_split(board, rows, k - 1);
        let r = rows[k - 1] as int;
        if row_without_wildcard(board, r) {
            (prev.0.push(rows[k - 1]), prev.1)
        } else {
            (prev.0, prev.1 + non_wildcard_cells(board, r, board.spec_width()))
        }
    }
}

/// `falls` is what the resolver gives on `board` from the filled cells of `rows`.
pub open spec fn resolved_falls(board: &Board, rows: Seq<i32>, falls: Seq<(Point, i32)>) -> bool {
    &&& falls_ok(board, falls)
    &&& falls_fit(falls)
    &&& exists|g: ShapeGraph| #[trigger] g.found_on(board, row_seeds(board, rows, rows.len() as int), -1) && falls_of_graph(g, falls)
}

/// `t` with `falls` added to its falling points.
pub open spec fn with_falls(t: TransitionView, falls: Seq<(Point, i32)>) -> TransitionView {
    TransitionView { points_falling: t.points_falling + falls, ..t }
}

/// `t` with its rows reclassified by the fusion rules on `board`.
pub open spec fn fusion_view(board: &Board, t: TransitionView) -> TransitionView {
    let split = fusion_split(board, t.rows_deleted, t.rows_deleted.len() as int);
    TransitionView { rows_deleted: split.0, points_deleted: t.points_deleted + split.1, ..t }
}

/// The rows of `points`, in order.
pub open spec fn point_rows(points: Seq<Point>) -> Seq<i32> {
    Seq::new(points.len(), |k: int| points[k].1)
}

/// What a variant returns from a finishing step whose board is `board` and whose core
/// result is `r0`: classic returns the chain as it is; cascade and sticky add the falls of
/// the shapes above the cleared rows; fusion adds the falls above the rows of the cleared
/// points and reclassifies the rows to delete.
pub open spec fn arm_result(
    variant: RuleVariant,
    board: &Board,
    r0: (Option<Vec<i32>>, Option<Vec<Point>>, BoardTransition),
    r: TransitionView,
) -> bool {
    match variant {
        RuleVariant::Classic => r == r0.2@,
        RuleVariant::Cascade | RuleVariant::Sticky => if r0.0 is Some {
            exists|falls: Seq<(Point, i32)>| #[trigger] resolved_falls(board, r0.0->Some_0@, falls) && r == with_falls(r0.2@, falls)
        } else {
            r == r0.2@
        },
        RuleVariant::Fusion => if r0.1 is Some {
            exists|rows: Seq<i32>, falls: Seq<(Point, i32)>|
                strictly_sorted(rows) && rows.to_set() == point_rows(r0.1->Some_0@).to_set()
                    && #[trigger] resolved_falls(board, rows, falls) && r == fusion_view(board, with_falls(r0.2@, falls))
        } else {
            r == fusion_view(board, r0.2@)
        },
    }
}

/// What a variant returns after the core's move with transition `t0`, when a piece was
/// `placed` with cells `cells`: sticky adds the falls seeded from those cells, fusion
/// reclassifies the rows to delete, the others keep `t0`.
pub open spec fn placed_arm(variant: RuleVariant, board: &Board, placed: bool, cells: Seq<Point>, t0: TransitionView, r: TransitionView) -> bool {
    if !placed {
        r == t0
    } else {
        match variant {
            RuleVariant::Sticky => exists|g: ShapeGraph, falls: Seq<(Point, i32)>|
                #![trigger g.found_on(board, cells, -1), with_falls(t0, falls)]
                g.found_on(board, cells, -1) && falls_of_graph(g, falls) && falls_ok(board, falls) && falls_fit(falls)
                    && r == with_falls(t0, falls),
            RuleVariant::Fusion => r == fusion_view(board, t0),
            _ => r == t0,
        }
    }
}

/// `ds` and `ts` are `n` finishing steps: each transition but the last changes something,
/// and the driver goes from each state to the next by finishing it.
pub open spec fn finishing_chain(ds: Seq<Driver>, ts: Seq<TransitionView>, n: int) -> bool {
    &&& 0 <= n
    &&& ds.len() == n + 1
    &&& ts.len() == n + 1
    &&& forall|i: int| 0 <= i < n ==> !(#[trigger] ts[i]).inert() && Driver::finished(ds[i], ds[i + 1], ts[i], ts[i + 1])
}

/// A game under one rule variant.
pub struct Driver {
    pub driver_core: DriverCore<PieceGenerator>,
    pub variant: RuleVariant,
    pub last_clear_was_tetris: bool,
}

impl Driver {
    pub open spec fn wf(&self) -> bool {
        self.driver_core.wf()
    }

    /// Only the game core changed: the clock, the hold flag and the rule state are kept.
    pub open spec fn moved_only(old: Self, new: Self) -> bool {
        &&& Self::rules_kept(old, new)
        &&& DriverCore::clock_kept(old.driver_core, new.driver_core)
        &&& new.driver_core.can_hold == old.driver_core.can_hold
        &&& new.driver_core.lock_delayed == old.driver_core.lock_delayed
    }

    /// The driver's fields other than its core are as in `old`.
    pub open spec fn rules_kept(old: Self, new: Self) -> bool {
        new.variant == old.variant && new.last_clear_was_tetris == old.last_clear_was_tetris
    }

    /// What `fall` does: the core falls (see `DriverCore::fall_step`); a placed piece then
    /// seeds the physics under the sticky rules, and has its full rows reclassified under the
    /// fusion rules.
    pub open spec fn fall_result(old: Self, new: Self, r: TransitionView) -> bool {
        &&& Self::rules_kept(old, new)
        &&& exists|added: bool, t0: BoardTransition| #[trigger] DriverCore::fall_step(old.driver_core, new.driver_core, (added, t0))
            && placed_arm(old.variant, &new.driver_core.core.spec_board(), added, old.driver_core.core.active().cells(), t0@, r)
    }

    /// What `fastfall` does: the core drops and places the piece (see
    /// `DriverCore::fastfall_step`); the landed cells then seed the physics under the sticky
    /// rules, and full rows are reclassified under the fusion rules.
    pub open spec fn fastfall_result(old: Self, new: Self, r: TransitionView) -> bool {
        &&& Self::rules_kept(old, new)
        &&& exists|d: i32, t0: BoardTransition| #[trigger] DriverCore::fastfall_step(old.driver_core, new.driver_core, (d, t0))
            && placed_arm(old.variant, &new.driver_core.core.spec_board(), true,
                shifted(old.driver_core.core.active().cells(), 0, -(d as int)), t0@, r)
    }

    /// What `next_frame` does: the clock advances (see `DriverCore::frame_step`); when the
    /// lock delay runs out, the piece falls as by `fall`.
    pub open spec fn next_frame_result(old: Self, new: Self, r: TransitionView) -> bool {
        exists|mid: DriverCore<PieceGenerator>, due: bool| #[trigger] DriverCore::frame_step(old.driver_core, mid, due) && {
            let m = Driver { driver_core: mid, ..old };
            &&& mid.wf()
            &&& !due ==> new == m && r.inert()
            &&& due ==> Self::fall_result(m, new, r)
        }
    }

    /// A game of `variant` built from `config`, with the variant's own piece generator.
    pub fn new(variant: RuleVariant, config: DriverConfig) -> (r: Driver)
        requires
            config.valid(),
        ensures
            r.wf(),
            r.variant == variant,
            r.driver_core.score == 0,
            r.driver_core.level == 0,
            r.driver_core.core.spec_board().spec_width() == config.width,
            r.driver_core.core.spec_board().spec_height() == config.height,
    {
        let generator = match variant {
            RuleVariant::Classic => PieceGenerator::Basic(BasicGenerator::new(default_tetriminos())),
            RuleVariant::Cascade => PieceGenerator::Cascade(CascadeGenerator::new(default_tetriminos())),
            RuleVariant::Sticky => PieceGenerator::Sticky(StickyGenerator::new(default_tetriminos())),
            RuleVariant::Fusion => PieceGenerator::Basic(BasicGenerator::new(fusion_tetriminos())),
        };
        Self::with_generator(variant, config, generator)
    }

    /// A game of `variant` built from `config` that takes its pieces from `generator`.
    pub fn with_generator(variant: RuleVariant, config: DriverConfig, generator: PieceGenerator) -> (r: Driver)
        requires
            config.valid(),
            generator.wf(),
        ensures
            r.wf(),
            r.variant == variant,
            r.driver_core.score == 0,
            r.driver_core.level == 0,
            r.driver_core.core.spec_board().spec_width() == config.width,
            r.driver_core.core.spec_board().spec_height() == config.height,
            r.driver_core.core.spec_board().cells() == Map::<(int, int), u32>::empty(),
            !r.last_clear_was_tetris,
    {
        Driver { driver_core: DriverCore::new(config, generator), variant, last_clear_was_tetris: false }
    }

    pub fn get_driver_core(&self) -> (r: &DriverCore<PieceGenerator>)
        ensures
            *r == self.driver_core,
    {
        &self.driver_core
    }

    pub fn get_game_core(&self) -> (r: &GameCore<PieceGenerator>)
        ensures
            *r == self.driver_core.core,
    {
        &self.driver_core.core
    }

    pub fn get_score(&self) -> (r: usize)
        ensures
            r == self.driver_core.score,
    {
        self.driver_core.score
    }

    pub fn get_level(&self) -> (r: usize)
        ensures
            r == self.driver_core.level,
    {
        self.driver_core.level
    }

    pub fn translate_left(&mut self) -> (r: bool)
        requires
            old(self).wf(),
        ensures
            final(self).wf(),
            GameCore::translate_result(old(self).driver_core.core, final(self).driver_core.core, Point(-1i32, 0i32), r),
            Self::moved_only(*old(self), *final(self)),
    {
        self.driver_core.translate_left()
    }

    pub fn translate_right(&mut self) -> (r: bool)
        requires
            old(self).wf(),
        ensures
            final(self).wf(),
            GameCore::translate_result(old(self).driver_core.core, final(self).driver_core.core, Point(1i32, 0i32), r),
            Self::moved_only(*old(self), *final(self)),
    {
        self.driver_core.translate_right()
    }

    pub fn rotate_clockwise(&mut self) -> (r: bool)
        requires
            old(self).wf(),
        ensures
            final(self).wf(),
            GameCore::rotate_result(old(self).driver_core.core, final(self).driver_core.core, Direction::Clockwise, r),
            Self::moved_only(*old(self), *final(self)),
    {
        self.driver_core.rotate_clockwise()
    }

    pub fn rotate_counterclockwise(&mut self) -> (r: bool)
        requires
            old(self).wf(),
        ensures
            final(self).wf(),
            GameCore::rotate_result(old(self).driver_core.core, final(self).driver_core.core, Direction::CounterClockwise, r),
            Self::moved_only(*old(self), *final(self)),
    {
        self.driver_core.rotate_counterclockwise()
    }

    /// Holds the active piece, at most once per drop.
    pub fn hold(&mut self)
        requires
            old(self).wf(),
        ensures
            final(self).wf(),
            DriverCore::hold_step(old(self).driver_core, final(self).driver_core),
            Self::rules_kept(*old(self), *final(self)),
    {
        self.driver_core.hold()
    }

    /// Adds `increment` to the score (saturating) and raises the level to a fifth of the
    /// score when that is higher and below the cap.
    pub fn update_score(&mut self, increment: usize)
        ensures
            final(self).driver_core.score == if old(self).driver_core.score <= usize::MAX - increment {
                old(self).driver_core.score + increment
            } else {
                usize::MAX as int
            },
            final(self).driver_core.level == next_level(old(self).driver_core.level as int, final(self).driver_core.score as int),
            final(self).driver_core.core == old(self).driver_core.core,
            final(self).driver_core.can_hold == old(self).driver_core.can_hold,
            final(self).driver_core.gravity == old(self).driver_core.gravity,
            final(self).driver_core.frames_since_drop == old(self).driver_core.frames_since_drop,
            final(self).driver_core.frames_since_lock_delay == old(self).driver_core.frames_since_lock_delay,
            final(self).driver_core.lock_delayed == old(self).driver_core.lock_delayed,
            final(self).driver_core.lock_delay == old(self).driver_core.lock_delay,
            final(self).variant == old(self).variant,
            final(self).last_clear_was_tetris == old(self).last_clear_was_tetris,
    {
        self.driver_core.score = if self.driver_core.score <= usize::MAX - increment {
            self.driver_core.score + increment
        } else {
            usize::MAX
        };
        let level = self.driver_core.score / 5;
        if self.driver_core.level < level && level < LEVEL_CAP {
            self.driver_core.level = level;
        }
    }

    /// Advances one frame; when the lock delay runs out, the piece is placed as by `fall`.
    pub fn next_frame(&mut self) -> (r: BoardTransition)
        requires
            old(self).wf(),
        ensures
            final(self).wf(),
            Self::next_frame_result(*old(self), *final(self), r@),
    {
        let due = self.driver_core.process_frame();
        let ghost mid = self.driver_core;
        if due {
            let r = self.fall();
            assert(Self::fall_result(Driver { driver_core: mid, ..*old(self) }, *self, r@));
            r
        } else {
            let r = BoardTransition::new();
            assert(*self == Driver { driver_core: mid, ..*old(self) });
            r
        }
    }

    /// Moves the piece down a row or places it. Under the sticky rules a placed piece's
    /// footprint seeds the physics; under the fusion rules full rows are reclassified.
    pub fn fall(&mut self) -> (r: BoardTransition)
        requires
            old(self).wf(),
        ensures
            final(self).wf(),
            Self::fall_result(*old(self), *final(self), r@),
    {
        let points = self.driver_core.core.get_active_tetrimino().get_points();
        let (added, transition) = self.driver_core.fall();
        let ghost t0 = transition;
        let ghost cells = old(self).driver_core.core.active().cells();
        let r = match self.variant {
            RuleVariant::Sticky => {
                let mut transition = transition;
                if added {
                    let falls = calculate_sticky_falls(self.driver_core.core.get_board(), points);
                    let ghost fv = falls@;
                    if falls.len() > 0 {
                        transition.add_points_falling(falls);
                    } else {
                        assert(transition@.points_falling + fv =~= transition@.points_falling);
                    }
                    proof {
                        let g = choose|g: ShapeGraph| #[trigger] g.found_on(&self.driver_core.core.spec_board(), cells, -1) && falls_of_graph(g, fv);
                        assert(transition@ =~= with_falls(t0@, fv));
                    }
                }
                transition
            },
            RuleVariant::Fusion => {
                if added {
                    self.extract_fusion_points(transition)
                } else {
                    transition
                }
            },
            _ => transition,
        };
        assert(DriverCore::fall_step(old(self).driver_core, self.driver_core, (added, t0)));
        assert(placed_arm(old(self).variant, &self.driver_core.core.spec_board(), added, cells, t0@, r@));
        r
    }

    /// Drops the piece and places it. Under the sticky rules the piece's landed footprint
    /// seeds the physics; under the fusion rules full rows are reclassified.
    pub fn fastfall(&mut self) -> (r: BoardTransition)
        requires
            old(self).wf(),
        ensures
            final(self).wf(),
            Self::fastfall_result(*old(self), *final(self), r@),
    {
        let points = self.driver_core.core.get_active_tetrimino().get_points();
        let ghost b0 = self.driver_core.core.spec_board();
        let (translation, transition) = self.driver_core.fastfall();
        let ghost t0 = transition;
        let ghost landed_cells = shifted(points@, 0, -(translation as int));
        let r = match self.variant {
            RuleVariant::Sticky => {
                let mut transition = transition;
                proof {
                    if fits(&b0, points@) {
                        lemma_landing_above_floor(&b0, points@, translation as int);
                    }
                    assert forall|i: int| 0 <= i < points@.len() implies i32::MIN <= #[trigger] points@[i].0 + 0 <= i32::MAX
                        && i32::MIN <= points@[i].1 + -translation <= i32::MAX by {}
                }
                let landed = shift_points(&points, 0, -translation);
                assert(landed@ == landed_cells);
                let falls = calculate_sticky_falls(self.driver_core.core.get_board(), landed);
                let ghost fv = falls@;
                if falls.len() > 0 {
                    transition.add_points_falling(falls);
                } else {
                    assert(transition@.points_falling + fv =~= transition@.points_falling);
                }
                proof {
                    let g = choose|g: ShapeGraph| #[trigger] g.found_on(&self.driver_core.core.spec_board(), landed_cells, -1) && falls_of_graph(g, fv);
                    assert(transition@ =~= with_falls(t0@, fv));
                }
                transition
            },
            RuleVariant::Fusion => self.extract_fusion_points(transition),
            _ => transition,
        };
        assert(DriverCore::fastfall_step(old(self).driver_core, self.driver_core, (translation, t0)));
        assert(placed_arm(old(self).variant, &self.driver_core.core.spec_board(), true, landed_cells, t0@, r@));
        r
    }

    /// What `finish_transition(t)` does: see its description.
    pub open spec fn finished(old: Self, new: Self, t: TransitionView, r: TransitionView) -> bool {
        &&& new.variant == old.variant
        &&& (old.variant == RuleVariant::Classic && t.rows_deleted.len() > 0) ==> {
            let gain = classic_points(t.rows_deleted.to_set().len() as int, old.last_clear_was_tetris);
            &&& new.driver_core.score == if old.driver_core.score + gain <= usize::MAX {
                old.driver_core.score + gain
            } else {
                usize::MAX as int
            }
            &&& new.driver_core.level == next_level(old.driver_core.level as int, new.driver_core.score as int)
            &&& new.last_clear_was_tetris == (t.rows_deleted.to_set().len() == 4)
        }
        &&& (old.variant != RuleVariant::Classic || t.rows_deleted.len() == 0) ==> new.driver_core.score
            == old.driver_core.score && new.driver_core.level == old.driver_core.level
        &&& exists|mid: DriverCore<PieceGenerator>, r0: (Option<Vec<i32>>, Option<Vec<Point>>, BoardTransition)|
            #[trigger] DriverCore::finish_result(old.driver_core, mid, t, r0) && new.driver_core.core == mid.core
                && arm_result(old.variant, &mid.core.spec_board(), r0, r)
        &&& new.driver_core.can_hold == old.driver_core.can_hold
        &&& new.driver_core.lock_delayed == old.driver_core.lock_delayed
        &&& new.driver_core.frames_since_drop == old.driver_core.frames_since_drop
        &&& new.driver_core.frames_since_lock_delay == old.driver_core.frames_since_lock_delay
        &&& new.driver_core.gravity == old.driver_core.gravity
        &&& new.driver_core.lock_delay == old.driver_core.lock_delay
        &&& !(old.variant == RuleVariant::Classic && t.rows_deleted.len() > 0) ==> new.last_clear_was_tetris == old.last_clear_was_tetris
    }

    /// Applies `transition` to the board and returns what follows from it under the rules:
    /// classic scores the cleared rows; cascade and sticky let the shapes above cleared
    /// rows fall; fusion lets shapes fall above cleared points, then reclassifies full rows.
    pub fn finish_transition(&mut self, transition: BoardTransition) -> (r: BoardTransition)
        requires
            old(self).wf(),
        ensures
            final(self).wf(),
            Self::finished(*old(self), *final(self), transition@, r@),
    {
        let ghost t0 = transition@;
        let (cleared_rows, cleared_points, new_transition) = self.driver_core.finish_transition(transition);
        let ghost mid = self.driver_core;
        let ghost r0 = (cleared_rows, cleared_points, new_transition);
        let mut new_transition = new_transition;
        match self.variant {
            RuleVariant::Classic => {
                match cleared_rows {
                    Some(rows) => {
                        proof {
                            let sorted = choose|sorted: Seq<i32>|
                                crate::ordering::strictly_sorted(sorted) && sorted.to_set() == transition@.rows_deleted.to_set()
                                && #[trigger] crate::adjust::shifted_rows(sorted) == rows@;
                            lemma_sorted_no_dups(sorted);
                            sorted.unique_seq_to_set();
                        }
                        let count = rows.len();
                        let score = score_for_clear(count, self.last_clear_was_tetris);
                        self.last_clear_was_tetris = count == 4;
                        self.update_score(score);
                    },
                    None => {},
                }
                proof { assert(DriverCore::finish_result(old(self).driver_core, mid, t0, r0)); }
                new_transition
            },
            RuleVariant::Cascade | RuleVariant::Sticky => {
                match cleared_rows {
                    Some(rows) => {
                        let ghost rv = rows@;
                        let falls = calculate_sticky_falls_from_rows(self.driver_core.core.get_board(), rows);
                        let ghost fv = falls@;
                        if falls.len() > 0 {
                            new_transition.add_points_falling(falls);
                        } else {
                            assert(new_transition@.points_falling + fv =~= new_transition@.points_falling);
                        }
                        proof {
                            assert(resolved_falls(&mid.core.spec_board(), rv, fv));
                            assert(new_transition@ == with_falls(r0.2@, fv));
                        }
                    },
                    None => {},
                }
                proof { assert(DriverCore::finish_result(old(self).driver_core, mid, t0, r0)); }
                new_transition
            },
            RuleVariant::Fusion => {
                match cleared_points {
                    Some(points) => {
                        let mut rows: Vec<i32> = Vec::new();
                        let mut i: usize = 0;
                        while i < points.len()
                            invariant
                                i <= points.len(),
                                rows@ == point_rows(points@).subrange(0, i as int),
                            decreases points.len() - i,
                        {
                            rows.push(points[i].1);
                            i += 1;
                            assert(rows@ =~= point_rows(points@).subrange(0, i as int));
                        }
                        assert(rows@ =~= point_rows(points@));
                        let rows = sorted_dedup(&rows);
                        let ghost rv = rows@;
                        let falls = calculate_sticky_falls_from_rows(self.driver_core.core.get_board(), rows);
                        let ghost fv = falls@;
                        new_transition.add_points_falling(falls);
                        proof {
                            assert(resolved_falls(&mid.core.spec_board(), rv, fv));
                            assert(new_transition@ == with_falls(r0.2@, fv));
                        }
                    },
                    None => {},
                }
                proof { assert(DriverCore::finish_result(old(self).driver_core, mid, t0, r0)); }
                self.extract_fusion_points(new_transition)
            },
        }
    }

    /// Finishes `transition` and each transition that follows from it, until one changes
    /// nothing or `limit` steps were taken. Returns the transition left unfinished, which is
    /// inert unless the limit was reached, and the number of steps taken; every step is a
    /// `finish_transition` of a transition that changed something.
    pub fn settle(&mut self, transition: BoardTransition, limit: usize) -> (r: (BoardTransition, usize))
        requires
            old(self).wf(),
        ensures
            final(self).wf(),
            r.1 <= limit,
            r.1 < limit ==> r.0@.inert(),
            exists|ds: Seq<Driver>, ts: Seq<TransitionView>| #[trigger] finishing_chain(ds, ts, r.1 as int)
                && ds[0] == *old(self) && ds[r.1 as int] == *final(self) && ts[0] == transition@ && ts[r.1 as int] == r.0@,
    {
        let mut t = transition;
        let mut steps: usize = 0;
        let ghost mut ds: Seq<Driver> = seq![*self];
        let ghost mut ts: Seq<TransitionView> = seq![t@];
        while steps < limit && !t.is_inert()
            invariant
                self.wf(),
                steps <= limit,
                finishing_chain(ds, ts, steps as int),
                ds[0] == *old(self),
                ts[0] == transition@,
                ds[steps as int] == *self,
                ts[steps as int] == t@,
            decreases limit - steps,
        {
            let ghost before = *self;
            let ghost tv = t@;
            t = self.finish_transition(t);
            proof {
                let ds2 = ds.push(*self);
                let ts2 = ts.push(t@);
                assert forall|i: int| 0 <= i < steps + 1 implies !(#[trigger] ts2[i]).inert()
                    && Driver::finished(ds2[i], ds2[i + 1], ts2[i], ts2[i + 1]) by {
                    if i < steps {
                        assert(ds2[i] == ds[i] && ds2[i + 1] == ds[i + 1] && ts2[i] == ts[i] && ts2[i + 1] == ts[i + 1]);
                    }
                }
                ds = ds2;
                ts = ts2;
            }
            steps += 1;
        }
        let r = (t, steps);
        assert(finishing_chain(ds, ts, r.1 as int) && ds[0] == *old(self) && ds[r.1 as int] == *self && ts[0] == transition@
            && ts[r.1 as int] == r.0@);
        r
    }

    /// Reclassifies the rows a transition deletes: a row without the wildcard stays a row to
    /// delete; in a row holding it, only the other cells are deleted.
    pub fn extract_fusion_points(&self, transition: BoardTransition) -> (r: BoardTransition)
        requires
            self.wf(),
        ensures
            ({
                let split = fusion_split(&self.driver_core.core.spec_board(), transition@.rows_deleted, transition@.rows_deleted.len() as int);
                r@ == TransitionView {
                    rows_deleted: split.0,
                    points_deleted: transition@.points_deleted + split.1,
                    ..transition@
                }
            }),
    {
        let board = self.driver_core.core.get_board();
        let mut transition = transition;
        let ghost given = transition@;
        match transition.take_rows_deleted() {
            Some(rows) => {
                let w = board.get_width();
                proof { board.lemma_dims(); }
                let mut deleted_rows: Vec<i32> = Vec::new();
                let mut deleted_points: Vec<Point> = Vec::new();
                let mut i: usize = 0;
                while i < rows.len()
                    invariant
                        board.wf(),
                        w == board.spec_width(),
                        w <= crate::board::MAX_DIM,
                        i <= rows.len(),
                        (deleted_rows@, deleted_points@) == fusion_split(board, rows@, i as int),
                    decreases rows.len() - i,
                {
                    let row = rows[i];
                    let mut non_fusion_points: Vec<Point> = Vec::new();
                    let mut x: usize = 0;
                    while x < w
                        invariant
                            board.wf(),
                            w == board.spec_width(),
                            w <= crate::board::MAX_DIM,
                            x <= w,
                            non_fusion_points@ == non_wildcard_cells(board, row as int, x as int),
                            non_fusion_points@.len() <= x,
                            non_fusion_points@.len() == x <==> forall|k: int| 0 <= k < x ==> #[trigger] board.cells().contains_key((k, row as int))
                                && board.cells()[(k, row as int)] != FUSION_TETRIMINO_INDEX as u32,
                        decreases w - x,
                    {
                        let point = Point(x as i32, row);
                        match board.value_at(point) {
                            Some(v) => {
                                if v != FUSION_TETRIMINO_INDEX as u32 {
                                    non_fusion_points.push(point);
                                }
                            },
                            None => {},
                        }
                        x += 1;
                    }
                    let ghost before = (deleted_rows@, deleted_points@);
                    let ghost cells = non_fusion_points@;
                    assert(non_fusion_points@.len() == w <==> row_without_wildcard(board, row as int));
                    if non_fusion_points.len() == w {
                        deleted_rows.push(row);
                    } else {
                        let mut nf = non_fusion_points;
                        deleted_points.append(&mut nf);
                    }
                    proof {
                        let next = fusion_split(board, rows@, i as int + 1);
                        assert(rows@[i as int] == row);
                        if row_without_wildcard(board, row as int) {
                            assert(next == (before.0.push(row), before.1));
                        } else {
                            assert(next == (before.0, before.1 + cells));
                        }
                    }
                    i += 1;
                }
                transition.add_points_deleted(deleted_points);
                transition.add_rows_deleted(deleted_rows);
                proof {
                    assert(transition@.rows_deleted =~= fusion_split(board, given.rows_deleted, given.rows_deleted.len() as int).0);
                }
            },
            None => {
                proof {
                    assert(given.rows_deleted =~= Seq::<i32>::empty());
                    assert(transition@.points_deleted + Seq::<Point>::empty() =~= transition@.points_deleted);
                }
            },
        }
        transition
    }
}

proof fn lemma_sorted_no_dups(s: Seq<i32>)
    requires
        crate::ordering::strictly_sorted(s),
    ensures
        s.no_duplicates(),
{
    assert forall|i: int, j: int| 0 <= i < s.len() && 0 <= j < s.len() && i != j implies s[i] != s[j] by {
        if i < j {
            assert(s[i] < s[j]);
        } else {
            assert(s[j] < s[i]);
        }
    }
}

} // verus!
