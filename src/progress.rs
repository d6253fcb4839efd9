use vstd::prelude::*;

use crate::transition::BoardTransition;

verus! {

pub const POINTS_DELETED_DURATION: usize = 10;

pub const ROWS_DELETED_DURATION: usize = 10;

pub const POINTS_FALLING_DURATION: usize = 10;

pub const POINTS_ADDED_DURATION: usize = 0;

pub open spec fn max4(a: usize, b: usize, c: usize, d: usize) -> usize {
    let ab = if a >= b { a } else { b };
    let cd = if c >= d { c } else { d };
    if ab >= cd { ab } else { cd }
}

/// How far the animation of a transition has run: a duration in frames for each kind of
/// change, and the frames elapsed. It is complete once the longest duration has passed.
#[derive(Clone, Copy, Debug)]
pub struct BoardTransitionsProgress {
    pub points_deleted_total: usize,
    pub rows_deleted_total: usize,
    pub points_falling_total: usize,
    pub points_added_total: usize,
    pub longest_total: usize,
    pub elapsed: usize,
}

impl BoardTransitionsProgress {
    /// The longest duration is the largest of the four.
    pub open spec fn wf(&self) -> bool {
        self.longest_total == max4(self.points_deleted_total, self.rows_deleted_total, self.points_falling_total, self.points_added_total)
    }

    /// The default durations, nothing elapsed.
    pub fn new() -> (r: BoardTransitionsProgress)
        ensures
            r.wf(),
            r.points_deleted_total == POINTS_DELETED_DURATION,
            r.rows_deleted_total == ROWS_DELETED_DURATION,
            r.points_falling_total == POINTS_FALLING_DURATION,
            r.points_added_total == POINTS_ADDED_DURATION,
            r.elapsed == 0,
    {
        BoardTransitionsProgress {
            points_deleted_total: POINTS_DELETED_DURATION,
            rows_deleted_total: ROWS_DELETED_DURATION,
            points_falling_total: POINTS_FALLING_DURATION,
            points_added_total: POINTS_ADDED_DURATION,
            longest_total: 10,
            elapsed: 0,
        }
    }

    fn with_recalculated_longest(self) -> (r: BoardTransitionsProgress)
        ensures
            r.wf(),
            r.points_deleted_total == self.points_deleted_total,
            r.rows_deleted_total == self.rows_deleted_total,
            r.points_falling_total == self.points_falling_total,
            r.points_added_total == self.points_added_total,
            r.elapsed == self.elapsed,
    {
        let mut s = self;
        let ab = if s.points_deleted_total >= s.rows_deleted_total { s.points_deleted_total } else { s.rows_deleted_total };
        let cd = if s.points_falling_total >= s.points_added_total { s.points_falling_total } else { s.points_added_total };
        s.longest_total = if ab >= cd { ab } else { cd };
        s
    }

    /// Sets to zero the duration of each kind of change the transition does not make.
    pub fn with_board_transition(self, board_transition: &BoardTransition) -> (r: BoardTransitionsProgress)
        ensures
            r.wf(),
            r.points_added_total == if board_transition@.points_added.len() == 0 { 0 } else { self.points_added_total },
            r.points_deleted_total == if board_transition@.points_deleted.len() == 0 { 0 } else { self.points_deleted_total },
            r.points_falling_total == if board_transition@.points_falling.len() == 0 { 0 } else { self.points_falling_total },
            r.rows_deleted_total == if board_transition@.rows_deleted.len() == 0 { 0 } else { self.rows_deleted_total },
            r.elapsed == self.elapsed,
    {
        let mut s = self;
        if board_transition.get_points_added().is_none() {
            s.points_added_total = 0;
        }
        if board_transition.get_points_deleted().is_none() {
            s.points_deleted_total = 0;
        }
        if board_transition.get_points_falling().is_none() {
            s.points_falling_total = 0;
        }
        if board_transition.get_rows_deleted().is_none() {
            s.rows_deleted_total = 0;
        }
        s.with_recalculated_longest()
    }

    pub fn with_points_deleted_total(self, points_deleted_total: usize) -> (r: BoardTransitionsProgress)
        ensures
            r.wf(),
            r == (BoardTransitionsProgress { points_deleted_total, longest_total: r.longest_total, ..self }),
    {
        let mut s = self;
        s.points_deleted_total = points_deleted_total;
        s.with_recalculated_longest()
    }

    pub fn with_rows_deleted_total(self, rows_deleted_total: usize) -> (r: BoardTransitionsProgress)
        ensures
            r.wf(),
            r == (BoardTransitionsProgress { rows_deleted_total, longest_total: r.longest_total, ..self }),
    {
        let mut s = self;
        s.rows_deleted_total = rows_deleted_total;
        s.with_recalculated_longest()
    }

    pub fn with_points_falling_total(self, points_falling_total: usize) -> (r: BoardTransitionsProgress)
        ensures
            r.wf(),
            r == (BoardTransitionsProgress { points_falling_total, longest_total: r.longest_total, ..self }),
    {
        let mut s = self;
        s.points_falling_total = points_falling_total;
        s.with_recalculated_longest()
    }

    pub fn with_points_added_total(self, points_added_total: usize) -> (r: BoardTransitionsProgress)
        ensures
            r.wf(),
            r == (BoardTransitionsProgress { points_added_total, longest_total: r.longest_total, ..self }),
    {
        let mut s = self;
        s.points_added_total = points_added_total;
        s.with_recalculated_longest()
    }

    /// Counts one more frame (saturating).
    pub fn next_frame(&mut self)
        ensures
            final(self).elapsed == if old(self).elapsed < usize::MAX { old(self).elapsed + 1 } else { usize::MAX as int },
            *final(self) == (BoardTransitionsProgress { elapsed: final(self).elapsed, ..*old(self) }),
    {
        if self.elapsed < usize::MAX {
            self.elapsed += 1;
        }
    }

    /// Whether every kind of change has run its full duration.
    pub fn is_complete(&self) -> (r: bool)
        ensures
            r == (self.elapsed > self.longest_total),
    {
        self.elapsed > self.longest_total
    }
}

} // verus!
