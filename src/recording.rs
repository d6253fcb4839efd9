use vstd::prelude::*;

use crate::game_core::GameCore;
use crate::driver_core::DriverCore;
use crate::orientation::Direction;
use crate::point::Point;
use crate::rules::Driver;
use crate::transition::{BoardTransition, TransitionView};

verus! {

/// A player action, as recorded for replay.
#[derive(Clone, Copy, PartialEq, Eq, Structural, Debug)]
pub enum Action {
    TranslateLeft,
    TranslateRight,
    RotateClockwise,
    RotateCounterClockwise,
    Hold,
    Fastfall,
    Fall,
}

/// What performing `action` does: as the driver method of that name.
pub open spec fn action_result(old: Driver, new: Driver, action: Action, r: TransitionView) -> bool {
    match action {
        Action::TranslateLeft => r.inert() && Driver::moved_only(old, new) && exists|b: bool|
            #[trigger] GameCore::translate_result(old.driver_core.core, new.driver_core.core, Point(-1i32, 0i32), b),
        Action::TranslateRight => r.inert() && Driver::moved_only(old, new) && exists|b: bool|
            #[trigger] GameCore::translate_result(old.driver_core.core, new.driver_core.core, Point(1i32, 0i32), b),
        Action::RotateClockwise => r.inert() && Driver::moved_only(old, new) && exists|b: bool|
            #[trigger] GameCore::rotate_result(old.driver_core.core, new.driver_core.core, Direction::Clockwise, b),
        Action::RotateCounterClockwise => r.inert() && Driver::moved_only(old, new) && exists|b: bool|
            #[trigger] GameCore::rotate_result(old.driver_core.core, new.driver_core.core, Direction::CounterClockwise, b),
        Action::Hold => r.inert() && Driver::rules_kept(old, new) && DriverCore::hold_step(old.driver_core, new.driver_core),
        Action::Fastfall => Driver::fastfall_result(old, new, r),
        Action::Fall => Driver::fall_result(old, new, r),
    }
}

impl Driver {
    /// Performs `action`; a fall or fast fall returns its transition, other actions an
    /// inert one.
    pub fn apply_action(&mut self, action: Action) -> (r: BoardTransition)
        requires
            old(self).wf(),
        ensures
            final(self).wf(),
            action_result(*old(self), *final(self), action, r@),
    {
        match action {
            Action::TranslateLeft => {
                let b = self.translate_left();
                let r = BoardTransition::new();
                assert(action_result(*old(self), *self, action, r@));
                r
            },
            Action::TranslateRight => {
                let b = self.translate_right();
                let r = BoardTransition::new();
                assert(action_result(*old(self), *self, action, r@));
                r
            },
            Action::RotateClockwise => {
                let b = self.rotate_clockwise();
                let r = BoardTransition::new();
                assert(action_result(*old(self), *self, action, r@));
                r
            },
            Action::RotateCounterClockwise => {
                let b = self.rotate_counterclockwise();
                let r = BoardTransition::new();
                assert(action_result(*old(self), *self, action, r@));
                r
            },
            Action::Hold => {
                self.hold();
                BoardTransition::new()
            },
            Action::Fastfall => self.fastfall(),
            Action::Fall => self.fall(),
        }
    }
}

/// The actions of a game, each with the frame it happened in.
pub struct Recording {
    pub current_frame: usize,
    pub actions: Vec<(usize, Action)>,
}

impl Recording {
    pub fn new() -> (r: Recording)
        ensures
            r.current_frame == 0,
            r.actions@.len() == 0,
    {
        Recording { current_frame: 0, actions: Vec::new() }
    }

    /// Counts one more frame (saturating).
    pub fn next_frame(&mut self)
        ensures
            final(self).current_frame == if old(self).current_frame < usize::MAX { old(self).current_frame + 1 } else { usize::MAX as int },
            final(self).actions@ == old(self).actions@,
    {
        if self.current_frame < usize::MAX {
            self.current_frame += 1;
        }
    }

    /// Records `action` at the current frame.
    pub fn push_action(&mut self, action: Action)
        ensures
            final(self).actions@ == old(self).actions@.push((old(self).current_frame, action)),
            final(self).current_frame == old(self).current_frame,
    {
        let frame = self.current_frame;
        self.actions.push((frame, action));
    }
}

/// The actions popped from the end of `pending` until `left` remain, in the order popped.
pub open spec fn popped_actions(pending: Seq<(usize, Action)>, left: int) -> Seq<Action> {
    Seq::new((pending.len() - left) as nat, |k: int| pending[pending.len() - 1 - k].1)
}

/// `t0` merged with each of the first `n` of `ts`, in order.
pub open spec fn merged_all(t0: TransitionView, ts: Seq<TransitionView>, n: int) -> TransitionView
    decreases n,
{
    if n <= 0 {
        t0
    } else {
        merged_all(t0, ts, n - 1).merged(ts[n - 1])
    }
}

/// The driver goes from `ds[0]` through each of `acts` in turn, `ts` being their transitions.
pub open spec fn action_chain(ds: Seq<Driver>, ts: Seq<TransitionView>, acts: Seq<Action>) -> bool {
    &&& ds.len() == acts.len() + 1
    &&& ts.len() == acts.len()
    &&& forall|k: int| 0 <= k < acts.len() ==> action_result(ds[k], ds[k + 1], #[trigger] acts[k], ts[k])
}

/// Plays recorded actions back, each at its frame.
pub struct Replay {
    pub current_frame: usize,
    /// the actions still to come, the next one last
    pub pending: Vec<(usize, Action)>,
}

proof fn lemma_merged_all_prefix(t0: TransitionView, ts: Seq<TransitionView>, n: int)
    requires
        0 <= n < ts.len(),
    ensures
        merged_all(t0, ts, n) == merged_all(t0, ts.subrange(0, n), n),
    decreases n,
{
    if n > 0 {
        lemma_merged_all_prefix(t0, ts, n - 1);
        lemma_merged_all_prefix(t0, ts.subrange(0, n), n - 1);
        assert(ts.subrange(0, n).subrange(0, n - 1) =~= ts.subrange(0, n - 1));
    }
}

impl Replay {
    /// A replay of `actions`, given in the order they were recorded.
    pub fn new(actions: Vec<(usize, Action)>) -> (r: Replay)
        ensures
            r.current_frame == 0,
            r.pending@ == actions@.reverse(),
    {
        let mut pending: Vec<(usize, Action)> = Vec::new();
        let mut actions = actions;
        let ghost given = actions@;
        while actions.len() > 0
            invariant
                given.len() == actions@.len() + pending@.len(),
                actions@ == given.subrange(0, actions@.len() as int),
                pending@ == given.subrange(actions@.len() as int, given.len() as int).reverse(),
            decreases actions.len(),
        {
            let a = actions.pop().unwrap();
            pending.push(a);
            proof {
                let n = actions@.len() as int;
                assert(pending@ =~= given.subrange(n, given.len() as int).reverse());
            }
        }
        assert(given.subrange(0, given.len() as int) =~= given);
        Replay { current_frame: 0, pending }
    }

    /// Advances the game a frame, then performs every action recorded for the new frame.
    /// Returns the frame's transition merged with those of the actions.
    pub fn next_frame(&mut self, driver: &mut Driver) -> (r: BoardTransition)
        requires
            old(driver).wf(),
        ensures
            final(driver).wf(),
            final(self).current_frame == if old(self).current_frame < usize::MAX { old(self).current_frame + 1 } else { usize::MAX as int },
            final(self).pending@ == old(self).pending@.subrange(0, final(self).pending@.len() as int),
            forall|i: int|
                final(self).pending@.len() <= i < old(self).pending@.len() ==> (#[trigger] old(self).pending@[i]).0 == final(self).current_frame,
            final(self).pending@.len() > 0 ==> final(self).pending@.last().0 != final(self).current_frame,
            // the driver takes a frame, then each due action in order
            exists|mid: Driver, t0: TransitionView, ds: Seq<Driver>, ts: Seq<TransitionView>|
                #[trigger] Driver::next_frame_result(*old(driver), mid, t0)
                && #[trigger] action_chain(ds, ts, popped_actions(old(self).pending@, final(self).pending@.len() as int))
                && ds[0] == mid && ds.last() == *final(driver) && r@ == merged_all(t0, ts, ts.len() as int),
    {
        let mut transition = driver.next_frame();
        let ghost mid = *driver;
        let ghost t0 = transition@;
        let ghost mut ds: Seq<Driver> = seq![*driver];
        let ghost mut ts: Seq<TransitionView> = Seq::empty();
        if self.current_frame < usize::MAX {
            self.current_frame += 1;
        }
        let ghost start = self.pending@;
        while self.pending.len() > 0 && self.pending[self.pending.len() - 1].0 == self.current_frame
            invariant
                driver.wf(),
                self.current_frame == if old(self).current_frame < usize::MAX { old(self).current_frame + 1 } else { usize::MAX as int },
                start == old(self).pending@,
                self.pending@.len() <= start.len(),
                self.pending@ == start.subrange(0, self.pending@.len() as int),
                forall|i: int| self.pending@.len() <= i < start.len() ==> (#[trigger] start[i]).0 == self.current_frame,
                Driver::next_frame_result(*old(driver), mid, t0),
                action_chain(ds, ts, popped_actions(start, self.pending@.len() as int)),
                ds[0] == mid,
                ds.last() == *driver,
                transition@ == merged_all(t0, ts, ts.len() as int),
            decreases self.pending.len(),
        {
            let ghost before = self.pending@;
            let (_, action) = self.pending.pop().unwrap();
            proof {
                assert(self.pending@ =~= start.subrange(0, self.pending@.len() as int));
                assert(start[self.pending@.len() as int] == before.last());
            }
            let t = driver.apply_action(action);
            proof {
                let acts_old = popped_actions(start, before.len() as int);
                let acts = popped_actions(start, self.pending@.len() as int);
                assert(acts =~= acts_old.push(action));
                let ds2 = ds.push(*driver);
                let ts2 = ts.push(t@);
                assert forall|k: int| 0 <= k < acts.len() implies action_result(ds2[k], ds2[k + 1], #[trigger] acts[k], ts2[k]) by {
                    if k < acts_old.len() {
                        assert(acts[k] == acts_old[k]);
                        assert(ds2[k] == ds[k] && ds2[k + 1] == ds[k + 1] && ts2[k] == ts[k]);
                    }
                }
                assert(merged_all(t0, ts2, ts2.len() as int) == merged_all(t0, ts, ts.len() as int).merged(t@)) by {
                    assert(ts2.drop_last() =~= ts);
                    lemma_merged_all_prefix(t0, ts2, ts.len() as int);
                }
                ds = ds2;
                ts = ts2;
            }
            transition.add_from_transition(t);
        }
        proof {
            assert(popped_actions(start, self.pending@.len() as int) == popped_actions(old(self).pending@, self.pending@.len() as int));
        }
        transition
    }
}

} // verus!
