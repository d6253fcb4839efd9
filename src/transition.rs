use vstd::prelude::*;

use crate::ordering::{lemma_concat_set_commutes, lemma_sorted_unique, sorted_dedup, strictly_sorted};
use crate::point::Point;

verus! {

/// A pending change to a board: points removed, rows removed, points falling by a
/// distance, and points newly added.
pub struct BoardTransition {
    points_deleted: Vec<Point>,
    rows_deleted: Vec<i32>,
    points_falling: Vec<(Point, i32)>,
    points_added: Vec<Point>,
}

/// The content of a transition.
pub struct TransitionView {
    pub points_deleted: Seq<Point>,
    pub rows_deleted: Seq<i32>,
    pub points_falling: Seq<(Point, i32)>,
    pub points_added: Seq<Point>,
}

impl View for BoardTransition {
    type V = TransitionView;

    closed spec fn view(&self) -> TransitionView {
        TransitionView {
            points_deleted: self.points_deleted@,
            rows_deleted: self.rows_deleted@,
            points_falling: self.points_falling@,
            points_added: self.points_added@,
        }
    }
}

impl TransitionView {
    pub open spec fn inert(self) -> bool {
        &&& self.points_deleted.len() == 0
        &&& self.rows_deleted.len() == 0
        &&& self.points_falling.len() == 0
        &&& self.points_added.len() == 0
    }

    /// Every collection is in canonical order without repeats.
    pub open spec fn compressed(self) -> bool {
        &&& strictly_sorted(self.points_added)
        &&& strictly_sorted(self.points_deleted)
        &&& strictly_sorted(self.rows_deleted)
        &&& strictly_sorted(self.points_falling)
    }

    /// The two transitions hold the same entries, order and repeats aside.
    pub open spec fn same_entries(self, other: TransitionView) -> bool {
        &&& self.points_deleted.to_set() == other.points_deleted.to_set()
        &&& self.rows_deleted.to_set() == other.rows_deleted.to_set()
        &&& self.points_falling.to_set() == other.points_falling.to_set()
        &&& self.points_added.to_set() == other.points_added.to_set()
    }

    /// The two transitions concatenated, kind by kind.
    pub open spec fn merged(self, other: TransitionView) -> TransitionView {
        TransitionView {
            points_deleted: self.points_deleted + other.points_deleted,
            rows_deleted: self.rows_deleted + other.rows_deleted,
            points_falling: self.points_falling + other.points_falling,
            points_added: self.points_added + other.points_added,
        }
    }
}

impl BoardTransition {
    pub fn new() -> (r: BoardTransition)
        ensures
            r@.inert(),
            r@.points_deleted == Seq::<Point>::empty(),
            r@.rows_deleted == Seq::<i32>::empty(),
            r@.points_falling == Seq::<(Point, i32)>::empty(),
            r@.points_added == Seq::<Point>::empty(),
    {
        BoardTransition {
            points_deleted: Vec::new(),
            rows_deleted: Vec::new(),
            points_falling: Vec::new(),
            points_added: Vec::new(),
        }
    }

    pub fn add_points_deleted(&mut self, points_deleted: Vec<Point>)
        ensures
            final(self)@ == (TransitionView { points_deleted: old(self)@.points_deleted + points_deleted@, ..old(self)@ }),
    {
        let mut p = points_deleted;
        self.points_deleted.append(&mut p);
    }

    pub fn add_rows_deleted(&mut self, rows_deleted: Vec<i32>)
        ensures
            final(self)@ == (TransitionView { rows_deleted: old(self)@.rows_deleted + rows_deleted@, ..old(self)@ }),
    {
        let mut r = rows_deleted;
        self.rows_deleted.append(&mut r);
    }

    pub fn add_points_falling(&mut self, points_falling: Vec<(Point, i32)>)
        ensures
            final(self)@ == (TransitionView { points_falling: old(self)@.points_falling + points_falling@, ..old(self)@ }),
    {
        let mut p = points_falling;
        self.points_falling.append(&mut p);
    }

    pub fn add_points_added(&mut self, points_added: Vec<Point>)
        ensures
            final(self)@ == (TransitionView { points_added: old(self)@.points_added + points_added@, ..old(self)@ }),
    {
        let mut p = points_added;
        self.points_added.append(&mut p);
    }

    /// Appends every collection of `transition` to the matching one of this transition.
    pub fn add_from_transition(&mut self, transition: BoardTransition)
        ensures
            final(self)@ == old(self)@.merged(transition@),
    {
        let mut t = transition;
        self.points_deleted.append(&mut t.points_deleted);
        self.rows_deleted.append(&mut t.rows_deleted);
        self.points_falling.append(&mut t.points_falling);
        self.points_added.append(&mut t.points_added);
    }

    pub fn with_points_deleted(self, points_deleted: Vec<Point>) -> (r: BoardTransition)
        ensures
            r@ == (TransitionView { points_deleted: points_deleted@, ..self@ }),
    {
        let mut s = self;
        s.points_deleted = points_deleted;
        s
    }

    pub fn with_rows_deleted(self, rows_deleted: Vec<i32>) -> (r: BoardTransition)
        ensures
            r@ == (TransitionView { rows_deleted: rows_deleted@, ..self@ }),
    {
        let mut s = self;
        s.rows_deleted = rows_deleted;
        s
    }

    pub fn with_points_falling(self, points_falling: Vec<(Point, i32)>) -> (r: BoardTransition)
        ensures
            r@ == (TransitionView { points_falling: points_falling@, ..self@ }),
    {
        let mut s = self;
        s.points_falling = points_falling;
        s
    }

    pub fn with_points_added(self, points_added: Vec<Point>) -> (r: BoardTransition)
        ensures
            r@ == (TransitionView { points_added: points_added@, ..self@ }),
    {
        let mut s = self;
        s.points_added = points_added;
        s
    }

    /// Puts every collection in canonical order (points by row then column; falling points
    /// by row, distance, then column), each entry once.
    pub fn compress(&mut self)
        ensures
            final(self)@.compressed(),
            final(self)@.same_entries(old(self)@),
    {
        self.points_added = sorted_dedup(&self.points_added);
        self.points_deleted = sorted_dedup(&self.points_deleted);
        self.rows_deleted = sorted_dedup(&self.rows_deleted);
        self.points_falling = sorted_dedup(&self.points_falling);
    }

    pub fn get_points_deleted(&self) -> (r: Option<&Vec<Point>>)
        ensures
            r is None <==> self@.points_deleted.len() == 0,
            r is Some ==> r->Some_0@ == self@.points_deleted,
    {
        if self.points_deleted.len() == 0 {
            None
        } else {
            Some(&self.points_deleted)
        }
    }

    pub fn get_rows_deleted(&self) -> (r: Option<&Vec<i32>>)
        ensures
            r is None <==> self@.rows_deleted.len() == 0,
            r is Some ==> r->Some_0@ == self@.rows_deleted,
    {
        if self.rows_deleted.len() == 0 {
            None
        } else {
            Some(&self.rows_deleted)
        }
    }

    pub fn get_points_falling(&self) -> (r: Option<&Vec<(Point, i32)>>)
        ensures
            r is None <==> self@.points_falling.len() == 0,
            r is Some ==> r->Some_0@ == self@.points_falling,
    {
        if self.points_falling.len() == 0 {
            None
        } else {
            Some(&self.points_falling)
        }
    }

    pub fn get_points_added(&self) -> (r: Option<&Vec<Point>>)
        ensures
            r is None <==> self@.points_added.len() == 0,
            r is Some ==> r->Some_0@ == self@.points_added,
    {
        if self.points_added.len() == 0 {
            None
        } else {
            Some(&self.points_added)
        }
    }

    pub fn take_points_deleted(&mut self) -> (r: Option<Vec<Point>>)
        ensures
            r is None <==> old(self)@.points_deleted.len() == 0,
            r is Some ==> r->Some_0@ == old(self)@.points_deleted,
            final(self)@ == (TransitionView { points_deleted: Seq::empty(), ..old(self)@ }),
    {
        if self.points_deleted.len() == 0 {
            proof { assert(self.points_deleted@ =~= Seq::<Point>::empty()); }
            None
        } else {
            let mut taken = Vec::new();
            std::mem::swap(&mut self.points_deleted, &mut taken);
            Some(taken)
        }
    }

    pub fn take_rows_deleted(&mut self) -> (r: Option<Vec<i32>>)
        ensures
            r is None <==> old(self)@.rows_deleted.len() == 0,
            r is Some ==> r->Some_0@ == old(self)@.rows_deleted,
            final(self)@ == (TransitionView { rows_deleted: Seq::empty(), ..old(self)@ }),
    {
        if self.rows_deleted.len() == 0 {
            proof { assert(self.rows_deleted@ =~= Seq::<i32>::empty()); }
            None
        } else {
            let mut taken = Vec::new();
            std::mem::swap(&mut self.rows_deleted, &mut taken);
            Some(taken)
        }
    }

    pub fn take_points_falling(&mut self) -> (r: Option<Vec<(Point, i32)>>)
        ensures
            r is None <==> old(self)@.points_falling.len() == 0,
            r is Some ==> r->Some_0@ == old(self)@.points_falling,
            final(self)@ == (TransitionView { points_falling: Seq::empty(), ..old(self)@ }),
    {
        if self.points_falling.len() == 0 {
            proof { assert(self.points_falling@ =~= Seq::<(Point, i32)>::empty()); }
            None
        } else {
            let mut taken = Vec::new();
            std::mem::swap(&mut self.points_falling, &mut taken);
            Some(taken)
        }
    }

    /// Whether the transition changes nothing.
    pub fn is_inert(&self) -> (r: bool)
        ensures
            r == self@.inert(),
    {
        self.points_deleted.len() == 0 && self.points_falling.len() == 0 && self.points_added.len() == 0
            && self.rows_deleted.len() == 0
    }
}

/// Compressing is idempotent: a compressed transition that compresses to `t2` equals `t2`
/// in every collection.
pub proof fn lemma_compress_idempotent(t1: TransitionView, t2: TransitionView)
    requires
        t1.compressed(),
        t2.compressed(),
        t2.same_entries(t1),
    ensures
        t2 == t1,
{
    lemma_sorted_unique(t1.points_added, t2.points_added);
    lemma_sorted_unique(t1.points_deleted, t2.points_deleted);
    lemma_sorted_unique(t1.rows_deleted, t2.rows_deleted);
    lemma_sorted_unique(t1.points_falling, t2.points_falling);
}

/// Merging then compressing does not depend on the order of the merge: every collection
/// comes out identical.
pub proof fn lemma_compress_order_independent(
    a: TransitionView,
    b: TransitionView,
    ab: TransitionView,
    ba: TransitionView,
)
    requires
        ab.compressed(),
        ba.compressed(),
        ab.same_entries(a.merged(b)),
        ba.same_entries(b.merged(a)),
    ensures
        ab.points_deleted == ba.points_deleted,
        ab.rows_deleted == ba.rows_deleted,
        ab.points_falling == ba.points_falling,
        ab.points_added == ba.points_added,
{
    lemma_concat_set_commutes(a.points_added, b.points_added);
    lemma_sorted_unique(ab.points_added, ba.points_added);
    lemma_concat_set_commutes(a.points_deleted, b.points_deleted);
    lemma_concat_set_commutes(a.rows_deleted, b.rows_deleted);
    lemma_concat_set_commutes(a.points_falling, b.points_falling);
    lemma_sorted_unique(ab.points_deleted, ba.points_deleted);
    lemma_sorted_unique(ab.rows_deleted, ba.rows_deleted);
    lemma_sorted_unique(ab.points_falling, ba.points_falling);
}

} // verus!
