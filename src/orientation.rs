use vstd::prelude::*;

verus! {

/// The four orientations of a piece, in clockwise order.
#[derive(Clone, Copy, PartialEq, Eq, Structural, Debug)]
pub enum Orientation {
    /// 0 degrees
    Origin,
    /// 90 degrees clockwise
    Right,
    /// 180 degrees
    Around,
    /// 90 degrees counter-clockwise
    Left,
}

/// A direction of rotation.
#[derive(Clone, Copy, PartialEq, Eq, Structural, Debug)]
pub enum Direction {
    Clockwise,
    CounterClockwise,
}

pub const ORIENTATION_COUNT: usize = 4;

pub const DIRECTION_COUNT: usize = 2;

impl Orientation {
    /// Position of the orientation in clockwise order, starting at `Origin`.
    pub open spec fn spec_index(self) -> int {
        match self {
            Orientation::Origin => 0,
            Orientation::Right => 1,
            Orientation::Around => 2,
            Orientation::Left => 3,
        }
    }

    pub fn index(self) -> (r: usize)
        ensures
            r == self.spec_index(),
            r < ORIENTATION_COUNT,
    {
        match self {
            Orientation::Origin => 0,
            Orientation::Right => 1,
            Orientation::Around => 2,
            Orientation::Left => 3,
        }
    }

    /// The orientation whose index is `orientation` modulo four.
    pub fn from(orientation: u64) -> (r: Orientation)
        ensures
            r.spec_index() == orientation % 4,
    {
        let m = orientation % 4;
        if m == 0 {
            Orientation::Origin
        } else if m == 1 {
            Orientation::Right
        } else if m == 2 {
            Orientation::Around
        } else {
            Orientation::Left
        }
    }

    pub fn rotated_clockwise(self) -> (r: Orientation)
        ensures
            r.spec_index() == (self.spec_index() + 1) % 4,
    {
        Self::from(self.index() as u64 + 1)
    }

    pub fn rotated_counter_clockwise(self) -> (r: Orientation)
        ensures
            r.spec_index() == (self.spec_index() + 3) % 4,
    {
        Self::from(self.index() as u64 + ORIENTATION_COUNT as u64 - 1)
    }

    pub open spec fn spec_rotated(self, direction: Direction) -> Orientation {
        let k = match direction {
            Direction::Clockwise => (self.spec_index() + 1) % 4,
            Direction::CounterClockwise => (self.spec_index() + 3) % 4,
        };
        if k == 0 {
            Orientation::Origin
        } else if k == 1 {
            Orientation::Right
        } else if k == 2 {
            Orientation::Around
        } else {
            Orientation::Left
        }
    }

    pub fn rotated(self, direction: Direction) -> (r: Orientation)
        ensures
            r == self.spec_rotated(direction),
    {
        match direction {
            Direction::Clockwise => self.rotated_clockwise(),
            Direction::CounterClockwise => self.rotated_counter_clockwise(),
        }
    }
}

impl Direction {
    pub open spec fn spec_index(self) -> int {
        match self {
            Direction::Clockwise => 0,
            Direction::CounterClockwise => 1,
        }
    }

    pub fn index(self) -> (r: usize)
        ensures
            r == self.spec_index(),
            r < DIRECTION_COUNT,
    {
        match self {
            Direction::Clockwise => 0,
            Direction::CounterClockwise => 1,
        }
    }
}

} // verus!
