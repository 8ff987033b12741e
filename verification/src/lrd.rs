//! The directions in which a falling piece can be pushed.
use vstd::prelude::*;

verus! {

/// A sideways push.
#[derive(Clone, Copy, Debug, PartialEq, Eq, Structural)]
pub enum LR {
    Left,
    Right,
}

/// Any push of the falling piece: sideways, or one row down.
#[derive(Clone, Copy, Debug, PartialEq, Eq, Structural)]
pub enum LRD {
    Left,
    Right,
    Down,
}

impl LR {
    /// The same push, seen as one of the three directions.
    pub open spec fn lrd(self) -> LRD {
        match self {
            LR::Left => LRD::Left,
            LR::Right => LRD::Right,
        }
    }

    pub fn to_lrd(&self) -> (d: LRD)
        ensures
            d == self.lrd(),
    {
        match self {
            LR::Left => LRD::Left,
            LR::Right => LRD::Right,
        }
    }
}

impl LRD {
    /// The unit step of this direction; rows grow downwards.
    pub open spec fn step(self) -> (int, int) {
        match self {
            LRD::Left => (-1, 0),
            LRD::Right => (1, 0),
            LRD::Down => (0, 1),
        }
    }

    pub fn delta(&self) -> (d: (i32, i32))
        ensures
            (d.0 as int, d.1 as int) == self.step(),
    {
        match self {
            LRD::Left => (-1, 0),
            LRD::Right => (1, 0),
            LRD::Down => (0, 1),
        }
    }
}

} // verus!
