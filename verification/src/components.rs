//! Per-cell data: the two-valued cell state and the 2D grid coordinate.

use vstd::prelude::*;

verus! {

/// State of one grid cell.
#[allow(non_camel_case_types)]
#[derive(Debug, Clone, Copy, PartialEq, Eq, Structural)]
pub enum CellState {
    DEAD,
    ALIVE,
}

/// The opposite cell state: `ALIVE` becomes `DEAD` and vice versa.
pub open spec fn flip(s: CellState) -> CellState {
    match s {
        CellState::DEAD => CellState::ALIVE,
        CellState::ALIVE => CellState::DEAD,
    }
}

/// An integer clamped into the `usize` range.
pub open spec fn clamp_to_usize(v: int) -> int {
    if v < 0 {
        0
    } else if v > usize::MAX {
        usize::MAX as int
    } else {
        v
    }
}

/// A non-negative 2D grid index. Identity is by value: two coordinates with
/// equal `x` and `y` denote the same cell.
#[derive(Debug, Clone, Copy, PartialEq, Eq, Hash, Structural)]
pub struct Coordinate {
    pub x: usize,
    pub y: usize,
}

impl Coordinate {
    /// Component-wise addition of two coordinates.
    pub fn add(self, rhs: Coordinate) -> (r: Coordinate)
        requires
            self.x + rhs.x <= usize::MAX,
            self.y + rhs.y <= usize::MAX,
        ensures
            r.x == self.x + rhs.x,
            r.y == self.y + rhs.y,
    {
        Coordinate { x: self.x + rhs.x, y: self.y + rhs.y }
    }

    /// Component-wise saturating subtraction: a component that would go
    /// below zero is clamped to zero instead of wrapping around.
    pub fn sub(self, rhs: Coordinate) -> (r: Coordinate)
        ensures
            r.x == clamp_to_usize(self.x - rhs.x),
            r.y == clamp_to_usize(self.y - rhs.y),
    {
        Coordinate { x: self.x.saturating_sub(rhs.x), y: self.y.saturating_sub(rhs.y) }
    }

    /// Addition of a signed offset, saturating at the `usize` range instead
    /// of wrapping. Used for neighbor lookups; note that a clamped result is
    /// not a true neighbor and must be filtered by the caller.
    pub fn offset(self, dx: i8, dy: i8) -> (r: Coordinate)
        ensures
            r.x == clamp_to_usize(self.x + dx),
            r.y == clamp_to_usize(self.y + dy),
    {
        let x = if dx >= 0 {
            self.x.saturating_add(dx as usize)
        } else {
            self.x.saturating_sub((-(dx as i64)) as usize)
        };
        let y = if dy >= 0 {
            self.y.saturating_add(dy as usize)
        } else {
            self.y.saturating_sub((-(dy as i64)) as usize)
        };
        Coordinate { x, y }
    }
}

} // verus!
