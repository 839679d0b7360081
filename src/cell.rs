//! Grid cells and the eight scan directions.
use vstd::prelude::*;

verus! {

/// One square of the grid: `occupant == 0` when empty, `p + 1` when it holds
/// a piece of player `p`.
#[derive(Clone, Copy, Debug, PartialEq, Eq, Structural)]
pub struct Cell {
    pub occupant: u32,
}

impl Cell {
    pub fn new() -> (r: Cell)
        ensures
            r.occupant == 0,
    {
        Cell { occupant: 0 }
    }

    pub fn is_empty(&self) -> (r: bool)
        ensures
            r == (self.occupant == 0),
    {
        self.occupant == 0
    }

    /// Gives the cell to player `player` (0-based).
    pub fn occupy(&mut self, player: u32)
        requires
            player < u32::MAX,
        ensures
            final(self).occupant == player + 1,
    {
        self.occupant = player + 1;
    }
}

/// A unit step on the grid; `y` grows upwards.
#[derive(Clone, Copy, Debug, PartialEq, Eq, Structural)]
pub enum Direction {
    Left,
    TopLeft,
    Top,
    TopRight,
    Right,
    DownRight,
    Down,
    DownLeft,
}

impl Direction {
    /// The step `(dx, dy)` of the direction.
    pub open spec fn delta(self) -> (int, int) {
        match self {
            Direction::Left => (-1, 0),
            Direction::TopLeft => (-1, 1),
            Direction::Top => (0, 1),
            Direction::TopRight => (1, 1),
            Direction::Right => (1, 0),
            Direction::DownRight => (1, -1),
            Direction::Down => (0, -1),
            Direction::DownLeft => (-1, -1),
        }
    }

    /// The direction pointing the other way.
    pub open spec fn opposite(self) -> Direction {
        match self {
            Direction::Left => Direction::Right,
            Direction::TopLeft => Direction::DownRight,
            Direction::Top => Direction::Down,
            Direction::TopRight => Direction::DownLeft,
            Direction::Right => Direction::Left,
            Direction::DownRight => Direction::TopLeft,
            Direction::Down => Direction::Top,
            Direction::DownLeft => Direction::TopRight,
        }
    }

    pub fn to_tuple(&self) -> (r: (i64, i64))
        ensures
            r.0 as int == self.delta().0,
            r.1 as int == self.delta().1,
    {
        match self {
            Direction::Left => (-1, 0),
            Direction::TopLeft => (-1, 1),
            Direction::Top => (0, 1),
            Direction::TopRight => (1, 1),
            Direction::Right => (1, 0),
            Direction::DownRight => (1, -1),
            Direction::Down => (0, -1),
            Direction::DownLeft => (-1, -1),
        }
    }
}

} // verus!
