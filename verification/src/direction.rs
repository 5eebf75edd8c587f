//! Headings of the snake and the step that each of them produces.

use vstd::prelude::*;

verus! {

/// The four headings that the snake can be given.
#[derive(Debug, Clone, Copy, PartialEq, Eq, Structural)]
pub enum Direction {
    Up,
    Down,
    Left,
    Right,
}

impl Direction {
    /// The heading that points the other way: `Up` and `Down` are a pair,
    /// `Left` and `Right` are a pair.
    pub open spec fn opposite(self) -> Direction {
        match self {
            Direction::Up => Direction::Down,
            Direction::Down => Direction::Up,
            Direction::Right => Direction::Left,
            Direction::Left => Direction::Right,
        }
    }

    /// The change `(dx, dy)` that one tick applies to the head.
    ///
    /// The snake travels along its row only: `Up` and `Left` both step to the
    /// next smaller `x`, `Down` and `Right` both step to the next larger `x`,
    /// and no heading changes `y`.
    pub open spec fn step(self) -> (int, int) {
        match self {
            Direction::Up => (-1, 0),
            Direction::Down => (1, 0),
            Direction::Left => (-1, 0),
            Direction::Right => (1, 0),
        }
    }

    /// Computes [`Direction::step`].
    pub fn delta(&self) -> (d: (i32, i32))
        ensures
            (d.0 as int, d.1 as int) == self.step(),
    {
        match self {
            Direction::Up => (-1, 0),
            Direction::Down => (1, 0),
            Direction::Left => (-1, 0),
            Direction::Right => (1, 0),
        }
    }
}

/// Computes [`Direction::opposite`].
pub fn get_opposite_direction(direction: &Direction) -> (opposite: Direction)
    ensures
        opposite == direction.opposite(),
{
    match direction {
        Direction::Up => Direction::Down,
        Direction::Down => Direction::Up,
        Direction::Right => Direction::Left,
        Direction::Left => Direction::Right,
    }
}

} // verus!
