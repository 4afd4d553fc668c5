use vstd::prelude::*;

verus! {

/// One of the four moves on the grid; `y` grows downward.
#[derive(Debug, Clone, Copy, PartialEq, Eq, Structural)]
pub enum Direction {
    Up,
    Right,
    Down,
    Left,
}

impl Direction {
    /// The direction that reverses this one.
    pub open spec fn opposite(self) -> Direction {
        match self {
            Direction::Up => Direction::Down,
            Direction::Right => Direction::Left,
            Direction::Down => Direction::Up,
            Direction::Left => Direction::Right,
        }
    }

    /// Whether a request for `requested` is dropped while `self` is in effect:
    /// it repeats the current direction or reverses it.
    pub open spec fn rejects(self, requested: Direction) -> bool {
        requested == self || requested == self.opposite()
    }

    /// Executable form of [`Direction::rejects`].
    pub fn is_redundant_or_reversal(self, requested: Direction) -> (r: bool)
        ensures
            r == self.rejects(requested),
    {
        match (self, requested) {
            (Direction::Up, Direction::Up)
            | (Direction::Up, Direction::Down)
            | (Direction::Right, Direction::Right)
            | (Direction::Right, Direction::Left)
            | (Direction::Down, Direction::Up)
            | (Direction::Down, Direction::Down)
            | (Direction::Left, Direction::Right)
            | (Direction::Left, Direction::Left) => true,
            _ => false,
        }
    }
}

} // verus!
