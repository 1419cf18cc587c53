//! Directions, grid coordinates and the mathematical points that stand for
//! them in contracts.

use vstd::prelude::*;

verus! {

/// One of the four headings a snake can take.
#[derive(Clone, Copy, Debug, PartialEq, Eq, Structural)]
pub enum Direction {
    Up,
    Down,
    Left,
    Right,
}

impl Direction {
    /// The opposite heading: `Up` and `Down` swap, and so do `Left` and `Right`.
    pub open spec fn opposite(self) -> Direction {
        match self {
            Direction::Up => Direction::Down,
            Direction::Down => Direction::Up,
            Direction::Left => Direction::Right,
            Direction::Right => Direction::Left,
        }
    }

    /// Horizontal component of the unit vector of this heading.
    pub open spec fn dx(self) -> int {
        match self {
            Direction::Left => -1,
            Direction::Right => 1,
            _ => 0,
        }
    }

    /// Vertical component of the unit vector of this heading. Rows grow
    /// downwards, so `Up` is `-1`.
    pub open spec fn dy(self) -> int {
        match self {
            Direction::Up => -1,
            Direction::Down => 1,
            _ => 0,
        }
    }

    /// Returns the opposite heading.
    pub fn inverse(&self) -> (r: Direction)
        ensures
            r == self.opposite(),
    {
        match self {
            Direction::Up => Direction::Down,
            Direction::Down => Direction::Up,
            Direction::Left => Direction::Right,
            Direction::Right => Direction::Left,
        }
    }
}

/// `inverse` is an involution without fixed points, and it negates the
/// unit vector.
pub proof fn law_inverse_is_involution(d: Direction)
    ensures
        d.opposite().opposite() == d,
        d.opposite() != d,
        d.opposite().dx() == -d.dx(),
        d.opposite().dy() == -d.dy(),
{
}

/// A position in the unbounded integer plane: what a [`Coordinate`] is in
/// contracts, where moving never overflows.
pub struct Point {
    pub x: int,
    pub y: int,
}

impl Point {
    /// Whether a [`Coordinate`] can hold this point.
    pub open spec fn representable(self) -> bool {
        0 <= self.x <= usize::MAX && 0 <= self.y <= usize::MAX
    }

    /// The point one cell further in direction `d`.
    pub open spec fn shifted(self, d: Direction) -> Point {
        Point { x: self.x + d.dx(), y: self.y + d.dy() }
    }
}

/// A cell of the grid, counted from 1: `x` is the column, `y` the row.
#[derive(Clone, Copy, Debug, PartialEq, Eq, Structural)]
pub struct Coordinate {
    pub x: usize,
    pub y: usize,
}

impl View for Coordinate {
    type V = Point;

    open spec fn view(&self) -> Point {
        Point { x: self.x as int, y: self.y as int }
    }
}

impl Coordinate {
    /// Moves this coordinate one cell in direction `d`.
    pub fn advance(&mut self, d: Direction)
        requires
            old(self)@.shifted(d).representable(),
        ensures
            final(self)@ == old(self)@.shifted(d),
    {
        match d {
            Direction::Up => {
                self.y = self.y - 1;
            },
            Direction::Down => {
                self.y = self.y + 1;
            },
            Direction::Left => {
                self.x = self.x - 1;
            },
            Direction::Right => {
                self.x = self.x + 1;
            },
        }
    }

    /// The same cell counted from 0, as a drawing surface addresses it.
    pub fn zero_based(&self) -> (r: Coordinate)
        requires
            self.x >= 1,
            self.y >= 1,
        ensures
            r.x == self.x - 1,
            r.y == self.y - 1,
    {
        Coordinate { x: self.x - 1, y: self.y - 1 }
    }
}

/// Moving one cell and then one cell back in the opposite direction returns
/// to the starting point.
pub proof fn law_step_back(p: Point, d: Direction)
    ensures
        p.shifted(d).shifted(d.opposite()) == p,
{
}

} // verus!
