use vstd::prelude::*;
use vstd::std_specs::convert::FromSpecImpl;
use crate::grid::Coord;

verus! {

/// The eight compass directions, clockwise from the top left.
#[derive(Debug, Copy, Clone, Eq, PartialEq, Structural)]
pub enum Direction {
    TopLeft,
    Top,
    TopRight,
    Right,
    BottomRight,
    Bottom,
    BottomLeft,
    Left,
}

impl Direction {
    /// The number of the direction, from 0 for the top left on clockwise.
    pub open spec fn ordinal(self) -> u8 {
        match self {
            Direction::TopLeft => 0,
            Direction::Top => 1,
            Direction::TopRight => 2,
            Direction::Right => 3,
            Direction::BottomRight => 4,
            Direction::Bottom => 5,
            Direction::BottomLeft => 6,
            Direction::Left => 7,
        }
    }

    /// The step of one cell in the direction; rows grow downwards.
    pub open spec fn step(self) -> Coord {
        match self {
            Direction::TopLeft => Coord { x: (-1) as i16, y: (-1) as i16 },
            Direction::Top => Coord { x: 0, y: (-1) as i16 },
            Direction::TopRight => Coord { x: 1, y: (-1) as i16 },
            Direction::Right => Coord { x: 1, y: 0 },
            Direction::BottomRight => Coord { x: 1, y: 1 },
            Direction::Bottom => Coord { x: 0, y: 1 },
            Direction::BottomLeft => Coord { x: (-1) as i16, y: 1 },
            Direction::Left => Coord { x: (-1) as i16, y: 0 },
        }
    }

    /// All directions by their numbers.
    pub open spec fn every() -> Seq<Direction> {
        seq![
            Direction::TopLeft,
            Direction::Top,
            Direction::TopRight,
            Direction::Right,
            Direction::BottomRight,
            Direction::Bottom,
            Direction::BottomLeft,
            Direction::Left,
        ]
    }

    /// The step of one cell in the direction.
    pub fn delta(&self) -> (d: Coord)
        ensures
            d == self.step(),
            -1 <= d.x <= 1,
            -1 <= d.y <= 1,
            d.x != 0 || d.y != 0,
    {
        match self {
            Direction::TopLeft => Coord { x: -1, y: -1 },
            Direction::Top => Coord { x: 0, y: -1 },
            Direction::TopRight => Coord { x: 1, y: -1 },
            Direction::Right => Coord { x: 1, y: 0 },
            Direction::BottomRight => Coord { x: 1, y: 1 },
            Direction::Bottom => Coord { x: 0, y: 1 },
            Direction::BottomLeft => Coord { x: -1, y: 1 },
            Direction::Left => Coord { x: -1, y: 0 },
        }
    }

    /// All directions by their numbers.
    pub fn all() -> (directions: Vec<Direction>)
        ensures
            directions@ == Self::every(),
            directions.len() == 8,
            forall|i: int| 0 <= i < 8 ==> (#[trigger] directions[i]).ordinal() == i,
    {
        let mut directions: Vec<Direction> = Vec::new();
        directions.push(Direction::TopLeft);
        directions.push(Direction::Top);
        directions.push(Direction::TopRight);
        directions.push(Direction::Right);
        directions.push(Direction::BottomRight);
        directions.push(Direction::Bottom);
        directions.push(Direction::BottomLeft);
        directions.push(Direction::Left);
        assert(directions@ =~= Self::every());
        directions
    }

    /// The number of the direction.
    pub fn index(self) -> (n: u8)
        ensures
            n == self.ordinal(),
            n < 8,
    {
        match self {
            Direction::TopLeft => 0,
            Direction::Top => 1,
            Direction::TopRight => 2,
            Direction::Right => 3,
            Direction::BottomRight => 4,
            Direction::Bottom => 5,
            Direction::BottomLeft => 6,
            Direction::Left => 7,
        }
    }

    /// The direction with number `n`, if there is one.
    pub fn from_index(n: u8) -> (r: Option<Direction>)
        ensures
            r is Some <==> n < 8,
            r matches Some(d) ==> d.ordinal() == n,
    {
        match n {
            0 => Some(Direction::TopLeft),
            1 => Some(Direction::Top),
            2 => Some(Direction::TopRight),
            3 => Some(Direction::Right),
            4 => Some(Direction::BottomRight),
            5 => Some(Direction::Bottom),
            6 => Some(Direction::BottomLeft),
            7 => Some(Direction::Left),
            _ => None,
        }
    }
}

impl From<Direction> for u8 {
    fn from(direction: Direction) -> (n: u8) {
        direction.index()
    }
}

impl FromSpecImpl<Direction> for u8 {
    open spec fn obeys_from_spec() -> bool {
        true
    }

    open spec fn from_spec(direction: Direction) -> u8 {
        direction.ordinal()
    }
}

} // verus!
