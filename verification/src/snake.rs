//! The game-side data the webhook carries, and the stubbed move decision. The
//! payload schemas are the application's business; the engine only frames
//! them.

use vstd::prelude::*;

verus! {

/// A direction the snake can move in.
#[derive(Clone, Copy, Debug, PartialEq, Eq, Structural)]
pub enum Direction {
    Up,
    Down,
    Left,
    Right,
}

/// The wire name of a direction.
pub open spec fn direction_name(d: Direction) -> Seq<char> {
    match d {
        Direction::Up => "up"@,
        Direction::Down => "down"@,
        Direction::Left => "left"@,
        Direction::Right => "right"@,
    }
}

impl Direction {
    /// The name a direction goes by on the wire.
    pub fn to_string(self) -> (r: &'static str)
        ensures
            r@ == direction_name(self),
    {
        match self {
            Direction::Up => "up",
            Direction::Down => "down",
            Direction::Left => "left",
            Direction::Right => "right",
        }
    }
}

/// A square of the board.
#[derive(Clone, Copy, Debug, PartialEq, Eq, Structural)]
pub struct Point {
    pub x: u16,
    pub y: u16,
}

/// The board: its size and where the food is.
#[derive(Clone, Debug)]
pub struct Board {
    pub height: u16,
    pub width: u16,
    pub food: Vec<Point>,
}

/// One snake: its identity, as the 128-bit value of its UUID, and its body.
#[derive(Clone, Debug)]
pub struct Snake {
    pub id: u128,
    pub body: Vec<Point>,
}

/// One turn of the game, as the webhook receives it.
#[derive(Clone, Debug)]
pub struct Move {
    pub turn: u32,
    pub board: Board,
    pub you: Snake,
}

/// Decide the next move. The decision is a stub: it always goes up.
pub fn run(b: Move) -> (r: Direction)
    ensures
        r == Direction::Up,
{
    Direction::Up
}

} // verus!
