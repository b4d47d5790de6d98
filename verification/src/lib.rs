//! Core engine for a terminal grid-combat game: the board and ship model,
//! placement and collision checking, the opponent's hunt/target shot
//! selection, and hit resolution. Rendering and key input live outside this
//! crate; every operation here is a pure function from boards and positions
//! to boards and positions.

use vstd::prelude::*;

pub mod ai;
pub mod config;
pub mod game;
pub mod movement;
pub mod ships;

verus! {

/// One cell of a board. The committed ship variants carry the coordinates of
/// every cell belonging to that ship instance (as `(x, y)` pairs, anchor
/// first), which is what later makes sink detection a pure lookup.
#[derive(Copy, Clone, Debug, PartialEq)]
pub enum Cell {
    Empty,
    Shot,
    Ship,
    ShipTwo((usize, usize), (usize, usize)),
    ShipThree((usize, usize), (usize, usize), (usize, usize)),
    ShipFour((usize, usize), (usize, usize), (usize, usize), (usize, usize)),
    Damage,
    Placeholder,
    Crosshair,
}

/// Whether a footprint grows along the x axis (`Horizontal`) or the y axis
/// (`Vertical`) from its anchor cell.
#[derive(Copy, Clone, Debug, PartialEq)]
pub enum Rotation {
    Horizontal,
    Vertical,
}

/// A unit step request for moving a ship footprint or the aim cursor.
#[derive(Copy, Clone, Debug, PartialEq)]
pub enum Direction {
    Left,
    Right,
    Up,
    Down,
}

} // verus!
