//! Startup configuration: board dimensions, the fleet catalog, and the
//! `Board` container itself.

use vstd::prelude::*;

use crate::Cell;
use crate::ships::Ship;

verus! {

/// Number of columns of a board.
pub const SIZE_X: usize = 10;
/// Number of rows of a board.
pub const SIZE_Y: usize = 10;
/// Number of cells of a board.
pub const BOARD_CELLS: usize = SIZE_X * SIZE_Y;

/// How many two-block ships the fleet holds.
pub const SHIP_TWO_BLOCK_AMOUNT: usize = 3;
/// How many three-block ships the fleet holds.
pub const SHIP_THREE_BLOCK_AMOUNT: usize = 2;
/// How many four-block ships the fleet holds.
pub const SHIP_FOUR_BLOCK_AMOUNT: usize = 1;
/// Total number of cells the full fleet occupies once placed.
pub const TOTAL_SHIP_CELLS: usize =
    SHIP_TWO_BLOCK_AMOUNT * 2 + SHIP_THREE_BLOCK_AMOUNT * 3 + SHIP_FOUR_BLOCK_AMOUNT * 4;

/// The size (cell count) of a ship class.
pub fn get_entitie_size(ship: &Ship) -> (size: usize)
    ensures
        size == spec_entitie_size(*ship),
{
    match ship {
        Ship::TwoBlock => 2,
        Ship::ThreeBlock => 3,
        Ship::FourBlock => 4,
    }
}

/// The size of a ship class, for contracts.
pub open spec fn spec_entitie_size(ship: Ship) -> int {
    match ship {
        Ship::TwoBlock => 2,
        Ship::ThreeBlock => 3,
        Ship::FourBlock => 4,
    }
}

/// A coordinate pair that lies on the board.
pub open spec fn coord_on_board(p: (usize, usize)) -> bool {
    p.0 < SIZE_X && p.1 < SIZE_Y
}

/// Every coordinate a ship cell's payload carries lies on the board. A
/// malformed sibling list is a programming error, never a normal game
/// condition, so hit resolution demands this of its input.
pub open spec fn ship_payload_wf(c: Cell) -> bool {
    match c {
        Cell::ShipTwo(p0, p1) => coord_on_board(p0) && coord_on_board(p1),
        Cell::ShipThree(p0, p1, p2) => coord_on_board(p0) && coord_on_board(p1) && coord_on_board(
            p2,
        ),
        Cell::ShipFour(p0, p1, p2, p3) => coord_on_board(p0) && coord_on_board(p1)
            && coord_on_board(p2) && coord_on_board(p3),
        _ => true,
    }
}

/// The index of the cell `(x, y)` in a board's backing sequence.
pub open spec fn idx(x: int, y: int) -> int {
    y * (SIZE_X as int) + x
}

/// A fixed `SIZE_Y` x `SIZE_X` grid of cells, stored row-major.
#[derive(Clone, Debug, PartialEq)]
pub struct Board {
    cells: Vec<Cell>,
}

impl View for Board {
    type V = Seq<Cell>;

    closed spec fn view(&self) -> Seq<Cell> {
        self.cells@
    }
}

impl Board {
    /// A board holds exactly one cell per grid position.
    pub open spec fn wf(&self) -> bool {
        self@.len() == BOARD_CELLS
    }

    /// Construction yields an all-`Empty` grid of the fixed dimensions.
    pub fn new() -> (board: Board)
        ensures
            board.wf(),
            forall|i: int| 0 <= i < BOARD_CELLS ==> board@[i] is Empty,
    {
        let mut cells: Vec<Cell> = Vec::new();
        let mut i: usize = 0;
        while i < BOARD_CELLS
            invariant
                i <= BOARD_CELLS,
                cells@.len() == i,
                forall|j: int| 0 <= j < i ==> cells@[j] is Empty,
            decreases BOARD_CELLS - i,
        {
            cells.push(Cell::Empty);
            i += 1;
        }
        Board { cells }
    }

    /// Read the cell at `(x, y)`.
    pub fn get_cell(&self, x: usize, y: usize) -> (cell: Cell)
        requires
            self.wf(),
            x < SIZE_X,
            y < SIZE_Y,
        ensures
            cell == self@[idx(x as int, y as int)],
    {
        self.cells[y * SIZE_X + x]
    }

    /// Overwrite the cell at `(x, y)`.
    pub fn set_cell(&mut self, x: usize, y: usize, cell: Cell)
        requires
            old(self).wf(),
            x < SIZE_X,
            y < SIZE_Y,
        ensures
            final(self).wf(),
            final(self)@ == old(self)@.update(idx(x as int, y as int), cell),
    {
        self.cells.set(y * SIZE_X + x, cell);
    }
}

} // verus!
