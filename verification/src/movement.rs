//! Placement and collision engine: validating footprints, writing them onto
//! a board, finding the next free anchor in the frontier scan order, and
//! moving a footprint or the aim cursor by one step.

use vstd::prelude::*;

use crate::Cell;
use crate::Direction;
use crate::Rotation;
use crate::config::{Board, BOARD_CELLS, SIZE_X, SIZE_Y, idx, ship_payload_wf};

verus! {

/// A cell a footprint may be written over: `Empty`, or `Placeholder` so that
/// a footprint that already occupies the space provisionally can be
/// re-validated (for example when only the rotation changed).
pub open spec fn cell_allows_placement(c: Cell) -> bool {
    c is Empty || c is Placeholder
}

/// The anchor cell and the extent of a `size`-cell footprint lie on the
/// board.
pub open spec fn footprint_in_bounds(x: int, y: int, size: int, rot: Rotation) -> bool {
    &&& 0 <= x < SIZE_X
    &&& 0 <= y < SIZE_Y
    &&& match rot {
        Rotation::Horizontal => x + size <= SIZE_X,
        Rotation::Vertical => y + size <= SIZE_Y,
    }
}

/// Whether `(i, j)` is one of the cells of the footprint anchored at
/// `(x, y)`.
pub open spec fn in_footprint(x: int, y: int, size: int, rot: Rotation, i: int, j: int) -> bool {
    match rot {
        Rotation::Horizontal => j == y && x <= i < x + size,
        Rotation::Vertical => i == x && y <= j < y + size,
    }
}

/// The coordinate of the footprint cell `k` steps from the anchor.
pub open spec fn offset_coord(x: int, y: int, k: int, rot: Rotation) -> (int, int) {
    match rot {
        Rotation::Horizontal => (x + k, y),
        Rotation::Vertical => (x, y + k),
    }
}

/// What `is_free_space` decides: the whole footprint lies on the board and
/// every one of its cells allows placement. A negative anchor is rejected
/// outright, which guards the signed step taken by the move operations.
pub open spec fn spec_is_free(b: Seq<Cell>, x: int, y: int, size: int, rot: Rotation) -> bool {
    &&& 0 <= x < SIZE_X
    &&& 0 <= y < SIZE_Y
    &&& match rot {
        Rotation::Horizontal => x + size <= SIZE_X && forall|i: int|
            x <= i < x + size ==> cell_allows_placement(b[#[trigger] idx(i, y)]),
        Rotation::Vertical => y + size <= SIZE_Y && forall|j: int|
            y <= j < y + size ==> cell_allows_placement(b[#[trigger] idx(x, j)]),
    }
}

/// The cell value a placement writes: for the committed-ship kind, the sized
/// ship variant carrying the coordinates of every cell of the footprint;
/// for every other kind, the plain marker itself.
pub open spec fn written_cell(x: int, y: int, size: int, rot: Rotation, kind: Cell) -> Cell {
    if kind is Ship {
        let p0 = offset_pair(x, y, 0, rot);
        let p1 = offset_pair(x, y, 1, rot);
        if size == 2 {
            Cell::ShipTwo(p0, p1)
        } else if size == 3 {
            Cell::ShipThree(p0, p1, offset_pair(x, y, 2, rot))
        } else {
            Cell::ShipFour(p0, p1, offset_pair(x, y, 2, rot), offset_pair(x, y, 3, rot))
        }
    } else {
        kind
    }
}

/// The coordinate of the footprint cell `k` steps from the anchor, as the
/// pair a ship cell's payload stores.
pub open spec fn offset_pair(x: int, y: int, k: int, rot: Rotation) -> (usize, usize) {
    (offset_coord(x, y, k, rot).0 as usize, offset_coord(x, y, k, rot).1 as usize)
}

/// The board after writing `c` onto the first `k` cells of the footprint
/// anchored at `(x, y)`.
pub open spec fn spec_place_cells(
    b: Seq<Cell>,
    x: int,
    y: int,
    k: int,
    rot: Rotation,
    c: Cell,
) -> Seq<Cell>
    decreases k,
{
    if k <= 0 {
        b
    } else {
        let p = offset_coord(x, y, k - 1, rot);
        spec_place_cells(b, x, y, k - 1, rot, c).update(idx(p.0, p.1), c)
    }
}

/// The board `place_entity` returns: the footprint overwritten with the
/// written cell of its kind, every other cell unchanged.
pub open spec fn spec_place(
    b: Seq<Cell>,
    x: int,
    y: int,
    size: int,
    rot: Rotation,
    kind: Cell,
) -> Seq<Cell> {
    spec_place_cells(b, x, y, size, rot, written_cell(x, y, size, rot, kind))
}

/// Writing a footprint keeps the board's length.
pub proof fn lemma_place_cells_len(b: Seq<Cell>, x: int, y: int, k: int, rot: Rotation, c: Cell)
    requires
        b.len() == BOARD_CELLS,
        footprint_in_bounds(x, y, k, rot),
    ensures
        spec_place_cells(b, x, y, k, rot, c).len() == b.len(),
    decreases k,
{
    if k > 0 {
        lemma_place_cells_len(b, x, y, k - 1, rot, c);
    }
}

/// Pointwise description of a placement: a footprint cell holds the written
/// value, every other cell holds what it held before.
pub proof fn lemma_place_cells_at(
    b: Seq<Cell>,
    x: int,
    y: int,
    k: int,
    rot: Rotation,
    c: Cell,
    i: int,
    j: int,
)
    requires
        b.len() == BOARD_CELLS,
        footprint_in_bounds(x, y, k, rot),
        0 <= i < SIZE_X,
        0 <= j < SIZE_Y,
    ensures
        spec_place_cells(b, x, y, k, rot, c)[idx(i, j)] == if in_footprint(x, y, k, rot, i, j) {
            c
        } else {
            b[idx(i, j)]
        },
    decreases k,
{
    lemma_place_cells_len(b, x, y, k, rot, c);
    if k > 0 {
        lemma_place_cells_len(b, x, y, k - 1, rot, c);
        lemma_place_cells_at(b, x, y, k - 1, rot, c, i, j);
        let p = offset_coord(x, y, k - 1, rot);
        assert(idx(i, j) == idx(p.0, p.1) ==> i == p.0 && j == p.1);
    }
}

/// Placing a footprint never corrupts the cells it legitimately occupies for
/// re-validation: a footprint accepted by `is_free_space` is still reported
/// free after a `Placeholder` footprint is written onto that same space.
pub proof fn lemma_place_preserves_free(b: Seq<Cell>, x: int, y: int, size: int, rot: Rotation)
    requires
        b.len() == BOARD_CELLS,
        spec_is_free(b, x, y, size, rot),
    ensures
        spec_is_free(spec_place(b, x, y, size, rot, Cell::Placeholder), x, y, size, rot),
{
    let placed = spec_place(b, x, y, size, rot, Cell::Placeholder);
    match rot {
        Rotation::Horizontal => {
            assert forall|i: int| x <= i < x + size implies cell_allows_placement(
                placed[#[trigger] idx(i, y)],
            ) by {
                lemma_place_cells_at(b, x, y, size, rot, Cell::Placeholder, i, y);
            }
        }
        Rotation::Vertical => {
            assert forall|j: int| y <= j < y + size implies cell_allows_placement(
                placed[#[trigger] idx(x, j)],
            ) by {
                lemma_place_cells_at(b, x, y, size, rot, Cell::Placeholder, x, j);
            }
        }
    }
}

/// The committed ship variants that carry a sibling-coordinate list.
pub open spec fn is_sized_ship_cell(c: Cell) -> bool {
    c is ShipTwo || c is ShipThree || c is ShipFour
}

/// The coordinate list a committed ship cell carries, anchor first.
pub open spec fn cell_siblings(c: Cell) -> Seq<(usize, usize)> {
    match c {
        Cell::ShipTwo(p0, p1) => seq![p0, p1],
        Cell::ShipThree(p0, p1, p2) => seq![p0, p1, p2],
        Cell::ShipFour(p0, p1, p2, p3) => seq![p0, p1, p2, p3],
        _ => Seq::empty(),
    }
}

/// `b` is the cell directly right of `a`.
pub open spec fn next_to_right(a: (usize, usize), b: (usize, usize)) -> bool {
    b.0 == a.0 + 1 && b.1 == a.1
}

/// `b` is the cell directly below `a`.
pub open spec fn next_below(a: (usize, usize), b: (usize, usize)) -> bool {
    b.0 == a.0 && b.1 == a.1 + 1
}

/// The listed coordinates form a contiguous, axis-aligned footprint: all on
/// one row growing rightward, or all in one column growing downward.
pub open spec fn siblings_contiguous(c: Cell) -> bool {
    match c {
        Cell::ShipTwo(p0, p1) => next_to_right(p0, p1) || next_below(p0, p1),
        Cell::ShipThree(p0, p1, p2) => (next_to_right(p0, p1) && next_to_right(p1, p2)) || (
        next_below(p0, p1) && next_below(p1, p2)),
        Cell::ShipFour(p0, p1, p2, p3) => (next_to_right(p0, p1) && next_to_right(p1, p2)
            && next_to_right(p2, p3)) || (next_below(p0, p1) && next_below(p1, p2) && next_below(
            p2,
            p3,
        )),
        _ => true,
    }
}

/// Every coordinate this ship cell lists holds this very cell value on the
/// board.
pub open spec fn siblings_backed(b: Seq<Cell>, c: Cell) -> bool {
    forall|k: int|
        0 <= k < cell_siblings(c).len() ==> b[idx(
            (#[trigger] cell_siblings(c)[k]).0 as int,
            cell_siblings(c)[k].1 as int,
        )] == c
}

/// The ship cell `c` sitting at `(x, y)` lists its own coordinate.
pub open spec fn lists_own_coord(c: Cell, x: int, y: int) -> bool {
    exists|k: int|
        0 <= k < cell_siblings(c).len() && #[trigger] cell_siblings(c)[k] == (
            x as usize,
            y as usize,
        )
}

/// Footprint integrity of committed ships: every sized ship cell carries a
/// coordinate list that lies on the board, is contiguous and axis-aligned,
/// includes the cell's own position, and is carried identically by every
/// listed cell. Disjointness of distinct ships follows: a cell holds one
/// value, so it can back only one list.
pub open spec fn board_ship_integrity(b: Seq<Cell>) -> bool {
    forall|x: int, y: int|
        0 <= x < SIZE_X && 0 <= y < SIZE_Y && is_sized_ship_cell(#[trigger] b[idx(x, y)]) ==> {
            let c = b[idx(x, y)];
            &&& ship_payload_wf(c)
            &&& siblings_contiguous(c)
            &&& siblings_backed(b, c)
            &&& lists_own_coord(c, x, y)
        }
}

/// The value written for a committed ship lists exactly the footprint's
/// coordinates, anchor first.
proof fn lemma_written_cell_props(x: int, y: int, size: int, rot: Rotation)
    requires
        footprint_in_bounds(x, y, size, rot),
        2 <= size <= 4,
    ensures
        ({
            let wc = written_cell(x, y, size, rot, Cell::Ship);
            &&& is_sized_ship_cell(wc)
            &&& ship_payload_wf(wc)
            &&& siblings_contiguous(wc)
            &&& cell_siblings(wc).len() == size
            &&& forall|k: int|
                0 <= k < size ==> #[trigger] cell_siblings(wc)[k] == offset_pair(x, y, k, rot)
        }),
{
}

/// Committing a ship onto a free footprint of a board whose committed ships
/// have footprint integrity yields a board whose committed ships still have
/// footprint integrity: the new cells all carry the new ship's full list,
/// and no already-listed cell lay in the (free) footprint.
pub proof fn lemma_place_ship_integrity(b: Seq<Cell>, x: int, y: int, size: int, rot: Rotation)
    requires
        b.len() == BOARD_CELLS,
        board_ship_integrity(b),
        spec_is_free(b, x, y, size, rot),
        2 <= size <= 4,
    ensures
        board_ship_integrity(spec_place(b, x, y, size, rot, Cell::Ship)),
{
    let wc = written_cell(x, y, size, rot, Cell::Ship);
    let b2 = spec_place(b, x, y, size, rot, Cell::Ship);
    lemma_written_cell_props(x, y, size, rot);
    assert forall|i: int, j: int|
        0 <= i < SIZE_X && 0 <= j < SIZE_Y && is_sized_ship_cell(#[trigger] b2[idx(i, j)]) implies {
        let c = b2[idx(i, j)];
        &&& ship_payload_wf(c)
        &&& siblings_contiguous(c)
        &&& siblings_backed(b2, c)
        &&& lists_own_coord(c, i, j)
    } by {
        lemma_place_cells_at(b, x, y, size, rot, wc, i, j);
        if in_footprint(x, y, size, rot, i, j) {
            assert(b2[idx(i, j)] == wc);
            assert forall|k: int| 0 <= k < cell_siblings(wc).len() implies b2[idx(
                (#[trigger] cell_siblings(wc)[k]).0 as int,
                cell_siblings(wc)[k].1 as int,
            )] == wc by {
                let q = cell_siblings(wc)[k];
                assert(q == offset_pair(x, y, k, rot));
                lemma_place_cells_at(b, x, y, size, rot, wc, q.0 as int, q.1 as int);
                assert(in_footprint(x, y, size, rot, q.0 as int, q.1 as int));
            }
            let m = match rot {
                Rotation::Horizontal => i - x,
                Rotation::Vertical => j - y,
            };
            assert(cell_siblings(wc)[m] == offset_pair(x, y, m, rot));
            assert(cell_siblings(wc)[m] == (i as usize, j as usize));
            assert(lists_own_coord(wc, i, j));
        } else {
            let c = b[idx(i, j)];
            assert(b2[idx(i, j)] == c);
            assert forall|k: int| 0 <= k < cell_siblings(c).len() implies b2[idx(
                (#[trigger] cell_siblings(c)[k]).0 as int,
                cell_siblings(c)[k].1 as int,
            )] == c by {
                let q = cell_siblings(c)[k];
                assert(b[idx(q.0 as int, q.1 as int)] == c);
                lemma_place_cells_at(b, x, y, size, rot, wc, q.0 as int, q.1 as int);
                if in_footprint(x, y, size, rot, q.0 as int, q.1 as int) {
                    assert(cell_allows_placement(b[idx(q.0 as int, q.1 as int)]));
                    assert(false);
                }
            }
        }
    }
}

/// The frontier that `(x, y)` belongs to in the diagonal expansion scan: the
/// larger of its two coordinates.
pub open spec fn frontier_max(x: int, y: int) -> int {
    if x >= y {
        x
    } else {
        y
    }
}

/// The position of `(x, y)` within its own frontier: for frontier `i` the
/// scan visits `(i, 0), (0, i), (i, 1), (1, i), ..., (i, i - 1), (i - 1, i)`
/// and last the diagonal cell `(i, i)`.
pub open spec fn frontier_pos(x: int, y: int) -> int {
    if x == y {
        2 * x
    } else if x > y {
        2 * y
    } else {
        2 * x + 1
    }
}

/// `(ax, ay)` is visited strictly before `(bx, by)` by the frontier scan.
pub open spec fn frontier_before(ax: int, ay: int, bx: int, by: int) -> bool {
    ||| frontier_max(ax, ay) < frontier_max(bx, by)
    ||| (frontier_max(ax, ay) == frontier_max(bx, by) && frontier_pos(ax, ay) < frontier_pos(
        bx,
        by,
    ))
}

/// Some anchor on the board carries a free footprint.
pub open spec fn spec_any_free(b: Seq<Cell>, size: int, rot: Rotation) -> bool {
    exists|a: int, c: int|
        0 <= a < SIZE_X && 0 <= c < SIZE_Y && spec_is_free(b, a, c, size, rot)
}

/// Whether the `size`-cell footprint anchored at `(temp_pos_x, temp_pos_y)`
/// lies on the board and collides with nothing. Out-of-range anchors are
/// normal inputs and simply yield `false`. Nothing is mutated.
pub fn is_free_space(
    board: &Board,
    temp_pos_x: isize,
    temp_pos_y: isize,
    ship_size: usize,
    rotation: &Rotation,
) -> (free: bool)
    requires
        board.wf(),
    ensures
        free == spec_is_free(
            board@,
            temp_pos_x as int,
            temp_pos_y as int,
            ship_size as int,
            *rotation,
        ),
{
    if temp_pos_x < 0 || temp_pos_y < 0 || temp_pos_x > (SIZE_X as isize - 1) || temp_pos_y > (
    SIZE_Y as isize - 1) {
        return false;
    }
    let pos_x: usize = temp_pos_x as usize;
    let pos_y: usize = temp_pos_y as usize;

    match rotation {
        Rotation::Horizontal => {
            let mut offset: usize = 0;
            #[verifier::loop_isolation(false)]
            while offset < ship_size
                invariant
                    offset <= ship_size,
                    pos_x + offset <= SIZE_X,
                    forall|i: int|
                        pos_x <= i < pos_x + offset ==> cell_allows_placement(
                            board@[#[trigger] idx(i, pos_y as int)],
                        ),
                decreases ship_size - offset,
            {
                let new_pos_x = pos_x + offset;
                if new_pos_x > SIZE_X - 1 {
                    return false;
                }
                let cell = board.get_cell(new_pos_x, pos_y);
                if !matches!(cell, Cell::Empty | Cell::Placeholder) {
                    return false;
                }
                offset += 1;
            }
            true
        }
        Rotation::Vertical => {
            let mut offset: usize = 0;
            #[verifier::loop_isolation(false)]
            while offset < ship_size
                invariant
                    offset <= ship_size,
                    pos_y + offset <= SIZE_Y,
                    forall|j: int|
                        pos_y <= j < pos_y + offset ==> cell_allows_placement(
                            board@[#[trigger] idx(pos_x as int, j)],
                        ),
                decreases ship_size - offset,
            {
                let new_pos_y = pos_y + offset;
                if new_pos_y > SIZE_Y - 1 {
                    return false;
                }
                let cell = board.get_cell(pos_x, new_pos_y);
                if !matches!(cell, Cell::Empty | Cell::Placeholder) {
                    return false;
                }
                offset += 1;
            }
            true
        }
    }
}

/// Write the footprint anchored at `(pos_x, pos_y)` onto the board. The
/// caller must already have validated the placement: this operation checks
/// no bounds and no collisions, by design, so that callers can compose
/// "clear old footprint, then write new footprint" without re-validating.
/// For the committed-ship kind every written cell receives the same full
/// coordinate list, enabling later sink detection.
pub fn place_entity(
    board: Board,
    pos_x: usize,
    pos_y: usize,
    ship_size: usize,
    rotation: &Rotation,
    cell: Cell,
) -> (result: Board)
    requires
        board.wf(),
        ship_size >= 1,
        footprint_in_bounds(pos_x as int, pos_y as int, ship_size as int, *rotation),
        cell is Ship ==> 2 <= ship_size <= 4,
    ensures
        result.wf(),
        result@ == spec_place(
            board@,
            pos_x as int,
            pos_y as int,
            ship_size as int,
            *rotation,
            cell,
        ),
{
    let ghost b0 = board@;
    let wcell = match cell {
        Cell::Ship => {
            match rotation {
                Rotation::Horizontal => {
                    if ship_size == 2 {
                        Cell::ShipTwo((pos_x, pos_y), (pos_x + 1, pos_y))
                    } else if ship_size == 3 {
                        Cell::ShipThree((pos_x, pos_y), (pos_x + 1, pos_y), (pos_x + 2, pos_y))
                    } else {
                        Cell::ShipFour(
                            (pos_x, pos_y),
                            (pos_x + 1, pos_y),
                            (pos_x + 2, pos_y),
                            (pos_x + 3, pos_y),
                        )
                    }
                }
                Rotation::Vertical => {
                    if ship_size == 2 {
                        Cell::ShipTwo((pos_x, pos_y), (pos_x, pos_y + 1))
                    } else if ship_size == 3 {
                        Cell::ShipThree((pos_x, pos_y), (pos_x, pos_y + 1), (pos_x, pos_y + 2))
                    } else {
                        Cell::ShipFour(
                            (pos_x, pos_y),
                            (pos_x, pos_y + 1),
                            (pos_x, pos_y + 2),
                            (pos_x, pos_y + 3),
                        )
                    }
                }
            }
        }
        _ => cell,
    };
    proof {
        assert(wcell == written_cell(
            pos_x as int,
            pos_y as int,
            ship_size as int,
            *rotation,
            cell,
        ));
    }

    let mut board = board;
    let mut offset: usize = 0;
    #[verifier::loop_isolation(false)]
    while offset < ship_size
        invariant
            offset <= ship_size,
            board.wf(),
            board@ == spec_place_cells(
                b0,
                pos_x as int,
                pos_y as int,
                offset as int,
                *rotation,
                wcell,
            ),
        decreases ship_size - offset,
    {
        let (cx, cy) = match rotation {
            Rotation::Horizontal => (pos_x + offset, pos_y),
            Rotation::Vertical => (pos_x, pos_y + offset),
        };
        board.set_cell(cx, cy, wcell);
        offset += 1;
    }
    board
}

/// The first anchor, in the diagonal frontier scan order, whose footprint is
/// free. If no anchor is free the origin `(0, 0)` comes back as a sentinel:
/// callers must treat "no change on a fully occupied board" as a placement
/// failure upstream, since this engine does not itself fail.
pub fn get_next_available_coordinates(
    board: &Board,
    ship_size: usize,
    rotation: &Rotation,
) -> (pos: (usize, usize))
    requires
        board.wf(),
    ensures
        spec_any_free(board@, ship_size as int, *rotation) ==> {
            &&& spec_is_free(board@, pos.0 as int, pos.1 as int, ship_size as int, *rotation)
            &&& forall|a: int, c: int|
                0 <= a < SIZE_X && 0 <= c < SIZE_Y && frontier_before(
                    a,
                    c,
                    pos.0 as int,
                    pos.1 as int,
                ) ==> !spec_is_free(board@, a, c, ship_size as int, *rotation)
        },
        !spec_any_free(board@, ship_size as int, *rotation) ==> pos == (0usize, 0usize),
{
    let ghost size = ship_size as int;
    let ghost rot = *rotation;
    let mut i: usize = 0;
    #[verifier::loop_isolation(false)]
    while i < SIZE_X
        invariant
            i <= SIZE_X,
            forall|a: int, c: int|
                0 <= a < SIZE_X && 0 <= c < SIZE_Y && frontier_max(a, c) < i
                    ==> !spec_is_free(board@, a, c, size, rot),
        decreases SIZE_X - i,
    {
        let mut n: usize = 0;
        #[verifier::loop_isolation(false)]
        while n < i
            invariant
                n <= i,
                forall|m: int| 0 <= m < n ==> !spec_is_free(board@, i as int, m, size, rot),
                forall|m: int| 0 <= m < n ==> !spec_is_free(board@, m, i as int, size, rot),
            decreases i - n,
        {
            if is_free_space(board, i as isize, n as isize, ship_size, rotation) {
                proof {
                    assert forall|a: int, c: int|
                        0 <= a < SIZE_X && 0 <= c < SIZE_Y && frontier_before(
                            a,
                            c,
                            i as int,
                            n as int,
                        ) implies !spec_is_free(board@, a, c, size, rot) by {
                        if frontier_max(a, c) == i {
                            if a == i && c < i {
                                assert(c < n);
                            } else if c == i && a < i {
                                assert(a < n);
                            }
                        }
                    }
                }
                return (i, n);
            }
            if is_free_space(board, n as isize, i as isize, ship_size, rotation) {
                proof {
                    assert forall|a: int, c: int|
                        0 <= a < SIZE_X && 0 <= c < SIZE_Y && frontier_before(
                            a,
                            c,
                            n as int,
                            i as int,
                        ) implies !spec_is_free(board@, a, c, size, rot) by {
                        if frontier_max(a, c) == i {
                            if a == i && c < i {
                                assert(c <= n);
                            } else if c == i && a < i {
                                assert(a < n);
                            }
                        }
                    }
                }
                return (n, i);
            }
            n += 1;
        }
        if is_free_space(board, i as isize, i as isize, ship_size, rotation) {
            proof {
                assert forall|a: int, c: int|
                    0 <= a < SIZE_X && 0 <= c < SIZE_Y && frontier_before(
                        a,
                        c,
                        i as int,
                        i as int,
                    ) implies !spec_is_free(board@, a, c, size, rot) by {
                    if frontier_max(a, c) == i {
                        if a == i && c < i {
                            assert(c < i);
                        } else if c == i && a < i {
                            assert(a < i);
                        }
                    }
                }
            }
            return (i, i);
        }
        i += 1;
    }
    proof {
        assert forall|a: int, c: int| 0 <= a < SIZE_X && 0 <= c < SIZE_Y implies !spec_is_free(
            board@,
            a,
            c,
            size,
            rot,
        ) by {
            assert(frontier_max(a, c) < SIZE_X);
        }
    }
    (0, 0)
}

/// The coordinate one unit step from `(x, y)` in the given direction.
pub open spec fn step_coord(x: int, y: int, direction: Direction) -> (int, int) {
    match direction {
        Direction::Left => (x - 1, y),
        Direction::Right => (x + 1, y),
        Direction::Up => (x, y - 1),
        Direction::Down => (x, y + 1),
    }
}

/// Move the provisional ship footprint one step. If the candidate position
/// is not free (movement against a boundary or an occupied cell), the board
/// and position come back unchanged: a silent no-op, not an error.
pub fn move_ship(
    board: Board,
    pos_x: usize,
    pos_y: usize,
    ship_size: usize,
    rotation: &Rotation,
    direction: Direction,
) -> (r: (Board, usize, usize))
    requires
        board.wf(),
        ship_size >= 1,
        footprint_in_bounds(pos_x as int, pos_y as int, ship_size as int, *rotation),
    ensures
        r.0.wf(),
        ({
            let (cx, cy) = step_coord(pos_x as int, pos_y as int, direction);
            if spec_is_free(board@, cx, cy, ship_size as int, *rotation) {
                &&& r.0@ == spec_place(
                    spec_place(
                        board@,
                        pos_x as int,
                        pos_y as int,
                        ship_size as int,
                        *rotation,
                        Cell::Empty,
                    ),
                    cx,
                    cy,
                    ship_size as int,
                    *rotation,
                    Cell::Placeholder,
                )
                &&& r.1 == cx
                &&& r.2 == cy
            } else {
                &&& r.0@ == board@
                &&& r.1 == pos_x
                &&& r.2 == pos_y
            }
        }),
{
    let mut board = board;
    let mut pos_x = pos_x;
    let mut pos_y = pos_y;
    match direction {
        Direction::Left => {
            if is_free_space(&board, pos_x as isize - 1, pos_y as isize, ship_size, rotation) {
                board = place_entity(board, pos_x, pos_y, ship_size, rotation, Cell::Empty);
                pos_x -= 1;
                board = place_entity(board, pos_x, pos_y, ship_size, rotation, Cell::Placeholder);
            }
        }
        Direction::Right => {
            if is_free_space(&board, pos_x as isize + 1, pos_y as isize, ship_size, rotation) {
                board = place_entity(board, pos_x, pos_y, ship_size, rotation, Cell::Empty);
                pos_x += 1;
                board = place_entity(board, pos_x, pos_y, ship_size, rotation, Cell::Placeholder);
            }
        }
        Direction::Up => {
            if is_free_space(&board, pos_x as isize, pos_y as isize - 1, ship_size, rotation) {
                board = place_entity(board, pos_x, pos_y, ship_size, rotation, Cell::Empty);
                pos_y -= 1;
                board = place_entity(board, pos_x, pos_y, ship_size, rotation, Cell::Placeholder);
            }
        }
        Direction::Down => {
            if is_free_space(&board, pos_x as isize, pos_y as isize + 1, ship_size, rotation) {
                board = place_entity(board, pos_x, pos_y, ship_size, rotation, Cell::Empty);
                pos_y += 1;
                board = place_entity(board, pos_x, pos_y, ship_size, rotation, Cell::Placeholder);
            }
        }
    }
    (board, pos_x, pos_y)
}

/// The other rotation.
pub open spec fn spec_flip(rot: Rotation) -> Rotation {
    match rot {
        Rotation::Horizontal => Rotation::Vertical,
        Rotation::Vertical => Rotation::Horizontal,
    }
}

/// Rotate the provisional ship footprint in place. If the rotated footprint
/// would leave the board or collide, rotation and footprint stay unchanged.
pub fn rotate_ship(
    board: Board,
    pos_x: usize,
    pos_y: usize,
    ship_size: usize,
    rotation: Rotation,
) -> (r: (Board, Rotation))
    requires
        board.wf(),
        ship_size >= 1,
        footprint_in_bounds(pos_x as int, pos_y as int, ship_size as int, rotation),
    ensures
        r.0.wf(),
        ({
            let flip = spec_flip(rotation);
            if spec_is_free(board@, pos_x as int, pos_y as int, ship_size as int, flip) {
                &&& r.0@ == spec_place(
                    spec_place(
                        board@,
                        pos_x as int,
                        pos_y as int,
                        ship_size as int,
                        rotation,
                        Cell::Empty,
                    ),
                    pos_x as int,
                    pos_y as int,
                    ship_size as int,
                    flip,
                    Cell::Placeholder,
                )
                &&& r.1 == flip
            } else {
                &&& r.0@ == board@
                &&& r.1 == rotation
            }
        }),
{
    let new_rotation = match rotation {
        Rotation::Horizontal => Rotation::Vertical,
        Rotation::Vertical => Rotation::Horizontal,
    };
    if is_free_space(&board, pos_x as isize, pos_y as isize, ship_size, &new_rotation) {
        let cleared = place_entity(board, pos_x, pos_y, ship_size, &rotation, Cell::Empty);
        let placed = place_entity(
            cleared,
            pos_x,
            pos_y,
            ship_size,
            &new_rotation,
            Cell::Placeholder,
        );
        (placed, new_rotation)
    } else {
        (board, rotation)
    }
}

/// A cell the aim cursor may rest on: a single free cell.
pub open spec fn crosshair_free(b: Seq<Cell>, x: int, y: int) -> bool {
    spec_is_free(b, x, y, 1, Rotation::Horizontal)
}

/// The board after the aim cursor leaves `(px, py)` and lands on `(nx, ny)`.
pub open spec fn spec_crosshair_moved(b: Seq<Cell>, px: int, py: int, nx: int, ny: int) -> Seq<
    Cell,
> {
    spec_place(
        spec_place(b, px, py, 1, Rotation::Horizontal, Cell::Empty),
        nx,
        ny,
        1,
        Rotation::Horizontal,
        Cell::Crosshair,
    )
}

/// Move the aim cursor toward the given direction. Unlike `move_ship` the
/// cursor does not stop at the adjacent cell: it scans every cell toward the
/// requested direction and lands on the first free one, jumping over cells
/// already fired upon. Scanning left or up starts beside the cursor;
/// scanning right or down starts on the cursor's own cell, which matters
/// only when that cell itself is free. With no free cell toward the
/// direction, board and position come back unchanged.
pub fn move_crosshair(board: Board, pos_x: usize, pos_y: usize, direction: Direction) -> (r: (
    Board,
    usize,
    usize,
))
    requires
        board.wf(),
        pos_x < SIZE_X,
        pos_y < SIZE_Y,
    ensures
        r.0.wf(),
        direction is Left ==> {
            &&& (exists|x2: int| 0 <= x2 < pos_x && crosshair_free(board@, x2, pos_y as int)) ==> {
                &&& r.2 == pos_y
                &&& r.1 < pos_x
                &&& crosshair_free(board@, r.1 as int, pos_y as int)
                &&& forall|x2: int|
                    r.1 < x2 < pos_x ==> !crosshair_free(board@, x2, pos_y as int)
                &&& r.0@ == spec_crosshair_moved(
                    board@,
                    pos_x as int,
                    pos_y as int,
                    r.1 as int,
                    pos_y as int,
                )
            }
            &&& (forall|x2: int| 0 <= x2 < pos_x ==> !crosshair_free(board@, x2, pos_y as int))
                ==> (r.0@ == board@ && r.1 == pos_x && r.2 == pos_y)
        },
        direction is Right ==> {
            &&& (exists|x2: int|
                pos_x <= x2 < SIZE_X && crosshair_free(board@, x2, pos_y as int)) ==> {
                &&& r.2 == pos_y
                &&& pos_x <= r.1 < SIZE_X
                &&& crosshair_free(board@, r.1 as int, pos_y as int)
                &&& forall|x2: int|
                    pos_x <= x2 < r.1 ==> !crosshair_free(board@, x2, pos_y as int)
                &&& r.0@ == spec_crosshair_moved(
                    board@,
                    pos_x as int,
                    pos_y as int,
                    r.1 as int,
                    pos_y as int,
                )
            }
            &&& (forall|x2: int|
                pos_x <= x2 < SIZE_X ==> !crosshair_free(board@, x2, pos_y as int)) ==> (r.0@
                == board@ && r.1 == pos_x && r.2 == pos_y)
        },
        direction is Up ==> {
            &&& (exists|y2: int| 0 <= y2 < pos_y && crosshair_free(board@, pos_x as int, y2)) ==> {
                &&& r.1 == pos_x
                &&& r.2 < pos_y
                &&& crosshair_free(board@, pos_x as int, r.2 as int)
                &&& forall|y2: int|
                    r.2 < y2 < pos_y ==> !crosshair_free(board@, pos_x as int, y2)
                &&& r.0@ == spec_crosshair_moved(
                    board@,
                    pos_x as int,
                    pos_y as int,
                    pos_x as int,
                    r.2 as int,
                )
            }
            &&& (forall|y2: int| 0 <= y2 < pos_y ==> !crosshair_free(board@, pos_x as int, y2))
                ==> (r.0@ == board@ && r.1 == pos_x && r.2 == pos_y)
        },
        direction is Down ==> {
            &&& (exists|y2: int|
                pos_y <= y2 < SIZE_Y && crosshair_free(board@, pos_x as int, y2)) ==> {
                &&& r.1 == pos_x
                &&& pos_y <= r.2 < SIZE_Y
                &&& crosshair_free(board@, pos_x as int, r.2 as int)
                &&& forall|y2: int|
                    pos_y <= y2 < r.2 ==> !crosshair_free(board@, pos_x as int, y2)
                &&& r.0@ == spec_crosshair_moved(
                    board@,
                    pos_x as int,
                    pos_y as int,
                    pos_x as int,
                    r.2 as int,
                )
            }
            &&& (forall|y2: int|
                pos_y <= y2 < SIZE_Y ==> !crosshair_free(board@, pos_x as int, y2)) ==> (r.0@
                == board@ && r.1 == pos_x && r.2 == pos_y)
        },
{
    match direction {
        Direction::Left => {
            let mut i: usize = pos_x;
            #[verifier::loop_isolation(false)]
            while i > 0
                invariant
                    i <= pos_x,
                    forall|x2: int|
                        i <= x2 < pos_x ==> !crosshair_free(board@, x2, pos_y as int),
                decreases i,
            {
                i -= 1;
                if is_free_space(&board, i as isize, pos_y as isize, 1, &Rotation::Horizontal) {
                    proof {
                        assert(crosshair_free(board@, i as int, pos_y as int));
                    }
                    let cleared = place_entity(
                        board,
                        pos_x,
                        pos_y,
                        1,
                        &Rotation::Horizontal,
                        Cell::Empty,
                    );
                    let placed = place_entity(
                        cleared,
                        i,
                        pos_y,
                        1,
                        &Rotation::Horizontal,
                        Cell::Crosshair,
                    );
                    return (placed, i, pos_y);
                }
            }
            (board, pos_x, pos_y)
        }
        Direction::Right => {
            let mut i: usize = pos_x;
            #[verifier::loop_isolation(false)]
            while i < SIZE_X
                invariant
                    pos_x <= i <= SIZE_X,
                    forall|x2: int|
                        pos_x <= x2 < i ==> !crosshair_free(board@, x2, pos_y as int),
                decreases SIZE_X - i,
            {
                if is_free_space(&board, i as isize, pos_y as isize, 1, &Rotation::Horizontal) {
                    proof {
                        assert(crosshair_free(board@, i as int, pos_y as int));
                    }
                    let cleared = place_entity(
                        board,
                        pos_x,
                        pos_y,
                        1,
                        &Rotation::Horizontal,
                        Cell::Empty,
                    );
                    let placed = place_entity(
                        cleared,
                        i,
                        pos_y,
                        1,
                        &Rotation::Horizontal,
                        Cell::Crosshair,
                    );
                    return (placed, i, pos_y);
                }
                i += 1;
            }
            (board, pos_x, pos_y)
        }
        Direction::Up => {
            let mut j: usize = pos_y;
            #[verifier::loop_isolation(false)]
            while j > 0
                invariant
                    j <= pos_y,
                    forall|y2: int|
                        j <= y2 < pos_y ==> !crosshair_free(board@, pos_x as int, y2),
                decreases j,
            {
                j -= 1;
                if is_free_space(&board, pos_x as isize, j as isize, 1, &Rotation::Horizontal) {
                    proof {
                        assert(crosshair_free(board@, pos_x as int, j as int));
                    }
                    let cleared = place_entity(
                        board,
                        pos_x,
                        pos_y,
                        1,
                        &Rotation::Horizontal,
                        Cell::Empty,
                    );
                    let placed = place_entity(
                        cleared,
                        pos_x,
                        j,
                        1,
                        &Rotation::Horizontal,
                        Cell::Crosshair,
                    );
                    return (placed, pos_x, j);
                }
            }
            (board, pos_x, pos_y)
        }
        Direction::Down => {
            let mut j: usize = pos_y;
            #[verifier::loop_isolation(false)]
            while j < SIZE_Y
                invariant
                    pos_y <= j <= SIZE_Y,
                    forall|y2: int|
                        pos_y <= y2 < j ==> !crosshair_free(board@, pos_x as int, y2),
                decreases SIZE_Y - j,
            {
                if is_free_space(&board, pos_x as isize, j as isize, 1, &Rotation::Horizontal) {
                    proof {
                        assert(crosshair_free(board@, pos_x as int, j as int));
                    }
                    let cleared = place_entity(
                        board,
                        pos_x,
                        pos_y,
                        1,
                        &Rotation::Horizontal,
                        Cell::Empty,
                    );
                    let placed = place_entity(
                        cleared,
                        pos_x,
                        j,
                        1,
                        &Rotation::Horizontal,
                        Cell::Crosshair,
                    );
                    return (placed, pos_x, j);
                }
                j += 1;
            }
            (board, pos_x, pos_y)
        }
    }
}

} // verus!
