//! Hit resolution and scoring: classifying a shot against the defender's
//! boards, and counting how much damage a board has taken.

use vstd::prelude::*;

use crate::Cell;
use crate::config::{
    Board, BOARD_CELLS, SIZE_X, SIZE_Y, TOTAL_SHIP_CELLS, coord_on_board, idx, ship_payload_wf,
};

verus! {

/// The outcome of one shot.
#[derive(Copy, Clone, Debug, PartialEq)]
pub enum HitType {
    Miss,
    Hit,
    HitNSunk,
}

/// A committed ship occupies this cell.
pub open spec fn is_ship_cell(c: Cell) -> bool {
    c is Ship || c is ShipTwo || c is ShipThree || c is ShipFour
}

/// How many cells of `s` satisfy `pred`.
pub open spec fn count_matching<T>(s: Seq<T>, pred: spec_fn(T) -> bool) -> int
    decreases s.len(),
{
    if s.len() == 0 {
        0
    } else {
        count_matching(s.drop_last(), pred) + if pred(s.last()) {
            1int
        } else {
            0int
        }
    }
}

/// A count of matching cells never leaves `[0, len]`.
pub proof fn lemma_count_matching_bound<T>(s: Seq<T>, pred: spec_fn(T) -> bool)
    ensures
        0 <= count_matching(s, pred) <= s.len(),
    decreases s.len(),
{
    if s.len() > 0 {
        lemma_count_matching_bound(s.drop_last(), pred);
    }
}

/// How overwriting one cell changes a count of matching cells.
pub proof fn lemma_count_matching_update<T>(s: Seq<T>, pred: spec_fn(T) -> bool, i: int, v: T)
    requires
        0 <= i < s.len(),
    ensures
        count_matching(s.update(i, v), pred) == count_matching(s, pred) - (if pred(s[i]) {
            1int
        } else {
            0int
        }) + (if pred(v) {
            1int
        } else {
            0int
        }),
    decreases s.len(),
{
    let t = s.update(i, v);
    if i == s.len() - 1 {
        assert(t.drop_last() =~= s.drop_last());
    } else {
        assert(t.drop_last() =~= s.drop_last().update(i, v));
        lemma_count_matching_update(s.drop_last(), pred, i, v);
    }
}

/// A count over cells of which none matches is zero.
pub proof fn lemma_count_matching_none<T>(s: Seq<T>, pred: spec_fn(T) -> bool)
    requires
        forall|i: int| 0 <= i < s.len() ==> !pred(#[trigger] s[i]),
    ensures
        count_matching(s, pred) == 0,
    decreases s.len(),
{
    if s.len() > 0 {
        assert(forall|i: int|
            0 <= i < s.drop_last().len() ==> !pred(#[trigger] s.drop_last()[i]));
        lemma_count_matching_none(s.drop_last(), pred);
        assert(!pred(s[s.len() - 1]));
    }
}

/// If fewer cells match than there are cells, some cell does not match.
pub proof fn lemma_count_matching_incomplete<T>(s: Seq<T>, pred: spec_fn(T) -> bool)
    requires
        count_matching(s, pred) < s.len(),
    ensures
        exists|i: int| 0 <= i < s.len() && !pred(s[i]),
    decreases s.len(),
{
    if !pred(s.last()) {
        assert(!pred(s[s.len() - 1]));
    } else {
        lemma_count_matching_bound(s.drop_last(), pred);
        lemma_count_matching_incomplete(s.drop_last(), pred);
        let i = choose|i: int| 0 <= i < s.drop_last().len() && !pred(s.drop_last()[i]);
        assert(!pred(s[i]));
    }
}

/// The sibling cell at `p` needs no further hit once the shot at `(x, y)`
/// lands: it is the shot itself, or it already holds `Damage` on the
/// defender's board.
pub open spec fn sibling_done(defender: Seq<Cell>, p: (usize, usize), x: int, y: int) -> bool {
    (p.0 == x && p.1 == y) || defender[idx(p.0 as int, p.1 as int)] is Damage
}

/// A shot at `(x, y)` into `secret_cell` sinks the ship: every sibling
/// coordinate of the ship holds `Damage` once this hit is applied.
pub open spec fn spec_sunk_after_hit(
    defender: Seq<Cell>,
    secret_cell: Cell,
    x: int,
    y: int,
) -> bool {
    match secret_cell {
        Cell::Ship => true,
        Cell::ShipTwo(p0, p1) => sibling_done(defender, p0, x, y) && sibling_done(
            defender,
            p1,
            x,
            y,
        ),
        Cell::ShipThree(p0, p1, p2) => sibling_done(defender, p0, x, y) && sibling_done(
            defender,
            p1,
            x,
            y,
        ) && sibling_done(defender, p2, x, y),
        Cell::ShipFour(p0, p1, p2, p3) => sibling_done(defender, p0, x, y) && sibling_done(
            defender,
            p1,
            x,
            y,
        ) && sibling_done(defender, p2, x, y) && sibling_done(defender, p3, x, y),
        _ => false,
    }
}

/// Whether this sibling coordinate is already accounted for by the shot at
/// `(pos_x, pos_y)` or by earlier damage.
fn check_sibling(board: &Board, p: (usize, usize), pos_x: usize, pos_y: usize) -> (done: bool)
    requires
        board.wf(),
        coord_on_board(p),
    ensures
        done == sibling_done(board@, p, pos_x as int, pos_y as int),
{
    (p.0 == pos_x && p.1 == pos_y) || matches!(board.get_cell(p.0, p.1), Cell::Damage)
}

/// Classify the shot at `(pos_x, pos_y)`: `Miss` when the secret board holds
/// no ship cell there; otherwise `HitNSunk` exactly when every sibling
/// coordinate of the hit ship holds `Damage` on the defender's visible board
/// `board` once this hit is applied, and `Hit` otherwise. Classification is
/// read-only: the caller writes the `Damage` or `Shot` marker afterwards.
pub fn get_hit_type(board: &Board, board_secret: &Board, pos_x: usize, pos_y: usize) -> (hit:
    HitType)
    requires
        board.wf(),
        board_secret.wf(),
        pos_x < SIZE_X,
        pos_y < SIZE_Y,
        ship_payload_wf(board_secret@[idx(pos_x as int, pos_y as int)]),
    ensures
        ({
            let secret = board_secret@[idx(pos_x as int, pos_y as int)];
            &&& (hit is Miss <==> !is_ship_cell(secret))
            &&& (hit is HitNSunk <==> is_ship_cell(secret) && spec_sunk_after_hit(
                board@,
                secret,
                pos_x as int,
                pos_y as int,
            ))
            &&& (hit is Hit <==> is_ship_cell(secret) && !spec_sunk_after_hit(
                board@,
                secret,
                pos_x as int,
                pos_y as int,
            ))
        }),
{
    match board_secret.get_cell(pos_x, pos_y) {
        Cell::Ship => HitType::HitNSunk,
        Cell::ShipTwo(p0, p1) => {
            if check_sibling(board, p0, pos_x, pos_y) && check_sibling(board, p1, pos_x, pos_y) {
                HitType::HitNSunk
            } else {
                HitType::Hit
            }
        }
        Cell::ShipThree(p0, p1, p2) => {
            if check_sibling(board, p0, pos_x, pos_y) && check_sibling(board, p1, pos_x, pos_y)
                && check_sibling(board, p2, pos_x, pos_y) {
                HitType::HitNSunk
            } else {
                HitType::Hit
            }
        }
        Cell::ShipFour(p0, p1, p2, p3) => {
            if check_sibling(board, p0, pos_x, pos_y) && check_sibling(board, p1, pos_x, pos_y)
                && check_sibling(board, p2, pos_x, pos_y) && check_sibling(
                board,
                p3,
                pos_x,
                pos_y,
            ) {
                HitType::HitNSunk
            } else {
                HitType::Hit
            }
        }
        _ => HitType::Miss,
    }
}

/// The predicate behind the damage count.
pub open spec fn damage_pred() -> spec_fn(Cell) -> bool {
    |c: Cell| c is Damage
}

/// How many cells of a board hold `Damage`.
pub open spec fn count_damage(s: Seq<Cell>) -> int {
    count_matching(s, damage_pred())
}

/// The number of `Damage` cells on the board: the score one side has dealt.
pub fn get_score(board: &Board) -> (score: usize)
    requires
        board.wf(),
    ensures
        score == count_damage(board@),
{
    let mut score: usize = 0;
    let mut i: usize = 0;
    #[verifier::loop_isolation(false)]
    while i < BOARD_CELLS
        invariant
            i <= BOARD_CELLS,
            score == count_matching(board@.subrange(0, i as int), damage_pred()),
            score <= i,
        decreases BOARD_CELLS - i,
    {
        let x = i % SIZE_X;
        let y = i / SIZE_X;
        proof {
            assert(idx(x as int, y as int) == i);
            assert(board@.subrange(0, i + 1).drop_last() =~= board@.subrange(0, i as int));
            assert(board@.subrange(0, i + 1).last() == board@[i as int]);
        }
        if matches!(board.get_cell(x, y), Cell::Damage) {
            score += 1;
        }
        i += 1;
    }
    proof {
        assert(board@.subrange(0, BOARD_CELLS as int) =~= board@);
    }
    score
}

/// The game-end predicate: every cell of the fleet defending this board has
/// been hit, that is, the full fleet's worth of cells holds `Damage`.
pub fn is_fleet_sunk(board: &Board) -> (sunk: bool)
    requires
        board.wf(),
    ensures
        sunk == (count_damage(board@) == TOTAL_SHIP_CELLS),
{
    get_score(board) == TOTAL_SHIP_CELLS
}

} // verus!

