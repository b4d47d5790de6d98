//! The computer opponent: random fleet placement and the hunt/target
//! targeting engine that selects its shot coordinates.

use vstd::prelude::*;

use rand::Rng;

use crate::Cell;
use crate::Rotation;
use crate::config::{
    Board, BOARD_CELLS, SHIP_FOUR_BLOCK_AMOUNT, SHIP_THREE_BLOCK_AMOUNT, SHIP_TWO_BLOCK_AMOUNT,
    SIZE_X, SIZE_Y, TOTAL_SHIP_CELLS, coord_on_board, get_entitie_size, idx, ship_payload_wf,
};
use crate::game::{
    HitType, count_matching, is_ship_cell, lemma_count_matching_bound,
    lemma_count_matching_incomplete, lemma_count_matching_update,
};
use crate::movement::{
    board_ship_integrity, footprint_in_bounds, in_footprint, is_free_space,
    lemma_place_cells_at, lemma_place_cells_len, lemma_place_ship_integrity, offset_coord,
    place_entity, spec_is_free, spec_place_cells, written_cell,
};
use crate::ships::ShipTracker;

verus! {

/// How many random anchors the fleet generator tries for one ship before it
/// gives up: the bound that turns rejection sampling into a terminating,
/// fail-fast operation.
pub const PLACE_RETRY_LIMIT: usize = 10000;

/// How many random draws the hunt selection makes before it falls back to a
/// deterministic scan for an unfired cell.
const HUNT_RANDOM_TRIES: usize = 100;

/// Relies on rand::Rng::gen_range on the thread-local generator: for a
/// non-empty range `0..n` the result lies in that range.
#[verifier::external_body]
fn random_below(n: usize) -> (r: usize)
    requires
        n > 0,
    ensures
        r < n,
{
    rand::thread_rng().gen_range(0..n)
}

/// The predicate behind the ship-cell count.
pub open spec fn ship_pred() -> spec_fn(Cell) -> bool {
    |c: Cell| is_ship_cell(c)
}

/// How many cells of a board a committed ship occupies.
pub open spec fn count_ship_cells(s: Seq<Cell>) -> int {
    count_matching(s, ship_pred())
}

/// Writing a ship cell over a free footprint adds exactly the footprint's
/// size to the board's ship-cell count.
proof fn lemma_place_ship_count(b: Seq<Cell>, x: int, y: int, k: int, rot: Rotation, c: Cell)
    requires
        b.len() == BOARD_CELLS,
        0 <= k,
        spec_is_free(b, x, y, k, rot),
        is_ship_cell(c),
    ensures
        count_ship_cells(spec_place_cells(b, x, y, k, rot, c)) == count_ship_cells(b) + k,
    decreases k,
{
    if k > 0 {
        lemma_place_ship_count(b, x, y, k - 1, rot, c);
        let prev = spec_place_cells(b, x, y, k - 1, rot, c);
        let p = offset_coord(x, y, k - 1, rot);
        lemma_place_cells_len(b, x, y, k - 1, rot, c);
        lemma_place_cells_at(b, x, y, k - 1, rot, c, p.0, p.1);
        assert(!in_footprint(x, y, k - 1, rot, p.0, p.1));
        assert(prev[idx(p.0, p.1)] == b[idx(p.0, p.1)]);
        assert(!is_ship_cell(b[idx(p.0, p.1)]));
        assert(!ship_pred()(prev[idx(p.0, p.1)]));
        assert(ship_pred()(c));
        lemma_count_matching_update(prev, ship_pred(), idx(p.0, p.1), c);
    }
}

/// The payload a committed ship cell receives lists only coordinates on the
/// board, provided the footprint itself lies on the board.
proof fn lemma_written_ship_payload_wf(x: int, y: int, size: int, rot: Rotation)
    requires
        footprint_in_bounds(x, y, size, rot),
        2 <= size <= 4,
    ensures
        ship_payload_wf(written_cell(x, y, size, rot, Cell::Ship)),
{
}

/// Produce a secret board fully populated with the configured fleet: each
/// ship is committed at a random anchor and rotation, rejected and retried
/// until `is_free_space` accepts it. When it succeeds, the board holds
/// exactly the fleet's worth of ship cells and every other cell is still
/// `Empty`. When a ship cannot be seated within the retry bound, `None`
/// comes back: a fatal configuration error for the caller, never an endless
/// search.
pub fn set_ships(board: Board) -> (result: Option<Board>)
    requires
        board.wf(),
        forall|t: int| 0 <= t < BOARD_CELLS ==> board@[t] is Empty,
    ensures
        result matches Some(b) ==> {
            &&& b.wf()
            &&& count_ship_cells(b@) == TOTAL_SHIP_CELLS
            &&& forall|t: int| 0 <= t < BOARD_CELLS ==> (is_ship_cell(b@[t]) || b@[t] is Empty)
            &&& forall|t: int| 0 <= t < BOARD_CELLS ==> ship_payload_wf(b@[t])
            &&& board_ship_integrity(b@)
        },
{
    let mut board = board;
    let mut tracker = ShipTracker::new(
        SHIP_TWO_BLOCK_AMOUNT,
        SHIP_THREE_BLOCK_AMOUNT,
        SHIP_FOUR_BLOCK_AMOUNT,
    );
    proof {
        crate::game::lemma_count_matching_none(board@, ship_pred());
    }
    #[verifier::loop_isolation(false)]
    loop
        invariant
            board.wf(),
            count_ship_cells(board@) + 2 * tracker.counts().0 + 3 * tracker.counts().1 + 4
                * tracker.counts().2 == TOTAL_SHIP_CELLS,
            tracker.counts().0 >= 0,
            tracker.counts().1 >= 0,
            tracker.counts().2 >= 0,
            forall|t: int|
                0 <= t < BOARD_CELLS ==> (is_ship_cell(board@[t]) || board@[t] is Empty),
            forall|t: int| 0 <= t < BOARD_CELLS ==> ship_payload_wf(board@[t]),
            board_ship_integrity(board@),
        decreases tracker.counts().0 + tracker.counts().1 + tracker.counts().2,
    {
        let next = tracker.get_next_unset_ship();
        match next {
            None => {
                return Some(board);
            }
            Some(kind) => {
                let size = get_entitie_size(&kind);
                let ghost cells_before = count_ship_cells(board@);
                let mut tries: usize = 0;
                let mut placed = false;
                #[verifier::loop_isolation(false)]
                while tries < PLACE_RETRY_LIMIT && !placed
                    invariant
                        board.wf(),
                        forall|t: int|
                            0 <= t < BOARD_CELLS ==> (is_ship_cell(board@[t]) || board@[t]
                                is Empty),
                        forall|t: int| 0 <= t < BOARD_CELLS ==> ship_payload_wf(board@[t]),
                        board_ship_integrity(board@),
                        placed ==> count_ship_cells(board@) == cells_before + size,
                        !placed ==> count_ship_cells(board@) == cells_before,
                    decreases PLACE_RETRY_LIMIT - tries,
                {
                    let x = random_below(SIZE_X);
                    let y = random_below(SIZE_Y);
                    let rot = if random_below(2) == 0 {
                        Rotation::Horizontal
                    } else {
                        Rotation::Vertical
                    };
                    if is_free_space(&board, x as isize, y as isize, size, &rot) {
                        let ghost before = board@;
                        board = place_entity(board, x, y, size, &rot, Cell::Ship);
                        proof {
                            let wc = written_cell(x as int, y as int, size as int, rot, Cell::Ship);
                            lemma_place_ship_count(before, x as int, y as int, size as int, rot, wc);
                            lemma_written_ship_payload_wf(x as int, y as int, size as int, rot);
                            lemma_place_ship_integrity(before, x as int, y as int, size as int, rot);
                            assert forall|t: int| 0 <= t < BOARD_CELLS implies ((is_ship_cell(
                                board@[t],
                            ) || board@[t] is Empty) && ship_payload_wf(board@[t])) by {
                                let i = t % (SIZE_X as int);
                                let j = t / (SIZE_X as int);
                                assert(t == idx(i, j));
                                lemma_place_cells_at(
                                    before,
                                    x as int,
                                    y as int,
                                    size as int,
                                    rot,
                                    wc,
                                    i,
                                    j,
                                );
                            }
                        }
                        placed = true;
                    }
                    tries += 1;
                }
                if !placed {
                    return None;
                }
                tracker.set_ship(&kind);
            }
        }
    }
}

/// The two states of the targeting engine: searching broadly for a new ship,
/// or exploring around a confirmed but not yet sunk hit.
#[derive(Copy, Clone, Debug, PartialEq)]
pub enum Mode {
    Hunt,
    Target,
}

/// The predicate behind the shot count.
pub open spec fn fired_pred() -> spec_fn(bool) -> bool {
    |b: bool| b
}

/// A singleton candidate list holding `(x, y)`, when that coordinate lies on
/// the board and has not been fired upon; empty otherwise.
pub open spec fn cand_if_usable(x: int, y: int, fired: Seq<bool>) -> Seq<(usize, usize)> {
    if 0 <= x < SIZE_X && 0 <= y < SIZE_Y && !fired[idx(x, y)] {
        seq![(x as usize, y as usize)]
    } else {
        Seq::empty()
    }
}

/// The candidates seeded by a fresh hit at `(x, y)`: its four orthogonal
/// neighbors in the fixed priority order up, down, left, right, filtered to
/// valid unfired coordinates.
pub open spec fn seed_candidates(x: int, y: int, fired: Seq<bool>) -> Seq<(usize, usize)> {
    cand_if_usable(x, y - 1, fired) + cand_if_usable(x, y + 1, fired) + cand_if_usable(
        x - 1,
        y,
        fired,
    ) + cand_if_usable(x + 1, y, fired)
}

/// The candidates once a second hit at `(x, y)` establishes the ship's axis
/// through the anchor `(ax, ay)`: the two cells that continue the line, the
/// one beyond the new hit first and the one beyond the anchor second,
/// filtered to valid unfired coordinates.
pub open spec fn line_candidates(ax: int, ay: int, x: int, y: int, fired: Seq<bool>) -> Seq<
    (usize, usize),
> {
    if x == ax && y != ay {
        if y > ay {
            cand_if_usable(x, y + 1, fired) + cand_if_usable(x, ay - 1, fired)
        } else {
            cand_if_usable(x, y - 1, fired) + cand_if_usable(x, ay + 1, fired)
        }
    } else if y == ay && x != ax {
        if x > ax {
            cand_if_usable(x + 1, y, fired) + cand_if_usable(ax - 1, y, fired)
        } else {
            cand_if_usable(x - 1, y, fired) + cand_if_usable(ax + 1, y, fired)
        }
    } else {
        Seq::empty()
    }
}

/// The first candidate of the list that has not been fired upon, together
/// with the candidates remaining after it; `None` when every candidate has
/// already been fired upon.
pub open spec fn spec_next_candidate(cands: Seq<(usize, usize)>, fired: Seq<bool>) -> Option<
    ((usize, usize), Seq<(usize, usize)>),
>
    decreases cands.len(),
{
    if cands.len() == 0 {
        None
    } else if !fired[idx(cands[0].0 as int, cands[0].1 as int)] {
        Some((cands[0], cands.subrange(1, cands.len() as int)))
    } else {
        spec_next_candidate(cands.subrange(1, cands.len() as int), fired)
    }
}

/// Append `(x, y)` to a candidate list when it lies on the board and has not
/// been fired upon; leave the list alone otherwise.
fn push_candidate(cands: &mut Vec<(usize, usize)>, fired: &Vec<bool>, x: isize, y: isize)
    requires
        fired@.len() == BOARD_CELLS,
    ensures
        final(cands)@ == old(cands)@ + cand_if_usable(x as int, y as int, fired@),
{
    if x >= 0 && y >= 0 && x < SIZE_X as isize && y < SIZE_Y as isize {
        let ux = x as usize;
        let uy = y as usize;
        if !fired[uy * SIZE_X + ux] {
            cands.push((ux, uy));
            proof {
                assert(idx(x as int, y as int) == uy * SIZE_X + ux);
                assert(cands@ =~= old(cands)@ + cand_if_usable(x as int, y as int, fired@));
            }
            return ;
        }
        proof {
            assert(idx(x as int, y as int) == uy * SIZE_X + ux);
        }
    }
    proof {
        assert(cands@ =~= old(cands)@ + cand_if_usable(x as int, y as int, fired@));
    }
}

/// The opponent's targeting engine. It holds the set of coordinates it has
/// already fired upon (monotonically growing, never re-queried) and, in
/// `Target` mode, the anchor hit plus the ordered untried candidates derived
/// from it. Created once per game, mutated after every opponent shot, never
/// reset mid-game.
pub struct Attack {
    mode: Mode,
    fired: Vec<bool>,
    shots: usize,
    anchor: (usize, usize),
    candidates: Vec<(usize, usize)>,
}

impl Attack {
    /// The fired grid, row-major, for contracts.
    pub closed spec fn fired_seq(&self) -> Seq<bool> {
        self.fired@
    }

    /// The current mode, for contracts.
    pub closed spec fn mode_spec(&self) -> Mode {
        self.mode
    }

    /// The anchor hit of the current target chain, for contracts.
    pub closed spec fn anchor_spec(&self) -> (usize, usize) {
        self.anchor
    }

    /// The untried candidate coordinates, for contracts.
    pub closed spec fn candidates_spec(&self) -> Seq<(usize, usize)> {
        self.candidates@
    }

    /// How many shots have been fired so far, for contracts.
    pub closed spec fn shots_spec(&self) -> int {
        self.shots as int
    }

    /// The engine's internal consistency: one fired flag per board cell, a
    /// shot counter that equals the number of set flags, and every stored
    /// coordinate on the board.
    pub open spec fn wf(&self) -> bool {
        &&& self.fired_seq().len() == BOARD_CELLS
        &&& self.shots_spec() == count_matching(self.fired_seq(), fired_pred())
        &&& coord_on_board(self.anchor_spec())
        &&& forall|i: int|
            0 <= i < self.candidates_spec().len() ==> coord_on_board(
                #[trigger] self.candidates_spec()[i],
            )
    }

    /// The engine has already fired at `(x, y)`.
    pub open spec fn has_fired(&self, x: int, y: int) -> bool {
        self.fired_seq()[idx(x, y)]
    }

    /// The fired-set as a set of coordinates.
    pub open spec fn fired_set(&self) -> Set<(int, int)> {
        Set::new(
            |p: (int, int)|
                0 <= p.0 < SIZE_X && 0 <= p.1 < SIZE_Y && self.fired_seq()[idx(p.0, p.1)],
        )
    }

    /// A fresh engine: hunting, with nothing fired yet.
    pub fn new() -> (attack: Attack)
        ensures
            attack.wf(),
            attack.mode_spec() is Hunt,
            attack.shots_spec() == 0,
            attack.candidates_spec().len() == 0,
            forall|x: int, y: int|
                0 <= x < SIZE_X && 0 <= y < SIZE_Y ==> !attack.has_fired(x, y),
    {
        let mut fired: Vec<bool> = Vec::new();
        let mut i: usize = 0;
        #[verifier::loop_isolation(false)]
        while i < BOARD_CELLS
            invariant
                i <= BOARD_CELLS,
                fired@.len() == i,
                forall|j: int| 0 <= j < i ==> !fired@[j],
                count_matching(fired@, fired_pred()) == 0,
            decreases BOARD_CELLS - i,
        {
            let ghost prev = fired@;
            fired.push(false);
            proof {
                assert(fired@.drop_last() =~= prev);
            }
            i += 1;
        }
        Attack { mode: Mode::Hunt, fired, shots: 0, anchor: (0, 0), candidates: Vec::new() }
    }

    /// The current mode.
    pub fn get_mode(&self) -> (mode: Mode)
        ensures
            mode == self.mode_spec(),
    {
        self.mode
    }

    /// How many shots have been fired so far. Callers check this against the
    /// board size before asking for another shot.
    pub fn shot_count(&self) -> (count: usize)
        ensures
            count as int == self.shots_spec(),
    {
        self.shots
    }

    /// Record `(x, y)` as fired upon.
    fn mark_fired(&mut self, x: usize, y: usize)
        requires
            old(self).wf(),
            x < SIZE_X,
            y < SIZE_Y,
            !old(self).has_fired(x as int, y as int),
        ensures
            final(self).wf(),
            final(self).fired_seq() == old(self).fired_seq().update(
                idx(x as int, y as int),
                true,
            ),
            final(self).shots_spec() == old(self).shots_spec() + 1,
            final(self).fired_set() == old(self).fired_set().insert((x as int, y as int)),
            final(self).mode_spec() == old(self).mode_spec(),
            final(self).anchor_spec() == old(self).anchor_spec(),
            final(self).candidates_spec() == old(self).candidates_spec(),
    {
        proof {
            assert(idx(x as int, y as int) == y * SIZE_X + x);
            assert(!fired_pred()(self.fired@[idx(x as int, y as int)]));
            assert(fired_pred()(true));
            lemma_count_matching_bound(self.fired@, fired_pred());
            lemma_count_matching_update(self.fired@, fired_pred(), idx(x as int, y as int), true);
        }
        let i = y * SIZE_X + x;
        self.fired.set(i, true);
        self.shots = self.shots + 1;
        proof {
            assert forall|i: int| 0 <= i < self.candidates@.len() implies coord_on_board(
                #[trigger] self.candidates@[i],
            ) by {
                assert(self.candidates@[i] == old(self).candidates_spec()[i]);
                assert(coord_on_board(old(self).candidates_spec()[i]));
            }
            assert(self.fired_set() =~= old(self).fired_set().insert((x as int, y as int)));
        }
    }

    /// A hunt-mode selection: an unfired coordinate, drawn at random with a
    /// bounded number of tries and found by a deterministic scan after that,
    /// so that a shot is always produced.
    fn hunt_pick(&self) -> (pick: (usize, usize))
        requires
            self.wf(),
            self.shots_spec() < BOARD_CELLS,
        ensures
            pick.0 < SIZE_X,
            pick.1 < SIZE_Y,
            !self.has_fired(pick.0 as int, pick.1 as int),
    {
        let mut tries: usize = 0;
        #[verifier::loop_isolation(false)]
        while tries < HUNT_RANDOM_TRIES
            decreases HUNT_RANDOM_TRIES - tries,
        {
            let x = random_below(SIZE_X);
            let y = random_below(SIZE_Y);
            if !self.fired[y * SIZE_X + x] {
                proof {
                    assert(idx(x as int, y as int) == y * SIZE_X + x);
                }
                return (x, y);
            }
            tries += 1;
        }
        let mut t: usize = 0;
        #[verifier::loop_isolation(false)]
        while t < BOARD_CELLS
            invariant
                t <= BOARD_CELLS,
                forall|u: int| 0 <= u < t ==> self.fired_seq()[u],
            decreases BOARD_CELLS - t,
        {
            if !self.fired[t] {
                let x = t % SIZE_X;
                let y = t / SIZE_X;
                proof {
                    assert(idx(x as int, y as int) == t as int);
                }
                return (x, y);
            }
            t += 1;
        }
        proof {
            lemma_count_matching_incomplete(self.fired_seq(), fired_pred());
            assert(false);
        }
        (0, 0)
    }

    /// Take the next shot. In `Target` mode the first candidate not already
    /// in the fired-set is taken and the candidates after it are kept; with
    /// no usable candidate left, or in `Hunt` mode, an unfired coordinate is
    /// hunted for. Either way the shot was never fired before and joins the
    /// fired-set, which only ever grows: no coordinate ever comes back
    /// twice across an entire game.
    pub fn shoot(&mut self) -> (shot: (usize, usize))
        requires
            old(self).wf(),
            old(self).shots_spec() < BOARD_CELLS,
        ensures
            final(self).wf(),
            shot.0 < SIZE_X,
            shot.1 < SIZE_Y,
            !old(self).has_fired(shot.0 as int, shot.1 as int),
            final(self).fired_set() == old(self).fired_set().insert(
                (shot.0 as int, shot.1 as int),
            ),
            final(self).shots_spec() == old(self).shots_spec() + 1,
            final(self).anchor_spec() == old(self).anchor_spec(),
            old(self).mode_spec() is Hunt ==> final(self).mode_spec() is Hunt
                && final(self).candidates_spec() == old(self).candidates_spec(),
            old(self).mode_spec() is Target ==> (match spec_next_candidate(
                old(self).candidates_spec(),
                old(self).fired_seq(),
            ) {
                Some(pick) => {
                    &&& shot == pick.0
                    &&& final(self).mode_spec() is Target
                    &&& final(self).candidates_spec() == pick.1
                },
                None => final(self).mode_spec() is Hunt,
            }),
    {
        if matches!(self.mode, Mode::Target) {
            let ghost cands0 = self.candidates@;
            let mut found: bool = false;
            let mut cx: usize = 0;
            let mut cy: usize = 0;
            #[verifier::loop_isolation(false)]
            while !found && self.candidates.len() > 0
                invariant
                    self.fired_seq() == old(self).fired_seq(),
                    self.shots_spec() == old(self).shots_spec(),
                    self.mode_spec() == old(self).mode_spec(),
                    self.anchor_spec() == old(self).anchor_spec(),
                    self.wf(),
                    found ==> {
                        &&& cx < SIZE_X
                        &&& cy < SIZE_Y
                        &&& !self.has_fired(cx as int, cy as int)
                        &&& spec_next_candidate(cands0, self.fired_seq()) == Some(
                            ((cx, cy), self.candidates_spec()),
                        )
                    },
                    !found ==> spec_next_candidate(cands0, self.fired_seq())
                        == spec_next_candidate(self.candidates_spec(), self.fired_seq()),
                decreases self.candidates@.len(),
            {
                let ghost before = self.candidates@;
                let c = self.candidates.remove(0);
                proof {
                    assert(self.candidates@ =~= before.subrange(1, before.len() as int));
                }
                if !self.fired[c.1 * SIZE_X + c.0] {
                    proof {
                        assert(idx(c.0 as int, c.1 as int) == c.1 * SIZE_X + c.0);
                    }
                    found = true;
                    cx = c.0;
                    cy = c.1;
                }
            }
            if found {
                self.mark_fired(cx, cy);
                return (cx, cy);
            }
            self.mode = Mode::Hunt;
        }
        let pick = self.hunt_pick();
        self.mark_fired(pick.0, pick.1);
        pick
    }

    /// Take the shot that follows a confirmed hit: the target-mode selection.
    pub fn shoot_after_hit(&mut self) -> (shot: (usize, usize))
        requires
            old(self).wf(),
            old(self).shots_spec() < BOARD_CELLS,
        ensures
            final(self).wf(),
            shot.0 < SIZE_X,
            shot.1 < SIZE_Y,
            !old(self).has_fired(shot.0 as int, shot.1 as int),
            final(self).fired_set() == old(self).fired_set().insert(
                (shot.0 as int, shot.1 as int),
            ),
            final(self).shots_spec() == old(self).shots_spec() + 1,
            final(self).anchor_spec() == old(self).anchor_spec(),
            old(self).mode_spec() is Hunt ==> final(self).mode_spec() is Hunt
                && final(self).candidates_spec() == old(self).candidates_spec(),
            old(self).mode_spec() is Target ==> (match spec_next_candidate(
                old(self).candidates_spec(),
                old(self).fired_seq(),
            ) {
                Some(pick) => {
                    &&& shot == pick.0
                    &&& final(self).mode_spec() is Target
                    &&& final(self).candidates_spec() == pick.1
                },
                None => final(self).mode_spec() is Hunt,
            }),
    {
        self.shoot()
    }

    /// Let the engine observe the outcome of its shot at `(pos_x, pos_y)`.
    /// A hit while hunting opens a target chain anchored there, seeded with
    /// the hit's orthogonal neighbors; a hit while targeting narrows the
    /// candidates to the ship's axis; a sunk ship closes the chain; a miss
    /// with no candidates left falls back to hunting. The fired-set never
    /// changes here.
    pub fn record_result(&mut self, pos_x: usize, pos_y: usize, hit: HitType)
        requires
            old(self).wf(),
            pos_x < SIZE_X,
            pos_y < SIZE_Y,
        ensures
            final(self).wf(),
            final(self).fired_seq() == old(self).fired_seq(),
            final(self).shots_spec() == old(self).shots_spec(),
            final(self).fired_set() == old(self).fired_set(),
            old(self).mode_spec() is Hunt && hit is Hit ==> {
                &&& final(self).mode_spec() is Target
                &&& final(self).anchor_spec() == (pos_x, pos_y)
                &&& final(self).candidates_spec() == seed_candidates(
                    pos_x as int,
                    pos_y as int,
                    old(self).fired_seq(),
                )
            },
            old(self).mode_spec() is Hunt && !(hit is Hit) ==> {
                &&& final(self).mode_spec() is Hunt
                &&& final(self).anchor_spec() == old(self).anchor_spec()
                &&& final(self).candidates_spec() == old(self).candidates_spec()
            },
            old(self).mode_spec() is Target && hit is HitNSunk ==> {
                &&& final(self).mode_spec() is Hunt
                &&& final(self).candidates_spec().len() == 0
            },
            old(self).mode_spec() is Target && hit is Hit ==> {
                &&& final(self).mode_spec() is Target
                &&& final(self).anchor_spec() == old(self).anchor_spec()
                &&& final(self).candidates_spec() == line_candidates(
                    old(self).anchor_spec().0 as int,
                    old(self).anchor_spec().1 as int,
                    pos_x as int,
                    pos_y as int,
                    old(self).fired_seq(),
                )
            },
            old(self).mode_spec() is Target && hit is Miss ==> {
                &&& final(self).anchor_spec() == old(self).anchor_spec()
                &&& final(self).candidates_spec() == old(self).candidates_spec()
                &&& final(self).mode_spec() == (if old(self).candidates_spec().len() == 0 {
                    Mode::Hunt
                } else {
                    Mode::Target
                })
            },
    {
        match self.mode {
            Mode::Hunt => {
                if matches!(hit, HitType::Hit) {
                    let mut cands: Vec<(usize, usize)> = Vec::new();
                    push_candidate(&mut cands, &self.fired, pos_x as isize, pos_y as isize - 1);
                    push_candidate(&mut cands, &self.fired, pos_x as isize, pos_y as isize + 1);
                    push_candidate(&mut cands, &self.fired, pos_x as isize - 1, pos_y as isize);
                    push_candidate(&mut cands, &self.fired, pos_x as isize + 1, pos_y as isize);
                    proof {
                        assert(cands@ =~= seed_candidates(
                            pos_x as int,
                            pos_y as int,
                            self.fired@,
                        ));
                        assert forall|i: int| 0 <= i < cands@.len() implies coord_on_board(
                            #[trigger] cands@[i],
                        ) by {
                            lemma_cand_concat_on_board(
                                pos_x as int,
                                pos_y as int,
                                self.fired@,
                                cands@,
                                i,
                            );
                        }
                    }
                    self.mode = Mode::Target;
                    self.anchor = (pos_x, pos_y);
                    self.candidates = cands;
                }
            }
            Mode::Target => {
                match hit {
                    HitType::HitNSunk => {
                        self.mode = Mode::Hunt;
                        self.candidates = Vec::new();
                    }
                    HitType::Hit => {
                        let (ax, ay) = self.anchor;
                        let mut cands: Vec<(usize, usize)> = Vec::new();
                        if pos_x == ax && pos_y != ay {
                            if pos_y > ay {
                                push_candidate(
                                    &mut cands,
                                    &self.fired,
                                    pos_x as isize,
                                    pos_y as isize + 1,
                                );
                                push_candidate(
                                    &mut cands,
                                    &self.fired,
                                    pos_x as isize,
                                    ay as isize - 1,
                                );
                            } else {
                                push_candidate(
                                    &mut cands,
                                    &self.fired,
                                    pos_x as isize,
                                    pos_y as isize - 1,
                                );
                                push_candidate(
                                    &mut cands,
                                    &self.fired,
                                    pos_x as isize,
                                    ay as isize + 1,
                                );
                            }
                        } else if pos_y == ay && pos_x != ax {
                            if pos_x > ax {
                                push_candidate(
                                    &mut cands,
                                    &self.fired,
                                    pos_x as isize + 1,
                                    pos_y as isize,
                                );
                                push_candidate(
                                    &mut cands,
                                    &self.fired,
                                    ax as isize - 1,
                                    pos_y as isize,
                                );
                            } else {
                                push_candidate(
                                    &mut cands,
                                    &self.fired,
                                    pos_x as isize - 1,
                                    pos_y as isize,
                                );
                                push_candidate(
                                    &mut cands,
                                    &self.fired,
                                    ax as isize + 1,
                                    pos_y as isize,
                                );
                            }
                        }
                        proof {
                            assert(cands@ =~= line_candidates(
                                ax as int,
                                ay as int,
                                pos_x as int,
                                pos_y as int,
                                self.fired@,
                            ));
                            assert forall|i: int| 0 <= i < cands@.len() implies coord_on_board(
                                #[trigger] cands@[i],
                            ) by {
                                lemma_line_cands_on_board(
                                    ax as int,
                                    ay as int,
                                    pos_x as int,
                                    pos_y as int,
                                    self.fired@,
                                    cands@,
                                    i,
                                );
                            }
                        }
                        self.candidates = cands;
                    }
                    HitType::Miss => {
                        if self.candidates.len() == 0 {
                            self.mode = Mode::Hunt;
                        }
                    }
                }
            }
        }
    }
}

/// An element of a seeded candidate list lies on the board.
proof fn lemma_cand_concat_on_board(
    x: int,
    y: int,
    fired: Seq<bool>,
    cands: Seq<(usize, usize)>,
    i: int,
)
    requires
        cands == seed_candidates(x, y, fired),
        0 <= i < cands.len(),
    ensures
        coord_on_board(cands[i]),
{
}

/// An element of a line candidate list lies on the board.
proof fn lemma_line_cands_on_board(
    ax: int,
    ay: int,
    x: int,
    y: int,
    fired: Seq<bool>,
    cands: Seq<(usize, usize)>,
    i: int,
)
    requires
        cands == line_candidates(ax, ay, x, y, fired),
        0 <= i < cands.len(),
    ensures
        coord_on_board(cands[i]),
{
}

} // verus!
