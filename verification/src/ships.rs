//! The ship inventory tracker: how many ships of each class still have to be
//! placed during the setup round.

use vstd::prelude::*;

verus! {

/// The fleet's ship classes, in the fixed catalog order in which they are
/// handed out for placement.
#[derive(Copy, Clone, Debug, PartialEq)]
pub enum Ship {
    TwoBlock,
    ThreeBlock,
    FourBlock,
}

/// Remaining-to-place counter per ship class.
#[derive(Debug)]
pub struct ShipTracker {
    two_block: usize,
    three_block: usize,
    four_block: usize,
}

impl ShipTracker {
    /// The remaining counts, for contracts.
    pub closed spec fn counts(&self) -> (int, int, int) {
        (self.two_block as int, self.three_block as int, self.four_block as int)
    }

    pub fn new(two_block: usize, three_block: usize, four_block: usize) -> (tracker: Self)
        ensures
            tracker.counts() == (two_block as int, three_block as int, four_block as int),
    {
        Self { two_block, three_block, four_block }
    }

    /// The first class (in catalog order) that still has ships to place, or
    /// `None` once the fleet is fully placed.
    pub fn get_next_unset_ship(&self) -> (next: Option<Ship>)
        ensures
            next == spec_next_unset_ship(self.counts()),
    {
        if self.two_block > 0 {
            Some(Ship::TwoBlock)
        } else if self.three_block > 0 {
            Some(Ship::ThreeBlock)
        } else if self.four_block > 0 {
            Some(Ship::FourBlock)
        } else {
            None
        }
    }

    /// Record one committed placement of the given class. Callers must
    /// consult `get_next_unset_ship` first: the class's count must still be
    /// positive.
    pub fn set_ship(&mut self, kind: &Ship)
        requires
            match kind {
                Ship::TwoBlock => old(self).counts().0 > 0,
                Ship::ThreeBlock => old(self).counts().1 > 0,
                Ship::FourBlock => old(self).counts().2 > 0,
            },
        ensures
            final(self).counts() == match kind {
                Ship::TwoBlock =>
                    (old(self).counts().0 - 1, old(self).counts().1, old(self).counts().2),
                Ship::ThreeBlock =>
                    (old(self).counts().0, old(self).counts().1 - 1, old(self).counts().2),
                Ship::FourBlock =>
                    (old(self).counts().0, old(self).counts().1, old(self).counts().2 - 1),
            },
    {
        match kind {
            Ship::TwoBlock => {
                self.two_block -= 1;
            }
            Ship::ThreeBlock => {
                self.three_block -= 1;
            }
            Ship::FourBlock => {
                self.four_block -= 1;
            }
        }
    }

    /// The remaining counts, in catalog order.
    pub fn get_ships(&self) -> (counts: (usize, usize, usize))
        ensures
            (counts.0 as int, counts.1 as int, counts.2 as int) == self.counts(),
    {
        (self.two_block, self.three_block, self.four_block)
    }
}

/// What `get_next_unset_ship` returns for given remaining counts.
pub open spec fn spec_next_unset_ship(counts: (int, int, int)) -> Option<Ship> {
    if counts.0 > 0 {
        Some(Ship::TwoBlock)
    } else if counts.1 > 0 {
        Some(Ship::ThreeBlock)
    } else if counts.2 > 0 {
        Some(Ship::FourBlock)
    } else {
        None
    }
}

} // verus!
