//! Sets of entrances, kept as one bit per entrance.

use vstd::prelude::*;
use crate::rooms::Entrance;

verus! {

/// Whether bit `i` of `b` is set.
pub open spec fn bit_set(b: u16, i: u16) -> bool {
    (b >> i) & 1 == 1
}

proof fn lemma_bit_or(a: u16, b: u16, i: u16)
    by (bit_vector)
    requires
        i < 16,
    ensures
        bit_set(a | b, i) == (bit_set(a, i) || bit_set(b, i)),
        bit_set(a & !b, i) == (bit_set(a, i) && !bit_set(b, i)),
        bit_set(a & b, i) == (bit_set(a, i) && bit_set(b, i)),
{
}

proof fn lemma_bit_single(i: u16, j: u16)
    by (bit_vector)
    requires
        i < 16,
        j < 16,
    ensures
        bit_set(1u16 << i, j) == (i == j),
{
}

proof fn lemma_bit_bounds(a: u16, b: u16, i: u16)
    by (bit_vector)
    requires
        a < 0x8000,
        b < 0x8000,
        i < 15,
    ensures
        (a | b) < 0x8000,
        (a & !b) < 0x8000,
        (1u16 << i) < 0x8000,
        !bit_set(a, 15),
        !bit_set(0, i),
        bit_set(0x7fff, i),
{
}

proof fn lemma_bit_nonzero(a: u16)
    by (bit_vector)
    requires
        a != 0,
        a < 0x8000,
    ensures
        bit_set(a, 0) || bit_set(a, 1) || bit_set(a, 2) || bit_set(a, 3) || bit_set(a, 4)
            || bit_set(a, 5) || bit_set(a, 6) || bit_set(a, 7) || bit_set(a, 8) || bit_set(a, 9)
            || bit_set(a, 10) || bit_set(a, 11) || bit_set(a, 12) || bit_set(a, 13) || bit_set(
            a,
            14,
        ),
{
}

/// The lowest of the fifteen bits that is set in `b`.
pub open spec fn first_bit(b: u16) -> int {
    if bit_set(b, 0) {
        0
    } else if bit_set(b, 1) {
        1
    } else if bit_set(b, 2) {
        2
    } else if bit_set(b, 3) {
        3
    } else if bit_set(b, 4) {
        4
    } else if bit_set(b, 5) {
        5
    } else if bit_set(b, 6) {
        6
    } else if bit_set(b, 7) {
        7
    } else if bit_set(b, 8) {
        8
    } else if bit_set(b, 9) {
        9
    } else if bit_set(b, 10) {
        10
    } else if bit_set(b, 11) {
        11
    } else if bit_set(b, 12) {
        12
    } else if bit_set(b, 13) {
        13
    } else {
        14
    }
}

/// The entrance with the given place in the list; any entrance for a number
/// that is no place.
pub open spec fn entrance_at(i: int) -> Entrance {
    if i == 0 {
        Entrance::StartDown
    } else if i == 1 {
        Entrance::StartRight
    } else if i == 2 {
        Entrance::SkyviewLeft
    } else if i == 3 {
        Entrance::SkyviewUp
    } else if i == 4 {
        Entrance::EarthTempleRight
    } else if i == 5 {
        Entrance::EarthTempleDown
    } else if i == 6 {
        Entrance::LanayruMiningFacilityDown
    } else if i == 7 {
        Entrance::LanayruMiningFacilityUp
    } else if i == 8 {
        Entrance::MiniBossLeft
    } else if i == 9 {
        Entrance::MiniBossDown
    } else if i == 10 {
        Entrance::AncientCisternRight
    } else if i == 11 {
        Entrance::AncientCisternDown
    } else if i == 12 {
        Entrance::FireSanctuaryLeft
    } else if i == 13 {
        Entrance::FireSanctuaryRight
    } else {
        Entrance::SandshipLeft
    }
}

/// A set of entrances.
#[derive(Debug, Clone, Copy, PartialEq, Eq, Hash, Structural)]
pub struct EntranceSet {
    bits: u16,
}

impl View for EntranceSet {
    type V = Set<Entrance>;

    closed spec fn view(&self) -> Set<Entrance> {
        Set::new(|e: Entrance| bit_set(self.bits, e.spec_index() as u16))
    }
}

impl EntranceSet {
    /// Only the fifteen bits of the fifteen entrances are ever set.
    pub closed spec fn wf(&self) -> bool {
        self.bits < 0x8000
    }

    /// No entrance.
    pub fn empty() -> (r: EntranceSet)
        ensures
            r.wf(),
            r@ == Set::<Entrance>::empty(),
    {
        let r = EntranceSet { bits: 0 };
        proof {
            assert forall|e: Entrance| !r@.contains(e) by {
                lemma_bit_bounds(0, 0, e.spec_index() as u16);
            }
        }
        r
    }

    /// All fifteen entrances.
    pub fn full() -> (r: EntranceSet)
        ensures
            r.wf(),
            r@ == Set::<Entrance>::full(),
    {
        let r = EntranceSet { bits: 0x7fff };
        proof {
            assert forall|e: Entrance| r@.contains(e) by {
                lemma_bit_bounds(0, 0, e.spec_index() as u16);
            }
        }
        r
    }

    /// Whether the set holds no entrance.
    pub fn is_empty(&self) -> (r: bool)
        requires
            self.wf(),
        ensures
            r == (self@ == Set::<Entrance>::empty()),
            !r ==> exists|e: Entrance| self@.contains(e),
    {
        proof {
            if self.bits == 0 {
                assert forall|e: Entrance| !self@.contains(e) by {
                    lemma_bit_bounds(0, 0, e.spec_index() as u16);
                }
                assert(self@ =~= Set::<Entrance>::empty());
            } else {
                lemma_bit_nonzero(self.bits);
                let i = first_bit(self.bits);
                assert(self@.contains(entrance_at(i)));
            }
        }
        self.bits == 0
    }

    /// Whether the entrance is in the set.
    pub fn contains(&self, e: Entrance) -> (r: bool)
        ensures
            r == self@.contains(e),
    {
        let i: u16 = e.index() as u16;
        (self.bits >> i) & 1 == 1
    }

    /// Puts the entrance into the set.
    pub fn insert(&mut self, e: Entrance)
        requires
            old(self).wf(),
        ensures
            final(self).wf(),
            final(self)@ == old(self)@.insert(e),
    {
        let i: u16 = e.index() as u16;
        let ghost before = *self;
        proof {
            lemma_bit_bounds(self.bits, 0, i);
            lemma_bit_bounds(self.bits, 1u16 << i, i);
        }
        self.bits = self.bits | (1u16 << i);
        proof {
            assert forall|f: Entrance| self@.contains(f) == before@.insert(e).contains(f) by {
                let j = f.spec_index() as u16;
                lemma_bit_or(before.bits, 1u16 << i, j);
                lemma_bit_single(i, j);
            }
        }
    }

    /// Takes every entrance of `other` out of the set.
    pub fn remove_all(&mut self, other: EntranceSet)
        requires
            old(self).wf(),
            other.wf(),
        ensures
            final(self).wf(),
            final(self)@ == old(self)@.difference(other@),
    {
        let ghost before = *self;
        proof {
            lemma_bit_bounds(self.bits, other.bits, 0);
        }
        self.bits = self.bits & !other.bits;
        proof {
            assert forall|f: Entrance|
                self@.contains(f) == before@.difference(other@).contains(f) by {
                lemma_bit_or(before.bits, other.bits, f.spec_index() as u16);
            }
        }
    }

    /// The entrances of both sets.
    pub fn union(self, other: EntranceSet) -> (r: EntranceSet)
        requires
            self.wf(),
            other.wf(),
        ensures
            r.wf(),
            r@ == self@.union(other@),
    {
        let r = EntranceSet { bits: self.bits | other.bits };
        proof {
            lemma_bit_bounds(self.bits, other.bits, 0);
            assert forall|f: Entrance| r@.contains(f) == self@.union(other@).contains(f) by {
                lemma_bit_or(self.bits, other.bits, f.spec_index() as u16);
            }
        }
        r
    }
}

} // verus!
