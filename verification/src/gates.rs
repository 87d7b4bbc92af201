//! The gates that lock the inner links of four rooms, and sets of them.

use vstd::prelude::*;

verus! {

/// A gate. Each one locks the inner link of one room until the player has
/// come by the entrance that opens it.
#[derive(Debug, Clone, Copy, PartialEq, Eq, Hash, Structural)]
pub enum Gate {
    Starting,
    EarthTemple,
    MiniBoss,
    FireSanctuary,
}

impl Gate {
    /// The bit that stands for this gate in a set of gates.
    pub open spec fn mask(self) -> u8 {
        match self {
            Gate::Starting => 1u8,
            Gate::EarthTemple => 2u8,
            Gate::MiniBoss => 4u8,
            Gate::FireSanctuary => 8u8,
        }
    }
}

/// What a set of gates needs to know about words below 16: how each of the
/// four bits fares under `|`, and what `&` says of inclusion.
pub proof fn lemma_gate_bits(a: u8, b: u8)
    requires
        a < 16,
        b < 16,
    ensures
        (a | b) < 16,
        (a | b) >= a,
        ((a | b) & 1 != 0) == (a & 1 != 0 || b & 1 != 0),
        ((a | b) & 2 != 0) == (a & 2 != 0 || b & 2 != 0),
        ((a | b) & 4 != 0) == (a & 4 != 0 || b & 4 != 0),
        ((a | b) & 8 != 0) == (a & 8 != 0 || b & 8 != 0),
        (a & b == b) == ((b & 1 != 0 ==> a & 1 != 0) && (b & 2 != 0 ==> a & 2 != 0) && (b & 4 != 0
            ==> a & 4 != 0) && (b & 8 != 0 ==> a & 8 != 0)),
        (a == b) == ((b & 1 != 0) == (a & 1 != 0) && (b & 2 != 0) == (a & 2 != 0) && (b & 4 != 0)
            == (a & 4 != 0) && (b & 8 != 0) == (a & 8 != 0)),
        a & b != b ==> (a | b) > a,
        a & b == a ==> (a | b) == b,
{
    assert((a | b) < 16) by (bit_vector)
        requires
            a < 16,
            b < 16,
    ;
    assert((a | b) >= a) by (bit_vector);
    assert(((a | b) & 1 != 0) == (a & 1 != 0 || b & 1 != 0)) by (bit_vector);
    assert(((a | b) & 2 != 0) == (a & 2 != 0 || b & 2 != 0)) by (bit_vector);
    assert(((a | b) & 4 != 0) == (a & 4 != 0 || b & 4 != 0)) by (bit_vector);
    assert(((a | b) & 8 != 0) == (a & 8 != 0 || b & 8 != 0)) by (bit_vector);
    assert((a & b == b) == ((b & 1 != 0 ==> a & 1 != 0) && (b & 2 != 0 ==> a & 2 != 0) && (b & 4
        != 0 ==> a & 4 != 0) && (b & 8 != 0 ==> a & 8 != 0))) by (bit_vector)
        requires
            a < 16,
            b < 16,
    ;
    assert((a == b) == ((b & 1 != 0) == (a & 1 != 0) && (b & 2 != 0) == (a & 2 != 0) && (b & 4
        != 0) == (a & 4 != 0) && (b & 8 != 0) == (a & 8 != 0))) by (bit_vector)
        requires
            a < 16,
            b < 16,
    ;
    assert(a & b == a ==> (a | b) == b) by (bit_vector);
}

/// A set of opened gates, kept as one bit per gate in a byte.
#[derive(Debug, Clone, Copy, PartialEq, Eq, Hash, Structural)]
pub struct OpenedGates {
    bits: u8,
}

impl View for OpenedGates {
    type V = Set<Gate>;

    closed spec fn view(&self) -> Set<Gate> {
        Set::new(|g: Gate| self.bits & g.mask() != 0)
    }
}

impl OpenedGates {
    /// The byte behind the set.
    pub closed spec fn spec_bits(&self) -> u8 {
        self.bits
    }

    /// Only the four bits of the four gates are ever set.
    pub open spec fn wf(&self) -> bool {
        self.spec_bits() < 16
    }

    /// Whether `g` is in the set.
    pub open spec fn has(&self, g: Gate) -> bool {
        self@.contains(g)
    }

    /// Sets of gates are equal when they hold the same gates.
    pub proof fn lemma_ext(self, other: OpenedGates)
        requires
            self.wf(),
            other.wf(),
            self@ == other@,
        ensures
            self == other,
    {
        lemma_gate_bits(self.bits, other.bits);
        assert(self.has(Gate::Starting) == other.has(Gate::Starting));
        assert(self.has(Gate::EarthTemple) == other.has(Gate::EarthTemple));
        assert(self.has(Gate::MiniBoss) == other.has(Gate::MiniBoss));
        assert(self.has(Gate::FireSanctuary) == other.has(Gate::FireSanctuary));
    }

    /// A set that holds the gates of another and more has the greater byte.
    pub proof fn lemma_proper_subset(self, other: OpenedGates)
        requires
            self.wf(),
            other.wf(),
            self@.subset_of(other@),
            self@ != other@,
        ensures
            self.spec_bits() < other.spec_bits(),
    {
        lemma_gate_bits(self.bits, other.bits);
        lemma_gate_bits(other.bits, self.bits);
        assert(self.has(Gate::Starting) ==> other.has(Gate::Starting));
        assert(self.has(Gate::EarthTemple) ==> other.has(Gate::EarthTemple));
        assert(self.has(Gate::MiniBoss) ==> other.has(Gate::MiniBoss));
        assert(self.has(Gate::FireSanctuary) ==> other.has(Gate::FireSanctuary));
        let a = self.bits;
        let b = other.bits;
        assert(a & b == a) by (bit_vector)
            requires
                b & a == a,
        ;
    }

    fn single(g: Gate) -> (r: OpenedGates)
        ensures
            r.wf(),
            r@ == set![g],
    {
        let bits: u8 = match g {
            Gate::Starting => 1,
            Gate::EarthTemple => 2,
            Gate::MiniBoss => 4,
            Gate::FireSanctuary => 8,
        };
        let r = OpenedGates { bits };
        proof {
            assert(1u8 & 1u8 != 0 && 1u8 & 2u8 == 0 && 1u8 & 4u8 == 0 && 1u8 & 8u8 == 0)
                by (bit_vector);
            assert(2u8 & 1u8 == 0 && 2u8 & 2u8 != 0 && 2u8 & 4u8 == 0 && 2u8 & 8u8 == 0)
                by (bit_vector);
            assert(4u8 & 1u8 == 0 && 4u8 & 2u8 == 0 && 4u8 & 4u8 != 0 && 4u8 & 8u8 == 0)
                by (bit_vector);
            assert(8u8 & 1u8 == 0 && 8u8 & 2u8 == 0 && 8u8 & 4u8 == 0 && 8u8 & 8u8 != 0)
                by (bit_vector);
        }
        r
    }

    /// No gate opened.
    pub fn empty() -> (r: OpenedGates)
        ensures
            r.wf(),
            r@ == Set::<Gate>::empty(),
            r.spec_bits() == 0,
    {
        let r = OpenedGates { bits: 0 };
        proof {
            assert forall|h: Gate| !r@.contains(h) by {
                let m = h.mask();
                assert(0u8 & m == 0) by (bit_vector);
            }
        }
        r
    }

    /// A set with the starting room's gate alone.
    pub fn starting() -> (r: OpenedGates)
        ensures
            r.wf(),
            r@ == set![Gate::Starting],
    {
        OpenedGates::single(Gate::Starting)
    }

    /// A set with the earth temple's gate alone.
    pub fn earth_temple() -> (r: OpenedGates)
        ensures
            r.wf(),
            r@ == set![Gate::EarthTemple],
    {
        OpenedGates::single(Gate::EarthTemple)
    }

    /// A set with the mini boss room's gate alone.
    pub fn mini_boss() -> (r: OpenedGates)
        ensures
            r.wf(),
            r@ == set![Gate::MiniBoss],
    {
        OpenedGates::single(Gate::MiniBoss)
    }

    /// A set with the fire sanctuary's gate alone.
    pub fn fire_sanctuary() -> (r: OpenedGates)
        ensures
            r.wf(),
            r@ == set![Gate::FireSanctuary],
    {
        OpenedGates::single(Gate::FireSanctuary)
    }

    /// The set that holds the given gate and no other.
    pub fn of(g: Gate) -> (r: OpenedGates)
        ensures
            r.wf(),
            r@ == set![g],
    {
        OpenedGates::single(g)
    }

    /// The byte behind the set: bit 0 for the starting room's gate, bit 1 for
    /// the earth temple's, bit 2 for the mini boss room's, bit 3 for the fire
    /// sanctuary's.
    pub fn bits(&self) -> (r: u8)
        ensures
            r == self.spec_bits(),
            forall|g: Gate| self@.contains(g) == (r & g.mask() != 0),
    {
        self.bits
    }

    /// The set with the given byte, if the byte sets no bit but those of the
    /// four gates.
    pub fn from_bits(bits: u8) -> (r: Option<OpenedGates>)
        ensures
            r is Some == (bits < 16),
            r matches Some(s) ==> s.wf() && s.spec_bits() == bits && forall|g: Gate|
                s@.contains(g) == (bits & g.mask() != 0),
    {
        if bits < 16 {
            Some(OpenedGates { bits })
        } else {
            None
        }
    }

    /// Whether no gate is opened.
    pub fn is_empty(&self) -> (r: bool)
        requires
            self.wf(),
        ensures
            r == (self@ == Set::<Gate>::empty()),
    {
        proof {
            let z = OpenedGates { bits: 0 };
            assert forall|h: Gate| !z@.contains(h) by {
                let m = h.mask();
                assert(0u8 & m == 0) by (bit_vector);
            }
            assert(z@ =~= Set::<Gate>::empty());
            if self@ == Set::<Gate>::empty() {
                self.lemma_ext(z);
            }
        }
        self.bits == 0
    }

    /// Whether `g` is opened.
    pub fn contains_gate(&self, g: Gate) -> (r: bool)
        ensures
            r == self@.contains(g),
    {
        let m: u8 = match g {
            Gate::Starting => 1,
            Gate::EarthTemple => 2,
            Gate::MiniBoss => 4,
            Gate::FireSanctuary => 8,
        };
        self.bits & m != 0
    }

    /// Whether every gate of `other` is in this set.
    pub fn contains(&self, other: OpenedGates) -> (r: bool)
        requires
            self.wf(),
            other.wf(),
        ensures
            r == other@.subset_of(self@),
    {
        proof {
            lemma_gate_bits(self.bits, other.bits);
            if other@.subset_of(self@) {
                assert(other.has(Gate::Starting) ==> self.has(Gate::Starting));
                assert(other.has(Gate::EarthTemple) ==> self.has(Gate::EarthTemple));
                assert(other.has(Gate::MiniBoss) ==> self.has(Gate::MiniBoss));
                assert(other.has(Gate::FireSanctuary) ==> self.has(Gate::FireSanctuary));
            }
        }
        self.bits & other.bits == other.bits
    }

    /// The gates of both sets.
    pub fn union(self, other: OpenedGates) -> (r: OpenedGates)
        requires
            self.wf(),
            other.wf(),
        ensures
            r.wf(),
            r@ == self@.union(other@),
            r.spec_bits() == self.spec_bits() | other.spec_bits(),
    {
        let r = OpenedGates { bits: self.bits | other.bits };
        proof {
            lemma_gate_bits(self.bits, other.bits);
        }
        r
    }
}

} // verus!
