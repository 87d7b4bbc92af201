//! The table in which a search notes, for every state it has been in, the
//! gates it had opened there.

use std::collections::HashMap;
use vstd::prelude::*;
use crate::gates::{Gate, OpenedGates};
use crate::grid::Direction;
use crate::rooms::Room;
use crate::state::{RoomAndPos, State};

verus! {

broadcast use vstd::std_specs::hash::group_hash_axioms;

/// Every key of the table lies below this number.
pub open spec fn key_limit() -> int {
    0x400_0000_0000
}

/// The number of a side of a tile, from 0 to 3.
pub open spec fn direction_code(d: Direction) -> int {
    match d {
        Direction::Up => 0,
        Direction::Left => 1,
        Direction::Down => 2,
        Direction::Right => 3,
    }
}

/// The first `n` tiles of a grid as one number, four bits for every tile.
pub open spec fn grid_code(grid: Seq<Room>, n: int) -> int
    decreases n,
{
    if n <= 0 {
        0
    } else {
        grid_code(grid, n - 1) * 16 + grid[n - 1].spec_index()
    }
}

/// The key under which the table keeps a state.
pub open spec fn state_key(s: State) -> int {
    (grid_code(s.grid, 9) * 16 + s.tile) * 4 + direction_code(s.direction)
}

/// A state that the table can keep: nine tiles and a place on them.
pub open spec fn has_key(s: State) -> bool {
    s.grid.len() == 9 && s.tile < 9
}

proof fn lemma_grid_code_bound(grid: Seq<Room>, n: int)
    requires
        0 <= n <= 9,
    ensures
        0 <= grid_code(grid, n),
        n == 0 ==> grid_code(grid, n) < 1,
        n == 1 ==> grid_code(grid, n) < 0x10,
        n == 2 ==> grid_code(grid, n) < 0x100,
        n == 3 ==> grid_code(grid, n) < 0x1000,
        n == 4 ==> grid_code(grid, n) < 0x1_0000,
        n == 5 ==> grid_code(grid, n) < 0x10_0000,
        n == 6 ==> grid_code(grid, n) < 0x100_0000,
        n == 7 ==> grid_code(grid, n) < 0x1000_0000,
        n == 8 ==> grid_code(grid, n) < 0x1_0000_0000,
        n == 9 ==> grid_code(grid, n) < 0x10_0000_0000,
    decreases n,
{
    if n > 0 {
        lemma_grid_code_bound(grid, n - 1);
    }
}

proof fn lemma_grid_code_injective(a: Seq<Room>, b: Seq<Room>, n: int)
    requires
        0 <= n <= 9,
        grid_code(a, n) == grid_code(b, n),
    ensures
        forall|i: int| 0 <= i < n ==> a[i] == b[i],
    decreases n,
{
    if n > 0 {
        lemma_grid_code_injective(a, b, n - 1);
    }
}

/// Different states have different keys, and every key lies below the limit.
pub proof fn lemma_state_key(a: State, b: State)
    requires
        has_key(a),
        has_key(b),
    ensures
        0 <= state_key(a) < key_limit(),
        state_key(a) == state_key(b) ==> a == b,
{
    lemma_grid_code_bound(a.grid, 9);
    if state_key(a) == state_key(b) {
        lemma_grid_code_injective(a.grid, b.grid, 9);
        assert(a.grid =~= b.grid);
    }
}

/// What an entry of the table still leaves to be gained: sixteen where there
/// is none, else what its byte lacks of fifteen.
pub open spec fn room_left(map: Map<u64, OpenedGates>, key: int) -> nat {
    if 0 <= key <= u64::MAX && map.contains_key(key as u64) {
        if map[key as u64].spec_bits() < 16 {
            (15 - map[key as u64].spec_bits()) as nat
        } else {
            0
        }
    } else {
        16
    }
}

/// What the entries with a key below `n` still leave to be gained.
pub open spec fn room_left_below(map: Map<u64, OpenedGates>, n: int) -> nat
    decreases n,
{
    if n <= 0 {
        0
    } else {
        room_left_below(map, n - 1) + room_left(map, n - 1)
    }
}

proof fn lemma_room_left(
    before: Map<u64, OpenedGates>,
    after: Map<u64, OpenedGates>,
    key: u64,
    n: int,
)
    requires
        0 <= n,
        forall|k: u64| k != key ==> before.contains_key(k) == after.contains_key(k),
        forall|k: u64| k != key && before.contains_key(k) ==> before[k] == after[k],
    ensures
        n <= key ==> room_left_below(after, n) == room_left_below(before, n),
        n > key ==> room_left_below(after, n) + room_left(before, key as int) == room_left_below(
            before,
            n,
        ) + room_left(after, key as int),
    decreases n,
{
    if n > 0 {
        lemma_room_left(before, after, key, n - 1);
    }
}

/// The table of a search.
pub struct MemoTable {
    map: HashMap<u64, OpenedGates>,
}

impl View for MemoTable {
    type V = Map<State, Set<Gate>>;

    closed spec fn view(&self) -> Map<State, Set<Gate>> {
        Map::new(
            |s: State| has_key(s) && self.map@.contains_key(state_key(s) as u64),
            |s: State| self.map@[state_key(s) as u64]@,
        )
    }
}

impl MemoTable {
    /// Every key is the key of a state, and no entry holds anything but
    /// gates.
    pub closed spec fn wf(&self) -> bool {
        forall|k: u64| #[trigger]
            self.map@.contains_key(k) ==> k < key_limit() && self.map@[k].wf()
    }

    /// What the table still leaves to be gained. It falls whenever a state
    /// is noted for the first time and whenever a state gains a gate.
    pub closed spec fn room_left(&self) -> nat {
        room_left_below(self.map@, key_limit())
    }

    /// A table with no entry.
    pub fn new() -> (r: MemoTable)
        ensures
            r.wf(),
            r@ == Map::<State, Set<Gate>>::empty(),
    {
        let r = MemoTable { map: HashMap::new() };
        r
    }

    /// The gates noted for a state, if any are.
    pub fn get(&self, place: &RoomAndPos) -> (r: Option<OpenedGates>)
        requires
            self.wf(),
            place@.tile < 9,
        ensures
            r is Some == self@.contains_key(place@),
            r matches Some(g) ==> g.wf() && g@ == self@[place@],
    {
        let key = key_of(place);
        proof {
            place.lemma_nine_tiles();
        }
        match self.map.get(&key) {
            Some(g) => Some(*g),
            None => None,
        }
    }

    /// Notes the gates for a state, in place of what was noted before.
    pub fn insert(&mut self, place: &RoomAndPos, gates: OpenedGates)
        requires
            old(self).wf(),
            gates.wf(),
            place@.tile < 9,
        ensures
            final(self).wf(),
            final(self)@ == old(self)@.insert(place@, gates@),
            !old(self)@.contains_key(place@) || (old(self)@[place@].subset_of(gates@) && old(
                self,
            )@[place@] != gates@) ==> final(self).room_left() < old(self).room_left(),
    {
        let key = key_of(place);
        let ghost before = *self;
        self.map.insert(key, gates);
        proof {
            let s = place@;
            place.lemma_nine_tiles();
            assert forall|t: State| self@.contains_key(t) == before@.insert(s, gates@).contains_key(
                t,
            ) by {
                if has_key(t) {
                    lemma_state_key(s, t);
                    lemma_state_key(t, t);
                }
            }
            assert forall|t: State| self@.contains_key(t) implies self@[t] == before@.insert(
                s,
                gates@,
            )[t] by {
                lemma_state_key(s, t);
                lemma_state_key(t, t);
            }
            lemma_room_left(before.map@, self.map@, key, key_limit());
            if before@.contains_key(s) && before@[s].subset_of(gates@) && before@[s] != gates@ {
                before.map@[key].lemma_proper_subset(gates);
            }
        }
    }
}

/// The key of a place.
fn key_of(place: &RoomAndPos) -> (r: u64)
    requires
        place@.tile < 9,
    ensures
        r == state_key(place@),
        r < key_limit(),
{
    let rooms = place.rooms();
    let mut code: u64 = 0;
    let mut i: usize = 0;
    while i < 9
        invariant
            i <= 9,
            rooms@ == place@.grid,
            code == grid_code(rooms@, i as int),
        decreases 9 - i,
    {
        proof {
            lemma_grid_code_bound(rooms@, i as int);
        }
        code = code * 16 + rooms[i].index() as u64;
        i = i + 1;
    }
    proof {
        lemma_grid_code_bound(rooms@, 9);
    }
    let side: u64 = match place.pos_direction() {
        Direction::Up => 0,
        Direction::Left => 1,
        Direction::Down => 2,
        Direction::Right => 3,
    };
    (code * 16 + place.pos_tile() as u64) * 4 + side
}

} // verus!
