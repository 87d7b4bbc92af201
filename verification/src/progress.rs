//! What a search can come by, said without a search: the maps from states to
//! gates that hold the start and are closed under the operations, and the
//! entrances that such a map covers.

use vstd::prelude::*;
use crate::chain::{
    chain, chain_entrances, chain_gates, first_where, is_entrance, lemma_first_where,
    lemma_walk_rank, spec_chain_step, spec_find_entrance, walk_rank, ChainStep,
};
use crate::gates::Gate;
use crate::grid::{spec_do_move, Direction};
use crate::rooms::{lemma_entrance_round_trip, lemma_traverse_monotone, Entrance, Room};
use crate::state::{
    empty_tile, is_empty_tile, spec_apply, swapped, valid_grid, OperationKind, Operations, State,
};

verus! {

/// The entrances that the walk from the player's place comes by.
pub open spec fn seen_from(s: State, gates: Set<Gate>) -> Set<Entrance> {
    chain_entrances(chain(s.grid, gates, s.tile, s.direction))
}

/// The gates that the walk from the player's place opens.
pub open spec fn opened_from(s: State, gates: Set<Gate>) -> Set<Gate> {
    chain_gates(chain(s.grid, gates, s.tile, s.direction))
}

/// Whether `a` is the beginning of `b`.
pub open spec fn begins<A>(a: Seq<A>, b: Seq<A>) -> bool {
    a.len() <= b.len() && forall|i: int| 0 <= i < a.len() ==> a[i] == b[i]
}

/// Every entrance of a walk is an entrance of the room on its tile.
pub proof fn lemma_chain_tiles(grid: Seq<Room>, gates: Set<Gate>, tile: u8, direction: Direction)
    ensures
        forall|i: int|
            0 <= i < chain(grid, gates, tile, direction).len() ==> {
                let v = #[trigger] chain(grid, gates, tile, direction)[i];
                v.1 < 9 && grid[v.1 as int] == v.0.room()
            },
        spec_chain_step(grid, gates, tile, direction) matches ChainStep::End || (chain(
            grid,
            gates,
            tile,
            direction,
        ).len() > 0 && chain(grid, gates, tile, direction)[0] == (
            Entrance::spec_from_room_direction(grid[tile as int], direction)->0,
            tile,
        )),
    decreases walk_rank(tile, direction),
{
    lemma_walk_rank(grid, gates, tile, direction);
    let c = chain(grid, gates, tile, direction);
    match spec_chain_step(grid, gates, tile, direction) {
        ChainStep::End => {},
        ChainStep::Single(e) => {
            lemma_entrance_round_trip(e, grid[tile as int], direction);
        },
        ChainStep::Double(e, f) => {
            lemma_entrance_round_trip(e, grid[tile as int], direction);
        },
        ChainStep::Onward(e, f, t, d) => {
            lemma_entrance_round_trip(e, grid[tile as int], direction);
            lemma_chain_tiles(grid, gates, t, d);
            let rest = chain(grid, gates, t, d);
            assert forall|i: int| 0 <= i < c.len() implies {
                let v = #[trigger] c[i];
                v.1 < 9 && grid[v.1 as int] == v.0.room()
            } by {
                if i >= 2 {
                    assert(c[i] == rest[i - 2]);
                }
            }
        },
    }
}

/// With more gates opened a walk begins as it did with fewer.
pub proof fn lemma_chain_monotone(
    grid: Seq<Room>,
    g1: Set<Gate>,
    g2: Set<Gate>,
    tile: u8,
    direction: Direction,
)
    requires
        g1.subset_of(g2),
    ensures
        begins(chain(grid, g1, tile, direction), chain(grid, g2, tile, direction)),
    decreases walk_rank(tile, direction),
{
    lemma_walk_rank(grid, g1, tile, direction);
    lemma_walk_rank(grid, g2, tile, direction);
    let c1 = chain(grid, g1, tile, direction);
    let c2 = chain(grid, g2, tile, direction);
    match spec_chain_step(grid, g1, tile, direction) {
        ChainStep::End => {},
        ChainStep::Single(e) => {},
        ChainStep::Double(e, f) => {
            lemma_traverse_monotone(e, g1, g2);
        },
        ChainStep::Onward(e, f, t, d) => {
            lemma_traverse_monotone(e, g1, g2);
            lemma_chain_monotone(grid, g1, g2, t, d);
            let r1 = chain(grid, g1, t, d);
            let r2 = chain(grid, g2, t, d);
            assert forall|i: int| 0 <= i < c1.len() implies c1[i] == c2[i] by {
                if i >= 2 {
                    assert(c1[i] == r1[i - 2]);
                    assert(c2[i] == r2[i - 2]);
                }
            }
        },
    }
}

/// A walk that begins as another comes by what the other comes by, and finds
/// first what the other finds first.
pub proof fn lemma_begins(
    a: Seq<(Entrance, u8)>,
    b: Seq<(Entrance, u8)>,
    wanted: spec_fn(Entrance) -> bool,
)
    requires
        begins(a, b),
    ensures
        chain_entrances(a).subset_of(chain_entrances(b)),
        chain_gates(a).subset_of(chain_gates(b)),
        first_where(a, wanted) is Some ==> first_where(b, wanted) == first_where(a, wanted),
    decreases a.len(),
{
    if a.len() > 0 {
        if !wanted(a[0].0) {
            let ra = a.drop_first();
            let rb = b.drop_first();
            lemma_begins(ra, rb, wanted);
        }
    }
}

/// With more gates opened the walk from a place comes by what it came by
/// with fewer, and opens what it opened.
pub proof fn lemma_walk_monotone(s: State, g1: Set<Gate>, g2: Set<Gate>)
    requires
        g1.subset_of(g2),
    ensures
        seen_from(s, g1).subset_of(seen_from(s, g2)),
        opened_from(s, g1).subset_of(opened_from(s, g2)),
{
    lemma_chain_monotone(s.grid, g1, g2, s.tile, s.direction);
}

/// What a walk finds for an entrance is the tile of the entrance's room.
proof fn lemma_found_tile(
    grid: Seq<Room>,
    gates: Set<Gate>,
    tile: u8,
    direction: Direction,
    target: Entrance,
)
    ensures
        first_where(chain(grid, gates, tile, direction), is_entrance(target)) matches Some(v)
            ==> v.0 == target && v.1 < 9 && grid[v.1 as int] == target.room(),
{
    let c = chain(grid, gates, tile, direction);
    lemma_first_where(c, is_entrance(target));
    lemma_chain_tiles(grid, gates, tile, direction);
}

/// On a grid as the game knows it, what the search for an entrance finds is
/// the tile of the entrance's room.
pub proof fn lemma_find_entrance(
    grid: Seq<Room>,
    gates: Set<Gate>,
    tile: u8,
    direction: Direction,
    target: Entrance,
)
    requires
        tile < 9,
    ensures
        spec_find_entrance(grid, gates, tile, direction, target) matches Some(t) ==> t < 9
            && grid[t as int] == target.room(),
{
    lemma_found_tile(grid, gates, tile, direction, target);
    match spec_do_move(tile as int, direction) {
        Some((t, d)) => {
            lemma_found_tile(grid, gates, t as u8, d, target);
        },
        None => {},
    }
}

/// Opening gates takes no operation away and changes none: what an operation
/// makes of a state with the gates `g1`, it makes of it with any gates `g2`
/// that hold those of `g1`.
pub proof fn lemma_apply_monotone(op: Operations, s: State, g1: Set<Gate>, g2: Set<Gate>)
    requires
        s.valid(),
        g1.subset_of(g2),
        spec_apply(op, s, g1) is Some,
    ensures
        spec_apply(op, s, g2) == spec_apply(op, s, g1),
{
    match op.spec_kind() {
        OperationKind::Reach(mover) => {
            let target = mover.spec_panel();
            let wanted = is_entrance(target);
            let d1 = chain(s.grid, g1, s.tile, s.direction);
            let d2 = chain(s.grid, g2, s.tile, s.direction);
            lemma_chain_monotone(s.grid, g1, g2, s.tile, s.direction);
            lemma_begins(d1, d2, wanted);
            lemma_find_entrance(s.grid, g1, s.tile, s.direction, target);
            lemma_find_entrance(s.grid, g2, s.tile, s.direction, target);
            lemma_found_tile(s.grid, g2, s.tile, s.direction, target);
            if first_where(d1, wanted) is None {
                match spec_do_move(s.tile as int, s.direction) {
                    Some((t, d)) => {
                        lemma_chain_monotone(s.grid, g1, g2, t as u8, d);
                        lemma_begins(
                            chain(s.grid, g1, t as u8, d),
                            chain(s.grid, g2, t as u8, d),
                            wanted,
                        );
                    },
                    None => {},
                }
                let t1 = spec_find_entrance(s.grid, g1, s.tile, s.direction, target)->0;
                let t2 = spec_find_entrance(s.grid, g2, s.tile, s.direction, target)->0;
                assert(spec_find_entrance(s.grid, g2, s.tile, s.direction, target) is Some);
                if t1 != t2 {
                    if t1 < t2 {
                        assert(s.grid[t1 as int] != s.grid[t2 as int]);
                    } else {
                        assert(s.grid[t2 as int] != s.grid[t1 as int]);
                    }
                }
            }
        },
        OperationKind::Move(direction) => {},
    }
}

/// Exchanging the blank slot with another tile leaves the grid one as the
/// game knows it.
pub proof fn lemma_swapped_valid(grid: Seq<Room>, a: int, b: int)
    requires
        valid_grid(grid),
        0 <= a < 9,
        0 <= b < 9,
    ensures
        valid_grid(swapped(grid, a, b)),
{
    let after = swapped(grid, a, b);
    let src = |i: int|
        if i == a {
            b
        } else if i == b {
            a
        } else {
            i
        };
    let k = choose|k: int| 0 <= k < 9 && grid[k] == Room::Empty;
    assert(after[src(k)] == Room::Empty);
}

/// An operation leaves the state one of the game, and a player who stood at
/// a control panel stands at one afterwards.
pub proof fn lemma_apply_valid(op: Operations, s: State, gates: Set<Gate>)
    requires
        s.valid(),
        spec_apply(op, s, gates) is Some,
    ensures
        spec_apply(op, s, gates)->0.valid(),
        s.at_panel() ==> spec_apply(op, s, gates)->0.at_panel(),
{
    match op.spec_kind() {
        OperationKind::Reach(mover) => {
            let target = mover.spec_panel();
            lemma_find_entrance(s.grid, gates, s.tile, s.direction, target);
        },
        OperationKind::Move(direction) => {
            let blank = empty_tile(s.grid);
            let k = choose|k: int| 0 <= k < 9 && s.grid[k] == Room::Empty;
            lemma_first_empty(s.grid, k);
            let moved = spec_do_move(blank, direction)->0;
            lemma_swapped_valid(s.grid, blank, moved.0);
        },
    }
}

/// A grid that holds the blank slot has a first tile that holds it.
pub proof fn lemma_first_empty(grid: Seq<Room>, k: int)
    requires
        0 <= k < grid.len(),
        grid[k] == Room::Empty,
    ensures
        is_empty_tile(grid, empty_tile(grid)),
    decreases k,
{
    if forall|j: int| 0 <= j < k ==> grid[j] != Room::Empty {
        assert(is_empty_tile(grid, k));
    } else {
        let j = choose|j: int| 0 <= j < k && grid[j] == Room::Empty;
        lemma_first_empty(grid, j);
    }
}

/// The operation that takes the player to the control panel he stands at.
pub open spec fn staying(e: Entrance) -> Operations {
    match e {
        Entrance::StartRight => Operations::ReachMoverStart,
        Entrance::LanayruMiningFacilityDown => Operations::ReachMoverLanayruMiningFacility,
        Entrance::EarthTempleDown => Operations::ReachMoverEarthTemple,
        _ => Operations::ReachMoverMiniBoss,
    }
}

/// A player who stands at a control panel can have himself taken to it, and
/// stays where he is.
pub proof fn lemma_staying(s: State, gates: Set<Gate>)
    requires
        s.at_panel(),
    ensures
        spec_apply(staying(s.entrance()->0), s, gates) == Some(s),
{
    let e = s.entrance()->0;
    lemma_chain_tiles(s.grid, gates, s.tile, s.direction);
    lemma_entrance_round_trip(e, s.grid[s.tile as int], s.direction);
    let c = chain(s.grid, gates, s.tile, s.direction);
    assert(c[0] == (e, s.tile));
    assert(is_entrance(e)(c[0].0));
}

/// Whether the map holds what `op` makes of the state `s` with the gates the
/// map has for `s`, and has for it at least those gates and the gates that
/// the walk from it opens.
pub open spec fn closed_under(m: Map<State, Set<Gate>>, s: State, op: Operations) -> bool {
    spec_apply(op, s, m[s]) matches Some(n) ==> m.contains_key(n) && m[s].subset_of(m[n])
        && opened_from(n, m[s]).subset_of(m[n])
}

/// A map from states to gates that no search from `start` can get out of: it
/// holds `start` with the gates that the first walk opens, and it is closed
/// under every operation.
pub open spec fn closed(m: Map<State, Set<Gate>>, start: State) -> bool {
    &&& m.contains_key(start)
    &&& opened_from(start, Set::empty()).subset_of(m[start])
    &&& forall|s: State, op: Operations| m.contains_key(s) ==> #[trigger] closed_under(m, s, op)
}

/// Whether a walk from some state of the map, with the gates the map has for
/// it, comes by the entrance.
pub open spec fn covers(m: Map<State, Set<Gate>>, e: Entrance) -> bool {
    exists|s: State| m.contains_key(s) && #[trigger] seen_from(s, m[s]).contains(e)
}

/// Whether the player who starts in `start` with no gate opened can come by
/// every entrance: whether every closed map covers every entrance. The
/// closed maps have a least one, which holds the states that can be come to
/// and for each the gates that can be opened by then; what that one covers,
/// all cover.
pub open spec fn solvable(start: State) -> bool {
    forall|m: Map<State, Set<Gate>>, e: Entrance| closed(m, start) ==> #[trigger] covers(m, e)
}

/// The least closed map: it holds a state where every closed map holds it,
/// with the gates that every closed map has for it. These are the states
/// that can be come to, and for each the gates that can be opened by then.
pub open spec fn least_closed(start: State) -> Map<State, Set<Gate>> {
    Map::new(
        |s: State| forall|m: Map<State, Set<Gate>>| #[trigger] closed(m, start) ==> m.contains_key(s),
        |s: State|
            Set::new(
                |g: Gate|
                    forall|m: Map<State, Set<Gate>>| #[trigger]
                        closed(m, start) ==> m[s].contains(g),
            ),
    )
}

/// Whether the first map holds no state that the second does not hold, and
/// for none a gate that the second does not have for it.
pub open spec fn below(m: Map<State, Set<Gate>>, n: Map<State, Set<Gate>>) -> bool {
    forall|s: State| #[trigger] m.contains_key(s) ==> n.contains_key(s) && m[s].subset_of(n[s])
}

/// What a closed map holds of a state and its gates, it holds of what an
/// operation makes of them: the new state, the gates, the gates that the
/// walk from the new state opens, and the entrances it comes by.
pub proof fn lemma_closed_step(
    m: Map<State, Set<Gate>>,
    start: State,
    s: State,
    gates: Set<Gate>,
    op: Operations,
)
    requires
        closed(m, start),
        s.valid(),
        m.contains_key(s),
        gates.subset_of(m[s]),
        spec_apply(op, s, gates) is Some,
    ensures
        ({
            let n = spec_apply(op, s, gates)->0;
            &&& m.contains_key(n)
            &&& gates.subset_of(m[n])
            &&& opened_from(n, gates).subset_of(m[n])
            &&& forall|e: Entrance| seen_from(n, gates).contains(e) ==> covers(m, e)
        }),
{
    let n = spec_apply(op, s, gates)->0;
    lemma_apply_monotone(op, s, gates, m[s]);
    assert(closed_under(m, s, op));
    lemma_walk_monotone(n, gates, m[s]);
    lemma_walk_monotone(n, gates, m[n]);
    assert forall|e: Entrance| seen_from(n, gates).contains(e) implies covers(m, e) by {
        assert(seen_from(n, m[n]).contains(e));
    }
}

/// What a closed map holds of the start: the gates that the first walk
/// opens, and the entrances it comes by.
pub proof fn lemma_closed_start(m: Map<State, Set<Gate>>, start: State)
    requires
        closed(m, start),
    ensures
        forall|e: Entrance| seen_from(start, Set::empty()).contains(e) ==> covers(m, e),
{
    lemma_walk_monotone(start, Set::empty(), m[start]);
}

/// The least closed map is closed, it lies below every closed map, and the
/// player can come by every entrance just when it covers every entrance.
pub proof fn lemma_least_closed(start: State)
    requires
        start.at_panel(),
    ensures
        closed(least_closed(start), start),
        forall|m: Map<State, Set<Gate>>| #[trigger] closed(m, start) ==> below(least_closed(start), m),
        solvable(start) <==> forall|e: Entrance| covers(least_closed(start), e),
{
    let least = least_closed(start);
    let panels = Map::<State, Set<Gate>>::new(|s: State| s.at_panel(), |s: State| Set::<Gate>::full());
    assert(closed(panels, start)) by {
        assert forall|s: State, op: Operations| panels.contains_key(s) implies #[trigger] closed_under(
            panels,
            s,
            op,
        ) by {
            if spec_apply(op, s, panels[s]) is Some {
                lemma_apply_valid(op, s, panels[s]);
            }
        }
    }
    assert forall|s: State, op: Operations| least.contains_key(s) implies #[trigger] closed_under(
        least,
        s,
        op,
    ) by {
        if spec_apply(op, s, least[s]) is Some {
            let n = spec_apply(op, s, least[s])->0;
            assert(panels.contains_key(s));
            assert forall|m: Map<State, Set<Gate>>| #[trigger] closed(m, start) implies m.contains_key(
                n,
            ) && least[s].subset_of(m[n]) && opened_from(n, least[s]).subset_of(m[n]) by {
                assert(least[s].subset_of(m[s]));
                lemma_closed_step(m, start, s, least[s], op);
            }
        }
    }
    assert forall|m: Map<State, Set<Gate>>| #[trigger] closed(m, start) implies below(least, m) by {
        assert forall|s: State| #[trigger] least.contains_key(s) implies m.contains_key(s)
            && least[s].subset_of(m[s]) by {}
    }
    if forall|e: Entrance| covers(least, e) {
        assert forall|m: Map<State, Set<Gate>>, e: Entrance| closed(m, start) implies #[trigger] covers(
            m,
            e,
        ) by {
            assert(covers(least, e));
            let s = choose|s: State|
                least.contains_key(s) && #[trigger] seen_from(s, least[s]).contains(e);
            assert(least[s].subset_of(m[s]));
            lemma_walk_monotone(s, least[s], m[s]);
            assert(seen_from(s, m[s]).contains(e));
        }
    }
}

/// Where a sequence of operations leads from `start` for a player who
/// remembers nothing: the state he is in after the last of them, and the
/// gates he has opened on the way to it. Every operation is done with the
/// gates opened on the way so far. Nothing if one of them cannot be done.
pub open spec fn plain_walk(start: State, ops: Seq<Operations>) -> Option<(State, Set<Gate>)>
    decreases ops.len(),
{
    if ops.len() == 0 {
        Some((start, Set::empty()))
    } else {
        match plain_walk(start, ops.drop_last()) {
            Some((s, gates)) => {
                let had = gates.union(opened_from(s, gates));
                match spec_apply(ops.last(), s, had) {
                    Some(n) => Some((n, had)),
                    None => None,
                }
            },
            None => None,
        }
    }
}

/// Whether a player who remembers nothing comes by the entrance on the walk
/// from the state that the sequence of operations leads him to.
pub open spec fn comes_by(start: State, ops: Seq<Operations>, e: Entrance) -> bool {
    match plain_walk(start, ops) {
        Some((s, gates)) => seen_from(s, gates).contains(e),
        None => false,
    }
}

/// Whether there is a sequence of operations on which a player who remembers
/// nothing comes by the entrance.
pub open spec fn found_plainly(start: State, e: Entrance) -> bool {
    exists|ops: Seq<Operations>| #[trigger] comes_by(start, ops, e)
}

/// Whatever a player who remembers nothing comes to, every closed map holds:
/// the state, the gates he brings, the gates that the walk from it opens, and
/// the entrances it comes by.
pub proof fn lemma_plain_walk(start: State, ops: Seq<Operations>, m: Map<State, Set<Gate>>)
    requires
        start.at_panel(),
        closed(m, start),
        plain_walk(start, ops) is Some,
    ensures
        ({
            let (s, gates) = plain_walk(start, ops)->0;
            &&& s.at_panel()
            &&& m.contains_key(s)
            &&& gates.subset_of(m[s])
            &&& opened_from(s, gates).subset_of(m[s])
            &&& forall|e: Entrance| seen_from(s, gates).contains(e) ==> covers(m, e)
        }),
    decreases ops.len(),
{
    if ops.len() == 0 {
        lemma_closed_start(m, start);
    } else {
        lemma_plain_walk(start, ops.drop_last(), m);
        let (s, gates) = plain_walk(start, ops.drop_last())->0;
        let had = gates.union(opened_from(s, gates));
        lemma_apply_valid(ops.last(), s, had);
        lemma_closed_step(m, start, s, had, ops.last());
    }
}

/// Remembering loses no solution: if for every entrance there is a sequence
/// of operations on which a player who remembers nothing comes by it, then
/// every closed map covers every entrance.
pub proof fn lemma_no_solution_lost(start: State)
    requires
        start.at_panel(),
        forall|e: Entrance| #[trigger] found_plainly(start, e),
    ensures
        solvable(start),
{
    assert forall|m: Map<State, Set<Gate>>, e: Entrance| closed(m, start) implies #[trigger] covers(
        m,
        e,
    ) by {
        assert(found_plainly(start, e));
        let ops = choose|ops: Seq<Operations>| #[trigger] comes_by(start, ops, e);
        lemma_plain_walk(start, ops, m);
    }
}

/// A player who remembers nothing never runs out of operations: after every
/// sequence of operations he can do one more, so a search that remembers
/// nothing never comes to say that a grid cannot be solved.
pub proof fn lemma_plain_walk_goes_on(start: State, ops: Seq<Operations>)
    requires
        start.at_panel(),
        plain_walk(start, ops) is Some,
    ensures
        exists|op: Operations| #[trigger] plain_walk(start, ops.push(op)) is Some,
    decreases ops.len(),
{
    let m = Map::<State, Set<Gate>>::total(|s: State| Set::<Gate>::full());
    lemma_plain_walk(start, ops, m);
    let (s, gates) = plain_walk(start, ops)->0;
    let had = gates.union(opened_from(s, gates));
    let op = staying(s.entrance()->0);
    lemma_staying(s, had);
    assert(ops.push(op).drop_last() =~= ops);
    assert(plain_walk(start, ops.push(op)) is Some);
}

} // verus!
