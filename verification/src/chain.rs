//! Walking the chain of entrances that starts at one side of one tile: into
//! the room there, through the room, out at its other side, into the room
//! next to it, and so on until a room has no entrance on the side the walk
//! comes to, an inner link is missing or locked, or the walk leaves the grid.

use vstd::prelude::*;
use crate::entrances::EntranceSet;
use crate::gates::{Gate, OpenedGates};
use crate::grid::{do_move, spec_do_move, Direction};
use crate::rooms::{Entrance, Room};

verus! {

/// A grid is nine rooms, tile by tile.
pub open spec fn is_grid(grid: Seq<Room>) -> bool {
    grid.len() == 9
}

/// What one round of the walk comes by, for a walk that stands at a side of a
/// tile.
#[derive(Debug, Clone, Copy, PartialEq, Eq, Structural)]
pub enum ChainStep {
    /// The room has no entrance on that side.
    End,
    /// The room has an entrance there, and its inner link is missing or
    /// locked.
    Single(Entrance),
    /// The walk went through the room and came out at the border of the grid.
    Double(Entrance, Entrance),
    /// The walk went through the room and stands at a side of the next tile.
    Onward(Entrance, Entrance, u8, Direction),
}

/// One round of the walk from a side of a tile.
pub open spec fn spec_chain_step(
    grid: Seq<Room>,
    gates: Set<Gate>,
    tile: u8,
    direction: Direction,
) -> ChainStep {
    if !is_grid(grid) || tile >= 9 {
        ChainStep::End
    } else {
        match Entrance::spec_from_room_direction(grid[tile as int], direction) {
            None => ChainStep::End,
            Some(e) => match e.spec_traverse_room(gates) {
                None => ChainStep::Single(e),
                Some(f) => match spec_do_move(tile as int, f.direction()) {
                    None => ChainStep::Double(e, f),
                    Some((t, d)) => ChainStep::Onward(e, f, t as u8, d),
                },
            },
        }
    }
}

/// A number that gets smaller with every round of a walk. No room joins its
/// upper side to its right side, so a walk that has once gone down or to the
/// left never goes up or to the right again: while it goes up or right the
/// tile's row minus its column falls, afterwards it rises.
pub open spec fn walk_rank(tile: u8, direction: Direction) -> nat {
    let slope = (tile as int) / 3 - (tile as int) % 3;
    if tile >= 9 {
        0
    } else if direction == Direction::Down || direction == Direction::Left {
        (10 + slope) as nat
    } else {
        (2 - slope) as nat
    }
}

/// Every round of a walk that goes on lowers its rank.
pub proof fn lemma_walk_rank(grid: Seq<Room>, gates: Set<Gate>, tile: u8, direction: Direction)
    ensures
        spec_chain_step(grid, gates, tile, direction) matches ChainStep::Onward(e, f, t, d) ==> t
            < 9 && walk_rank(t, d) < walk_rank(tile, direction) && Some((t as int, d))
            == spec_do_move(tile as int, f.direction()) && e.inner_link() == Some(f),
{
}

/// The entrances a walk comes by, in order, each with the tile it is on.
pub open spec fn chain(grid: Seq<Room>, gates: Set<Gate>, tile: u8, direction: Direction) -> Seq<
    (Entrance, u8),
>
    decreases walk_rank(tile, direction),
{
    match spec_chain_step(grid, gates, tile, direction) {
        ChainStep::End => Seq::empty(),
        ChainStep::Single(e) => seq![(e, tile)],
        ChainStep::Double(e, f) => seq![(e, tile), (f, tile)],
        ChainStep::Onward(e, f, t, d) => seq![(e, tile), (f, tile)] + chain(grid, gates, t, d),
    }
}

/// Does one round of the walk from a side of a tile.
pub fn chain_step(rooms: &[Room; 9], gates: OpenedGates, tile: u8, direction: Direction) -> (r:
    ChainStep)
    requires
        tile < 9,
    ensures
        r == spec_chain_step(rooms@, gates@, tile, direction),
{
    match Entrance::from_room_direction(rooms[tile as usize], direction) {
        None => ChainStep::End,
        Some(e) => match e.traverse_room(gates) {
            None => ChainStep::Single(e),
            Some(f) => match do_move(tile, f.to_room_direction().1) {
                None => ChainStep::Double(e, f),
                Some((t, d)) => ChainStep::Onward(e, f, t, d),
            },
        },
    }
}

/// What a walk that asks `check` at every entrance returns, said of the
/// entrances `visits` it would come by if nothing stopped it: the answer
/// of `check` at the first of them where it gives one, after it gave none at
/// those before; nothing, if it gives none at any.
pub open spec fn first_answer<T, F: Fn(Entrance, u8) -> Option<T>>(
    visits: Seq<(Entrance, u8)>,
    check: &F,
    r: Option<T>,
) -> bool {
    match r {
        Some(v) => exists|i: int|
            0 <= i < visits.len() && call_ensures(check, visits[i], Some(v)) && forall|j: int|
                0 <= j < i ==> call_ensures(check, #[trigger] visits[j], None::<T>),
        None => forall|j: int|
            0 <= j < visits.len() ==> call_ensures(check, #[trigger] visits[j], None::<T>),
    }
}

/// Walks the chain from a side of a tile and asks `check` at every entrance
/// on the way, until it gives an answer.
pub fn follow_chain<T, F: Fn(Entrance, u8) -> Option<T>>(
    rooms: &[Room; 9],
    gates: OpenedGates,
    tile: u8,
    direction: Direction,
    check: &F,
) -> (r: Option<T>)
    requires
        tile < 9,
        forall|e: Entrance, t: u8| t < 9 ==> call_requires(check, (e, t)),
    ensures
        first_answer(chain(rooms@, gates@, tile, direction), check, r),
{
    let ghost all = chain(rooms@, gates@, tile, direction);
    let ghost mut done: Seq<(Entrance, u8)> = Seq::empty();
    let mut at = tile;
    let mut side = direction;
    loop
        invariant
            at < 9,
            all == chain(rooms@, gates@, tile, direction),
            forall|e: Entrance, t: u8| t < 9 ==> call_requires(check, (e, t)),
            all == done + chain(rooms@, gates@, at, side),
            forall|j: int| 0 <= j < done.len() ==> call_ensures(check, #[trigger] done[j], None::<T>),
        decreases walk_rank(at, side),
    {
        match chain_step(rooms, gates, at, side) {
            ChainStep::End => {
                return None;
            },
            ChainStep::Single(e) => {
                let r = check(e, at);
                proof {
                    lemma_answer_at(done, seq![(e, at)], 0, check, r);
                }
                return r;
            },
            ChainStep::Double(e, f) => {
                let r = check(e, at);
                if r.is_some() {
                    proof {
                        lemma_answer_at(done, seq![(e, at), (f, at)], 0, check, r);
                    }
                    return r;
                }
                let r = check(f, at);
                proof {
                    lemma_answer_at(done, seq![(e, at), (f, at)], 1, check, r);
                }
                return r;
            },
            ChainStep::Onward(e, f, t, d) => {
                let ghost rest = chain(rooms@, gates@, t, d);
                let r = check(e, at);
                if r.is_some() {
                    proof {
                        lemma_answer_at(done, seq![(e, at), (f, at)] + rest, 0, check, r);
                    }
                    return r;
                }
                let r = check(f, at);
                if r.is_some() {
                    proof {
                        lemma_answer_at(done, seq![(e, at), (f, at)] + rest, 1, check, r);
                    }
                    return r;
                }
                proof {
                    let next = done + seq![(e, at), (f, at)];
                    done = next;
                }
                at = t;
                side = d;
            },
        }
    }
}

/// A walk that has had no answer at the entrances `done`, and none at the
/// first `k` of `rest`, and then has the answer `r` at the next one, or none
/// where `rest` ends there, has the first answer of the whole.
proof fn lemma_answer_at<T, F: Fn(Entrance, u8) -> Option<T>>(
    done: Seq<(Entrance, u8)>,
    rest: Seq<(Entrance, u8)>,
    k: int,
    check: &F,
    r: Option<T>,
)
    requires
        0 <= k < rest.len(),
        forall|j: int| 0 <= j < done.len() ==> call_ensures(check, #[trigger] done[j], None::<T>),
        forall|j: int| 0 <= j < k ==> call_ensures(check, #[trigger] rest[j], None::<T>),
        call_ensures(check, rest[k], r),
        r is None ==> k + 1 == rest.len(),
    ensures
        first_answer(done + rest, check, r),
{
    let all = done + rest;
    if r is Some {
        let i = done.len() + k;
        assert(0 <= i < all.len() && call_ensures(check, all[i], r));
    }
}

/// What `follow_chain_both` returns: the answer of the walk from the side of
/// the tile, if it has one; else that of the walk from the tile next to that
/// side, begun at the side that faces back, where there is such a tile.
pub open spec fn first_answer_both<T, F: Fn(Entrance, u8) -> Option<T>>(
    grid: Seq<Room>,
    gates: Set<Gate>,
    tile: u8,
    direction: Direction,
    check: &F,
    r: Option<T>,
) -> bool {
    ||| r is Some && first_answer(chain(grid, gates, tile, direction), check, r)
    ||| first_answer(chain(grid, gates, tile, direction), check, None::<T>) && match spec_do_move(
        tile as int,
        direction,
    ) {
        Some((t, d)) => first_answer(chain(grid, gates, t as u8, d), check, r),
        None => r is None,
    }
}

/// Walks the chain from a side of a tile and, if `check` gave no answer on
/// the way, the chain that starts one tile further on that side.
pub fn follow_chain_both<T, F: Fn(Entrance, u8) -> Option<T>>(
    rooms: &[Room; 9],
    gates: OpenedGates,
    tile: u8,
    direction: Direction,
    check: &F,
) -> (r: Option<T>)
    requires
        tile < 9,
        forall|e: Entrance, t: u8| t < 9 ==> call_requires(check, (e, t)),
    ensures
        first_answer_both(rooms@, gates@, tile, direction, check, r),
{
    let first = follow_chain(rooms, gates, tile, direction, check);
    if first.is_some() {
        return first;
    }
    match do_move(tile, direction) {
        Some((t, d)) => follow_chain(rooms, gates, t, d, check),
        None => None,
    }
}

/// The first of the entrances `visits` that `wanted` holds of, with its tile.
pub open spec fn first_where(visits: Seq<(Entrance, u8)>, wanted: spec_fn(Entrance) -> bool)
    -> Option<(Entrance, u8)>
    decreases visits.len(),
{
    if visits.len() == 0 {
        None
    } else if wanted(visits[0].0) {
        Some(visits[0])
    } else {
        first_where(visits.drop_first(), wanted)
    }
}

/// The entrances among `visits`.
pub open spec fn chain_entrances(visits: Seq<(Entrance, u8)>) -> Set<Entrance> {
    Set::new(|e: Entrance| exists|i: int| 0 <= i < visits.len() && (#[trigger] visits[i]).0 == e)
}

/// The gates that the entrances among `visits` open.
pub open spec fn chain_gates(visits: Seq<(Entrance, u8)>) -> Set<Gate> {
    Set::new(
        |g: Gate|
            exists|i: int|
                0 <= i < visits.len() && (#[trigger] visits[i]).0.spec_open_gate() == Some(g),
    )
}

/// What a walk finds that asks for the first entrance of which `wanted`
/// holds, however `check` goes about it, as long as it answers with the
/// entrance and the tile where `wanted` holds, and not at all where it does
/// not.
pub proof fn lemma_first_answer_where<F: Fn(Entrance, u8) -> Option<(Entrance, u8)>>(
    visits: Seq<(Entrance, u8)>,
    check: &F,
    wanted: spec_fn(Entrance) -> bool,
    r: Option<(Entrance, u8)>,
)
    requires
        first_answer(visits, check, r),
        forall|e: Entrance, t: u8, o: Option<(Entrance, u8)>|
            call_ensures(check, (e, t), o) ==> o == (if wanted(e) {
                Some((e, t))
            } else {
                None
            }),
    ensures
        r == first_where(visits, wanted),
    decreases visits.len(),
{
    if visits.len() > 0 {
        let rest = visits.drop_first();
        match r {
            Some(v) => {
                let i = choose|i: int|
                    0 <= i < visits.len() && call_ensures(check, visits[i], Some(v)) && forall|
                        j: int,
                    |
                        0 <= j < i ==> call_ensures(check, #[trigger] visits[j], None::<(Entrance, u8)>);
                if i > 0 {
                    assert(rest[i - 1] == visits[i]);
                    assert forall|j: int| 0 <= j < i - 1 implies call_ensures(
                        check,
                        #[trigger] rest[j],
                        None::<(Entrance, u8)>,
                    ) by {
                        assert(rest[j] == visits[j + 1]);
                    }
                    lemma_first_answer_where(rest, check, wanted, r);
                }
            },
            None => {
                assert(call_ensures(check, (visits[0].0, visits[0].1), None::<(Entrance, u8)>));
                assert forall|j: int| 0 <= j < rest.len() implies call_ensures(
                    check,
                    #[trigger] rest[j],
                    None::<(Entrance, u8)>,
                ) by {
                    assert(rest[j] == visits[j + 1]);
                }
                lemma_first_answer_where(rest, check, wanted, r);
            },
        }
    }
}

/// The first entrance of which `wanted` holds is among the entrances, it is
/// one of which `wanted` holds, and there is none if `wanted` holds of none.
pub proof fn lemma_first_where(visits: Seq<(Entrance, u8)>, wanted: spec_fn(Entrance) -> bool)
    ensures
        first_where(visits, wanted) matches Some(v) ==> wanted(v.0) && visits.contains(v),
        first_where(visits, wanted) is None ==> forall|i: int|
            0 <= i < visits.len() ==> !wanted((#[trigger] visits[i]).0),
    decreases visits.len(),
{
    if visits.len() > 0 && !wanted(visits[0].0) {
        let rest = visits.drop_first();
        lemma_first_where(rest, wanted);
        if first_where(visits, wanted) is None {
            assert forall|i: int| 0 <= i < visits.len() implies !wanted(
                (#[trigger] visits[i]).0,
            ) by {
                if i > 0 {
                    assert(rest[i - 1] == visits[i]);
                }
            }
        }
    }
}

/// Walks the chain from a side of a tile for the sake of what is on the way:
/// returns the entrances it came by and the gates that those entrances open.
/// The walk itself goes by the gates it was given.
pub fn scan_chain(rooms: &[Room; 9], gates: OpenedGates, tile: u8, direction: Direction) -> (r: (
    EntranceSet,
    OpenedGates,
))
    requires
        tile < 9,
    ensures
        r.0.wf(),
        r.1.wf(),
        r.0@ == chain_entrances(chain(rooms@, gates@, tile, direction)),
        r.1@ == chain_gates(chain(rooms@, gates@, tile, direction)),
{
    let ghost all = chain(rooms@, gates@, tile, direction);
    let ghost mut done: Seq<(Entrance, u8)> = Seq::empty();
    let mut seen = EntranceSet::empty();
    let mut opened = OpenedGates::empty();
    let mut at = tile;
    let mut side = direction;
    loop
        invariant
            at < 9,
            all == chain(rooms@, gates@, tile, direction),
            all == done + chain(rooms@, gates@, at, side),
            seen.wf(),
            opened.wf(),
            seen@ == chain_entrances(done),
            opened@ == chain_gates(done),
        decreases walk_rank(at, side),
    {
        match chain_step(rooms, gates, at, side) {
            ChainStep::End => {
                return (seen, opened);
            },
            ChainStep::Single(e) => {
                proof {
                    lemma_visit(done, (e, at));
                    assert(all =~= done.push((e, at)));
                }
                seen.insert(e);
                opened = note_gate(opened, e);
                return (seen, opened);
            },
            ChainStep::Double(e, f) => {
                proof {
                    lemma_visit(done, (e, at));
                    lemma_visit(done.push((e, at)), (f, at));
                    assert(all =~= done.push((e, at)).push((f, at)));
                }
                seen.insert(e);
                seen.insert(f);
                opened = note_gate(opened, e);
                opened = note_gate(opened, f);
                return (seen, opened);
            },
            ChainStep::Onward(e, f, t, d) => {
                proof {
                    lemma_visit(done, (e, at));
                    lemma_visit(done.push((e, at)), (f, at));
                    done = done.push((e, at)).push((f, at));
                }
                seen.insert(e);
                seen.insert(f);
                opened = note_gate(opened, e);
                opened = note_gate(opened, f);
                at = t;
                side = d;
            },
        }
    }
}

/// The gates with the one that the entrance opens, if it opens one.
fn note_gate(opened: OpenedGates, e: Entrance) -> (r: OpenedGates)
    requires
        opened.wf(),
    ensures
        r.wf(),
        r@ == match e.spec_open_gate() {
            Some(g) => opened@.insert(g),
            None => opened@,
        },
{
    match e.open_gate() {
        Some(g) => {
            let r = opened.union(g);
            r
        },
        None => opened,
    }
}

/// One more entrance on the way adds itself to the entrances, and what it
/// opens to the gates.
proof fn lemma_visit(done: Seq<(Entrance, u8)>, v: (Entrance, u8))
    ensures
        chain_entrances(done.push(v)) == chain_entrances(done).insert(v.0),
        chain_gates(done.push(v)) == match v.0.spec_open_gate() {
            Some(g) => chain_gates(done).insert(g),
            None => chain_gates(done),
        },
{
    let more = done.push(v);
    assert forall|e: Entrance| chain_entrances(more).contains(e) == chain_entrances(done).insert(
        v.0,
    ).contains(e) by {
        if chain_entrances(more).contains(e) {
            let i = choose|i: int| 0 <= i < more.len() && (#[trigger] more[i]).0 == e;
            if i < done.len() {
                assert(done[i] == more[i]);
            }
        }
        if chain_entrances(done).contains(e) {
            let i = choose|i: int| 0 <= i < done.len() && (#[trigger] done[i]).0 == e;
            assert(more[i] == done[i]);
        }
        if e == v.0 {
            assert(more[done.len() as int] == v);
        }
    }
    let target = match v.0.spec_open_gate() {
        Some(g) => chain_gates(done).insert(g),
        None => chain_gates(done),
    };
    assert forall|g: Gate| chain_gates(more).contains(g) == target.contains(g) by {
        if chain_gates(more).contains(g) {
            let i = choose|i: int|
                0 <= i < more.len() && (#[trigger] more[i]).0.spec_open_gate() == Some(g);
            if i < done.len() {
                assert(done[i] == more[i]);
            }
        }
        if chain_gates(done).contains(g) {
            let i = choose|i: int|
                0 <= i < done.len() && (#[trigger] done[i]).0.spec_open_gate() == Some(g);
            assert(more[i] == done[i]);
        }
        if v.0.spec_open_gate() == Some(g) {
            assert(more[done.len() as int] == v);
        }
    }
}

/// The first entrance of which `wanted` holds on the walk from a side of a
/// tile or, if there is none, on the walk that starts one tile further on
/// that side.
pub open spec fn first_where_both(
    grid: Seq<Room>,
    gates: Set<Gate>,
    tile: u8,
    direction: Direction,
    wanted: spec_fn(Entrance) -> bool,
) -> Option<(Entrance, u8)> {
    match first_where(chain(grid, gates, tile, direction), wanted) {
        Some(v) => Some(v),
        None => match spec_do_move(tile as int, direction) {
            Some((t, d)) => first_where(chain(grid, gates, t as u8, d), wanted),
            None => None,
        },
    }
}

/// What holds of the entrance `target` and of no other.
pub open spec fn is_entrance(target: Entrance) -> spec_fn(Entrance) -> bool {
    |e: Entrance| e == target
}

/// What holds of the entrances with a control panel.
pub open spec fn is_panel() -> spec_fn(Entrance) -> bool {
    |e: Entrance| e.spec_has_control_panel()
}

/// The tile on which a walk from a side of a tile, or else from one tile
/// further, first comes by the entrance `target`.
pub open spec fn spec_find_entrance(
    grid: Seq<Room>,
    gates: Set<Gate>,
    tile: u8,
    direction: Direction,
    target: Entrance,
) -> Option<u8> {
    match first_where_both(grid, gates, tile, direction, is_entrance(target)) {
        Some(v) => Some(v.1),
        None => None,
    }
}

/// The first entrance with a control panel on the walk from a side of a
/// tile, and the tile it is on.
pub open spec fn spec_find_panel(grid: Seq<Room>, gates: Set<Gate>, tile: u8, direction: Direction)
    -> Option<(Entrance, u8)> {
    first_where(chain(grid, gates, tile, direction), is_panel())
}

/// Looks for the entrance `target` on the walk from a side of a tile and, if
/// it is not there, on the walk that starts one tile further on that side.
pub fn find_entrance(
    rooms: &[Room; 9],
    gates: OpenedGates,
    tile: u8,
    direction: Direction,
    target: Entrance,
) -> (r: Option<u8>)
    requires
        tile < 9,
    ensures
        r == spec_find_entrance(rooms@, gates@, tile, direction, target),
{
    let check = |e: Entrance, t: u8| -> (o: Option<(Entrance, u8)>)
        ensures
            o == (if e == target {
                Some((e, t))
            } else {
                None
            }),
        {
            if e == target {
                Some((e, t))
            } else {
                None
            }
        };
    let found = follow_chain_both(rooms, gates, tile, direction, &check);
    proof {
        let wanted = is_entrance(target);
        let direct = chain(rooms@, gates@, tile, direction);
        if found is Some && first_answer(direct, &check, found) {
            lemma_first_answer_where(direct, &check, wanted, found);
        } else {
            lemma_first_answer_where(direct, &check, wanted, None);
            match spec_do_move(tile as int, direction) {
                Some((t, d)) => {
                    lemma_first_answer_where(chain(rooms@, gates@, t as u8, d), &check, wanted, found);
                },
                None => {},
            }
        }
    }
    match found {
        Some(v) => Some(v.1),
        None => None,
    }
}

/// Looks for the first entrance with a control panel on the walk from a side
/// of a tile.
pub fn find_panel(rooms: &[Room; 9], gates: OpenedGates, tile: u8, direction: Direction) -> (r:
    Option<(Entrance, u8)>)
    requires
        tile < 9,
    ensures
        r == spec_find_panel(rooms@, gates@, tile, direction),
{
    let check = |e: Entrance, t: u8| -> (o: Option<(Entrance, u8)>)
        ensures
            o == (if e.spec_has_control_panel() {
                Some((e, t))
            } else {
                None
            }),
        {
            if e.has_control_panel() {
                Some((e, t))
            } else {
                None
            }
        };
    let found = follow_chain(rooms, gates, tile, direction, &check);
    proof {
        lemma_first_answer_where(
            chain(rooms@, gates@, tile, direction),
            &check,
            is_panel(),
            found,
        );
    }
    found
}

} // verus!
