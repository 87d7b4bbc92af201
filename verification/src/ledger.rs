//! What a search keeps true from step to step, and why its verdict is the
//! right one: it never notes what a closed map does not hold, and when it
//! gives up, what it has noted is a closed map.

use vstd::prelude::*;
use crate::gates::Gate;
use crate::progress::{
    below, closed, closed_under, covers, lemma_apply_valid, lemma_closed_start, lemma_closed_step,
    lemma_staying, opened_from, seen_from, solvable, staying,
};
use crate::rooms::Entrance;
use crate::state::{spec_apply, Operations, State};

verus! {

/// A state that a search has left for a state further on and will come back
/// to: the state, the place in the order of trying of the operation that led
/// on, and the gates that were opened when it did.
pub struct Pending {
    pub state: State,
    pub cursor: int,
    pub gates: Set<Gate>,
}

/// Whether the search has seen to the operation at place `j` for the state
/// `s` with the gates `gates`: what the operation makes of the state is
/// noted with those gates and the gates that the walk from it opens, and no
/// entrance the walk comes by is missing any more.
pub open spec fn done_at(
    m: Map<State, Set<Gate>>,
    missing: Set<Entrance>,
    s: State,
    gates: Set<Gate>,
    j: int,
) -> bool {
    spec_apply(Operations::at(j), s, gates) matches Some(n) ==> {
        &&& m.contains_key(n)
        &&& gates.subset_of(m[n])
        &&& opened_from(n, gates).subset_of(m[n])
        &&& seen_from(n, gates).disjoint(missing)
    }
}

/// Whether the search has seen to the first `k` operations.
pub open spec fn done_upto(
    m: Map<State, Set<Gate>>,
    missing: Set<Entrance>,
    s: State,
    gates: Set<Gate>,
    k: int,
) -> bool {
    forall|j: int| 0 <= j < k ==> #[trigger] done_at(m, missing, s, gates, j)
}

/// Whether the search never noted what a closed map does not hold, and
/// misses no entrance that a closed map fails to cover.
pub open spec fn sound(start: State, m: Map<State, Set<Gate>>, missing: Set<Entrance>) -> bool {
    forall|c: Map<State, Set<Gate>>| #[trigger]
        closed(c, start) ==> below(m, c) && forall|e: Entrance|
            !missing.contains(e) ==> covers(c, e)
}

/// Whether a state that was left waits with exactly the gates `gates`.
pub open spec fn waits(frames: Seq<Pending>, s: State, gates: Set<Gate>) -> bool {
    exists|i: int|
        0 <= i < frames.len() && (#[trigger] frames[i]).state == s && frames[i].gates == gates
}

/// Whether the states that were left are in order: each is noted with at
/// least the gates it was left with, the operations up to the one that led on
/// are seen to, and of two that are the same state the later was left with
/// the gates of the earlier and maybe more.
pub open spec fn frames_ok(
    m: Map<State, Set<Gate>>,
    missing: Set<Entrance>,
    frames: Seq<Pending>,
) -> bool {
    &&& forall|i: int|
        0 <= i < frames.len() ==> {
            let f = #[trigger] frames[i];
            &&& m.contains_key(f.state)
            &&& f.gates.subset_of(m[f.state])
            &&& 0 <= f.cursor < 8
            &&& done_upto(m, missing, f.state, f.gates, f.cursor + 1)
        }
    &&& forall|i: int, j: int|
        0 <= i < j < frames.len() && (#[trigger] frames[i]).state == (#[trigger] frames[j]).state
            ==> frames[i].gates.subset_of(frames[j].gates)
}

/// Whether every noted state is seen to for good, or is the one the search
/// is in, or waits with the gates it is noted with.
pub open spec fn tended(
    m: Map<State, Set<Gate>>,
    missing: Set<Entrance>,
    frames: Seq<Pending>,
    cur: State,
) -> bool {
    forall|s: State| #[trigger]
        m.contains_key(s) ==> done_upto(m, missing, s, m[s], 8) || s == cur || waits(
            frames,
            s,
            m[s],
        )
}

/// What a search keeps true: the table `m`, the entrances still `missing`,
/// the states that were left, the state `cur` it is in with the gates
/// `gates`, and the place `k` of the operation it tries next.
pub open spec fn search_inv(
    start: State,
    m: Map<State, Set<Gate>>,
    missing: Set<Entrance>,
    frames: Seq<Pending>,
    cur: State,
    gates: Set<Gate>,
    k: int,
) -> bool {
    &&& start.at_panel()
    &&& forall|s: State| #[trigger] m.contains_key(s) ==> s.at_panel()
    &&& m.contains_key(start)
    &&& opened_from(start, Set::empty()).subset_of(m[start])
    &&& sound(start, m, missing)
    &&& exists|e: Entrance| missing.contains(e)
    &&& m.contains_key(cur)
    &&& m[cur] == gates
    &&& 0 <= k <= 8
    &&& done_upto(m, missing, cur, gates, k)
    &&& frames_ok(m, missing, frames)
    &&& tended(m, missing, frames, cur)
}

/// What is seen to stays seen to when the table grows and entrances are
/// found.
pub proof fn lemma_done_stays(
    m: Map<State, Set<Gate>>,
    missing: Set<Entrance>,
    m2: Map<State, Set<Gate>>,
    missing2: Set<Entrance>,
    s: State,
    gates: Set<Gate>,
    k: int,
)
    requires
        below(m, m2),
        missing2.subset_of(missing),
        done_upto(m, missing, s, gates, k),
    ensures
        done_upto(m2, missing2, s, gates, k),
{
    assert forall|j: int| 0 <= j < k implies #[trigger] done_at(m2, missing2, s, gates, j) by {
        assert(done_at(m, missing, s, gates, j));
    }
}

/// The entrances that the first walk comes by are no longer missing, whatever
/// closed map one looks at.
pub proof fn lemma_first_look(start: State)
    ensures
        sound(
            start,
            Map::<State, Set<Gate>>::empty().insert(start, opened_from(start, Set::empty())),
            Set::<Entrance>::full().difference(seen_from(start, Set::empty())),
        ),
{
    let m = Map::<State, Set<Gate>>::empty().insert(start, opened_from(start, Set::empty()));
    let missing = Set::<Entrance>::full().difference(seen_from(start, Set::empty()));
    assert forall|c: Map<State, Set<Gate>>| #[trigger] closed(c, start) implies below(m, c)
        && forall|e: Entrance| !missing.contains(e) ==> covers(c, e) by {
        lemma_closed_start(c, start);
    }
}

/// Looking at what an operation makes of the state the search is in, and
/// taking the entrances that the walk from there comes by out of the missing
/// ones, takes out none that a closed map fails to cover.
pub proof fn lemma_look(
    start: State,
    m: Map<State, Set<Gate>>,
    missing: Set<Entrance>,
    cur: State,
    gates: Set<Gate>,
    op: Operations,
)
    requires
        sound(start, m, missing),
        cur.valid(),
        m.contains_key(cur),
        gates.subset_of(m[cur]),
        spec_apply(op, cur, gates) is Some,
    ensures
        sound(start, m, missing.difference(seen_from(spec_apply(op, cur, gates)->0, gates))),
{
    let n = spec_apply(op, cur, gates)->0;
    let missing2 = missing.difference(seen_from(n, gates));
    assert forall|c: Map<State, Set<Gate>>| #[trigger] closed(c, start) implies below(m, c)
        && forall|e: Entrance| !missing2.contains(e) ==> covers(c, e) by {
        lemma_closed_step(c, start, cur, gates, op);
    }
}

/// The search begins in order.
pub proof fn lemma_begin(start: State)
    requires
        start.at_panel(),
        exists|e: Entrance|
            Set::<Entrance>::full().difference(seen_from(start, Set::empty())).contains(e),
    ensures
        search_inv(
            start,
            Map::<State, Set<Gate>>::empty().insert(start, opened_from(start, Set::empty())),
            Set::<Entrance>::full().difference(seen_from(start, Set::empty())),
            Seq::<Pending>::empty(),
            start,
            opened_from(start, Set::empty()),
            0,
        ),
{
    lemma_first_look(start);
}

/// An operation that leads to a state which is noted with all the gates the
/// search would bring along is seen to.
pub proof fn lemma_prune(
    start: State,
    m: Map<State, Set<Gate>>,
    missing: Set<Entrance>,
    frames: Seq<Pending>,
    cur: State,
    gates: Set<Gate>,
    k: int,
    missing2: Set<Entrance>,
)
    requires
        search_inv(start, m, missing, frames, cur, gates, k),
        k < 8,
        spec_apply(Operations::at(k), cur, gates) matches Some(n) && m.contains_key(n)
            && gates.subset_of(m[n]) && opened_from(n, gates).subset_of(m[n]) && missing2
            == missing.difference(seen_from(n, gates)),
        exists|e: Entrance| missing2.contains(e),
    ensures
        search_inv(start, m, missing2, frames, cur, gates, k + 1),
{
    lemma_look(start, m, missing, cur, gates, Operations::at(k));
    lemma_all_stay(m, missing, frames, cur, m, missing2);
    lemma_done_stays(m, missing, m, missing2, cur, gates, k);
}

/// What is in order stays in order when the table grows at one state, or not
/// at all, and entrances are found: the states that were left, and every
/// noted state but the one at which the table grew.
proof fn lemma_all_stay(
    m: Map<State, Set<Gate>>,
    missing: Set<Entrance>,
    frames: Seq<Pending>,
    cur: State,
    m2: Map<State, Set<Gate>>,
    missing2: Set<Entrance>,
)
    requires
        frames_ok(m, missing, frames),
        tended(m, missing, frames, cur),
        below(m, m2),
        missing2.subset_of(missing),
    ensures
        frames_ok(m2, missing2, frames),
        forall|s: State|
            m.contains_key(s) && m2[s] == m[s] ==> done_upto(m2, missing2, s, m2[s], 8) || s == cur
                || waits(frames, s, m2[s]),
{
    assert forall|i: int| 0 <= i < frames.len() implies {
        let f = #[trigger] frames[i];
        &&& m2.contains_key(f.state)
        &&& f.gates.subset_of(m2[f.state])
        &&& 0 <= f.cursor < 8
        &&& done_upto(m2, missing2, f.state, f.gates, f.cursor + 1)
    } by {
        let f = frames[i];
        lemma_done_stays(m, missing, m2, missing2, f.state, f.gates, f.cursor + 1);
    }
    assert forall|s: State| m.contains_key(s) && m2[s] == m[s] implies done_upto(
        m2,
        missing2,
        s,
        m2[s],
        8,
    ) || s == cur || waits(frames, s, m2[s]) by {
        if done_upto(m, missing, s, m[s], 8) {
            lemma_done_stays(m, missing, m2, missing2, s, m[s], 8);
        }
    }
}

/// An operation that leads to a state which is not noted, or not with all
/// the gates the search brings along, takes the search there: the state is
/// noted with the gates it had and those brought along, and the state the
/// search was in is left for later.
pub proof fn lemma_descend(
    start: State,
    m: Map<State, Set<Gate>>,
    missing: Set<Entrance>,
    frames: Seq<Pending>,
    cur: State,
    gates: Set<Gate>,
    k: int,
    next: State,
    noted: Set<Gate>,
    missing2: Set<Entrance>,
)
    requires
        search_inv(start, m, missing, frames, cur, gates, k),
        k < 8,
        spec_apply(Operations::at(k), cur, gates) == Some(next),
        missing2 == missing.difference(seen_from(next, gates)),
        gates.subset_of(noted),
        opened_from(next, gates).subset_of(noted),
        m.contains_key(next) ==> m[next].subset_of(noted),
        forall|g: Gate|
            noted.contains(g) ==> gates.contains(g) || opened_from(next, gates).contains(g) || (
            m.contains_key(next) && m[next].contains(g)),
        exists|e: Entrance| missing2.contains(e),
    ensures
        search_inv(
            start,
            m.insert(next, noted),
            missing2,
            frames.push(Pending { state: cur, cursor: k, gates }),
            next,
            noted,
            0,
        ),
{
    let op = Operations::at(k);
    let m2 = m.insert(next, noted);
    let left = Pending { state: cur, cursor: k, gates };
    let frames2 = frames.push(left);
    lemma_apply_valid(op, cur, gates);
    lemma_look(start, m, missing, cur, gates, op);
    assert forall|c: Map<State, Set<Gate>>| #[trigger] closed(c, start) implies below(m2, c)
        && forall|e: Entrance| !missing2.contains(e) ==> covers(c, e) by {
        lemma_closed_step(c, start, cur, gates, op);
        assert forall|s: State| #[trigger] m2.contains_key(s) implies c.contains_key(s)
            && m2[s].subset_of(c[s]) by {
            if s == next {
                if m.contains_key(next) {
                    assert(m[next].subset_of(c[next]));
                }
            } else {
                assert(m.contains_key(s));
            }
        }
    }
    lemma_all_stay(m, missing, frames, cur, m2, missing2);
    lemma_done_stays(m, missing, m2, missing2, cur, gates, k);
    assert forall|j: int| 0 <= j < k + 1 implies #[trigger] done_at(m2, missing2, cur, gates, j) by {
        if j < k {
            assert(done_at(m2, missing2, cur, gates, j));
        }
    }
    assert forall|i: int| 0 <= i < frames2.len() implies {
        let f = #[trigger] frames2[i];
        &&& m2.contains_key(f.state)
        &&& f.gates.subset_of(m2[f.state])
        &&& 0 <= f.cursor < 8
        &&& done_upto(m2, missing2, f.state, f.gates, f.cursor + 1)
    } by {
        if i < frames.len() {
            assert(frames2[i] == frames[i]);
        }
    }
    assert forall|i: int, j: int|
        0 <= i < j < frames2.len() && (#[trigger] frames2[i]).state == (
        #[trigger] frames2[j]).state implies frames2[i].gates.subset_of(frames2[j].gates) by {
        if j < frames.len() {
            assert(frames2[j] == frames[j]);
        }
    }
    assert forall|s: State| #[trigger] m2.contains_key(s) implies done_upto(
        m2,
        missing2,
        s,
        m2[s],
        8,
    ) || s == next || waits(frames2, s, m2[s]) by {
        if s != next {
            if s == cur {
                assert(frames2[frames.len() as int] == left);
            } else if waits(frames, s, m2[s]) {
                let i = choose|i: int|
                    0 <= i < frames.len() && (#[trigger] frames[i]).state == s && frames[i].gates
                        == m2[s];
                assert(frames2[i] == frames[i]);
            }
        }
    }
}

/// When every operation is seen to, the search goes back to the state it
/// left last, with the gates that state is noted with, and goes on after the
/// operation that had led on.
pub proof fn lemma_pop(
    start: State,
    m: Map<State, Set<Gate>>,
    missing: Set<Entrance>,
    frames: Seq<Pending>,
    cur: State,
    gates: Set<Gate>,
)
    requires
        search_inv(start, m, missing, frames, cur, gates, 8),
        frames.len() > 0,
    ensures
        search_inv(
            start,
            m,
            missing,
            frames.drop_last(),
            frames.last().state,
            m[frames.last().state],
            frames.last().cursor + 1,
        ),
{
    let f = frames.last();
    let rest = frames.drop_last();
    let last = frames.len() - 1;
    assert(frames[last] == f);
    if f.gates =~= m[f.state] {
    } else if f.state == cur {
    } else if waits(frames, f.state, m[f.state]) {
        let i = choose|i: int|
            0 <= i < frames.len() && (#[trigger] frames[i]).state == f.state && frames[i].gates
                == m[f.state];
        if i < last {
            assert(frames[i].gates.subset_of(frames[last].gates));
            assert(f.gates =~= m[f.state]);
        }
    } else {
        assert(m.contains_key(f.state));
    }
    assert(done_upto(m, missing, f.state, m[f.state], f.cursor + 1)) by {
        assert forall|j: int| 0 <= j < f.cursor + 1 implies #[trigger] done_at(
            m,
            missing,
            f.state,
            m[f.state],
            j,
        ) by {
            if f.gates =~= m[f.state] {
                assert(done_at(m, missing, f.state, f.gates, j));
            } else {
                assert(done_upto(m, missing, f.state, m[f.state], 8));
            }
        }
    }
    assert forall|i: int| 0 <= i < rest.len() implies {
        let g = #[trigger] rest[i];
        &&& m.contains_key(g.state)
        &&& g.gates.subset_of(m[g.state])
        &&& 0 <= g.cursor < 8
        &&& done_upto(m, missing, g.state, g.gates, g.cursor + 1)
    } by {
        assert(rest[i] == frames[i]);
    }
    assert forall|i: int, j: int|
        0 <= i < j < rest.len() && (#[trigger] rest[i]).state == (
        #[trigger] rest[j]).state implies rest[i].gates.subset_of(rest[j].gates) by {
        assert(rest[i] == frames[i]);
        assert(rest[j] == frames[j]);
    }
    assert forall|s: State| #[trigger] m.contains_key(s) implies done_upto(
        m,
        missing,
        s,
        m[s],
        8,
    ) || s == f.state || waits(rest, s, m[s]) by {
        if s != cur && s != f.state && waits(frames, s, m[s]) {
            let i = choose|i: int|
                0 <= i < frames.len() && (#[trigger] frames[i]).state == s && frames[i].gates
                    == m[s];
            assert(rest[i] == frames[i]);
        }
    }
}

/// When every operation is seen to and no state is left to go back to, the
/// table is a closed map that fails to cover a missing entrance: the player
/// cannot come by every entrance.
pub proof fn lemma_exhausted(
    start: State,
    m: Map<State, Set<Gate>>,
    missing: Set<Entrance>,
    cur: State,
    gates: Set<Gate>,
)
    requires
        search_inv(start, m, missing, Seq::<Pending>::empty(), cur, gates, 8),
    ensures
        !solvable(start),
{
    assert forall|s: State, op: Operations| m.contains_key(s) implies #[trigger] closed_under(
        m,
        s,
        op,
    ) by {
        assert(done_at(m, missing, s, m[s], op.spec_index()));
    }
    assert(closed(m, start));
    let e = choose|e: Entrance| missing.contains(e);
    if covers(m, e) {
        let s = choose|s: State| m.contains_key(s) && #[trigger] seen_from(s, m[s]).contains(e);
        let op = staying(s.entrance()->0);
        lemma_staying(s, m[s]);
        assert(done_at(m, missing, s, m[s], op.spec_index()));
    }
}

} // verus!
