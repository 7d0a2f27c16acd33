//! The rules of play, stated over mathematical values: which slots are free
//! to leave the board, what one legal removal step is, and what it means for
//! a sequence of removals to be legal and to clear the board.
//!
//! A board position is a sequence of slot `Position`s; which tiles are still
//! on the board is a sequence of booleans of the same length.  Everything the
//! executable tracker and shuffler promise is phrased over these functions.

use vstd::prelude::*;

use crate::position::{neighbour_direction, Direction, Position};
use crate::tile_type::{matches_spec, TileType};

verus! {

/// Per-slot play state: `Blocked` tiles are on the board but covered or
/// boxed in, `Playable` tiles may be selected, `Played` tiles have left the
/// board.
#[derive(Clone, Copy, Debug, PartialEq, Eq, Structural)]
pub enum PlayState {
    Blocked,
    Playable,
    Played,
}

impl Default for PlayState {
    /// A slot starts out blocked until the tracker has looked at it.
    fn default() -> (r: PlayState)
        ensures
            r == PlayState::Blocked,
    {
        PlayState::Blocked
    }
}

/// Some slot still on the board neighbours slot `i` in direction `d`.
pub open spec fn has_present_neighbour(
    ps: Seq<Position>,
    pres: Seq<bool>,
    i: int,
    d: Direction,
) -> bool {
    exists|j: int|
        0 <= j < ps.len() && pres[j] && #[trigger] neighbour_direction(ps[i], ps[j]) == Some(d)
}

/// Slot `i` is free to leave the board: no tile still present rests on top
/// of it, and it is not boxed in by present tiles on both sides at once.
pub open spec fn slot_free(ps: Seq<Position>, pres: Seq<bool>, i: int) -> bool {
    !has_present_neighbour(ps, pres, i, Direction::Up) && !(has_present_neighbour(
        ps,
        pres,
        i,
        Direction::Left,
    ) && has_present_neighbour(ps, pres, i, Direction::Right))
}

/// The one play state a slot must have, given which tiles are present.
pub open spec fn canon_state(ps: Seq<Position>, pres: Seq<bool>, i: int) -> PlayState {
    if !pres[i] {
        PlayState::Played
    } else if slot_free(ps, pres, i) {
        PlayState::Playable
    } else {
        PlayState::Blocked
    }
}

/// The play states of every slot, given which tiles are present.
pub open spec fn canon(ps: Seq<Position>, pres: Seq<bool>) -> Seq<PlayState> {
    Seq::new(ps.len(), |i: int| canon_state(ps, pres, i))
}

/// A full board: every slot still present.
pub open spec fn all_present(n: int) -> Seq<bool> {
    Seq::new(n as nat, |i: int| true)
}

/// Which tiles a sequence of play states says are present.
pub open spec fn present_of(states: Seq<PlayState>) -> Seq<bool> {
    Seq::new(states.len(), |i: int| states[i] != PlayState::Played)
}

/// An empty board: no slot present any more.
pub open spec fn all_removed(pres: Seq<bool>) -> bool {
    forall|i: int| 0 <= i < pres.len() ==> !pres[i]
}

/// One legal removal step: both slots are distinct, present, and free in
/// turn, and their tiles match.
pub open spec fn step_ok(
    ps: Seq<Position>,
    ts: Seq<TileType>,
    pres: Seq<bool>,
    a: int,
    b: int,
) -> bool {
    0 <= a < ps.len() && 0 <= b < ps.len() && a != b && pres[a] && pres[b] && slot_free(ps, pres, a)
        && slot_free(ps, pres.update(a, false), b) && matches_spec(ts[a], ts[b])
}

/// Which tiles remain after playing the pairs of `h`, starting from a full
/// board of `n` slots.
pub open spec fn pres_after(n: int, h: Seq<(int, int)>) -> Seq<bool>
    decreases h.len(),
{
    if h.len() == 0 {
        all_present(n)
    } else {
        pres_after(n, h.drop_last()).update(h.last().0, false).update(h.last().1, false)
    }
}

/// The pairs of `h`, played in order from a full board, are all legal steps.
pub open spec fn hist_legal(ps: Seq<Position>, ts: Seq<TileType>, h: Seq<(int, int)>) -> bool
    decreases h.len(),
{
    if h.len() == 0 {
        true
    } else {
        hist_legal(ps, ts, h.drop_last()) && step_ok(
            ps,
            ts,
            pres_after(ps.len() as int, h.drop_last()),
            h.last().0,
            h.last().1,
        )
    }
}

/// `order` is a witness that the assignment `ts` is solvable: played from a
/// full board it is legal step by step and leaves the board empty.
pub open spec fn clears_board(ps: Seq<Position>, ts: Seq<TileType>, order: Seq<(int, int)>) -> bool {
    hist_legal(ps, ts, order) && all_removed(pres_after(ps.len() as int, order))
}

/// Removing tiles can only free a slot, never block it: a slot free on a
/// fuller board stays free on any board with fewer tiles present.
pub proof fn lemma_free_monotone(ps: Seq<Position>, p1: Seq<bool>, p2: Seq<bool>, i: int)
    requires
        p1.len() == ps.len(),
        p2.len() == ps.len(),
        forall|j: int| 0 <= j < p2.len() ==> p2[j] ==> p1[j],
        slot_free(ps, p1, i),
    ensures
        slot_free(ps, p2, i),
{
    assert forall|d: Direction|
        has_present_neighbour(ps, p2, i, d) implies has_present_neighbour(ps, p1, i, d) by {
        let j = choose|j: int|
            0 <= j < ps.len() && p2[j] && #[trigger] neighbour_direction(ps[i], ps[j]) == Some(d);
        assert(p1[j]);
        assert(has_present_neighbour(ps, p1, i, d));
    }
}

/// Changing only slot `t`'s presence cannot change whether slot `i` is
/// free, when `t` does not neighbour `i`.
pub proof fn lemma_free_unaffected(ps: Seq<Position>, p1: Seq<bool>, p2: Seq<bool>, i: int, t: int)
    requires
        p1.len() == ps.len(),
        p2.len() == ps.len(),
        forall|j: int| 0 <= j < ps.len() && j != t ==> p1[j] == p2[j],
        neighbour_direction(ps[i], ps[t]) is None,
    ensures
        slot_free(ps, p1, i) == slot_free(ps, p2, i),
{
    assert forall|d: Direction|
        has_present_neighbour(ps, p1, i, d) == has_present_neighbour(ps, p2, i, d) by {
        if has_present_neighbour(ps, p1, i, d) {
            let j = choose|j: int|
                0 <= j < ps.len() && p1[j] && #[trigger] neighbour_direction(ps[i], ps[j]) == Some(
                    d,
                );
            assert(j != t);
            assert(p2[j]);
            assert(has_present_neighbour(ps, p2, i, d));
        }
        if has_present_neighbour(ps, p2, i, d) {
            let j = choose|j: int|
                0 <= j < ps.len() && p2[j] && #[trigger] neighbour_direction(ps[i], ps[j]) == Some(
                    d,
                );
            assert(j != t);
            assert(p1[j]);
            assert(has_present_neighbour(ps, p1, i, d));
        }
    }
}

/// After any legal history the presence sequence still has one entry per
/// slot.
pub proof fn lemma_pres_after_len(ps: Seq<Position>, ts: Seq<TileType>, h: Seq<(int, int)>)
    requires
        hist_legal(ps, ts, h),
    ensures
        pres_after(ps.len() as int, h).len() == ps.len(),
    decreases h.len(),
{
    if h.len() > 0 {
        lemma_pres_after_len(ps, ts, h.drop_last());
    }
}

/// Every prefix of a legal play history is itself legal.
pub proof fn lemma_hist_legal_prefix(
    ps: Seq<Position>,
    ts: Seq<TileType>,
    h: Seq<(int, int)>,
    k: int,
)
    requires
        hist_legal(ps, ts, h),
        0 <= k <= h.len(),
    ensures
        hist_legal(ps, ts, h.take(k)),
    decreases h.len(),
{
    if k == h.len() {
        assert(h.take(k) =~= h);
    } else {
        assert(h.drop_last().take(k) =~= h.take(k));
        lemma_hist_legal_prefix(ps, ts, h.drop_last(), k);
    }
}

/// State consistency, spelt out: under the canonical states a slot is
/// Playable exactly when it is present, no present tile rests on it, and it
/// is not flanked by present tiles on both sides at once.
pub proof fn lemma_state_consistency(ps: Seq<Position>, pres: Seq<bool>, i: int)
    requires
        0 <= i < ps.len(),
    ensures
        (canon(ps, pres)[i] == PlayState::Playable) <==> (pres[i] && !has_present_neighbour(
            ps,
            pres,
            i,
            Direction::Up,
        ) && !(has_present_neighbour(ps, pres, i, Direction::Left) && has_present_neighbour(
            ps,
            pres,
            i,
            Direction::Right,
        ))),
{
}

/// The undo inverse law: playing a pair and then undoing it restores the
/// exact play state and history.  Undoing pops exactly the pair just
/// pushed, and the canonical states of the restored presence are the states
/// from before the pair was played.
pub proof fn lemma_play_undo_inverse(ps: Seq<Position>, h: Seq<(int, int)>, a: int, b: int)
    ensures
        h.push((a, b)).drop_last() == h,
        canon(ps, pres_after(ps.len() as int, h.push((a, b)).drop_last())) == canon(
            ps,
            pres_after(ps.len() as int, h),
        ),
{
    assert(h.push((a, b)).drop_last() =~= h);
}

} // verus!
