//! The layout shuffler: assigns one tile type per slot so that the board is
//! certifiably clearable.  The deal is built by walking a clearing of the
//! full board in reverse of the construction of its stacks: pairs of slots
//! are filled in an order in which they could legally be removed, so the
//! fill order doubles as a clearing witness.  The finished candidate is then
//! replayed against the play-state tracker, and only a candidate whose
//! replay legally empties the board is returned; anything else is discarded
//! whole and the shuffle starts over.

use vstd::prelude::*;

use crate::position::{Direction, Neighbour, Position};
use crate::rules::{
    all_removed, canon, canon_state, clears_board, hist_legal, lemma_free_monotone,
    lemma_hist_legal_prefix, pres_after, step_ok, PlayState,
};
use crate::tile_type::{counts_agree, same_counts, pool_pairs_matched, TileType};
use crate::tiles::{pairs_view, TileId, Tiles};
use crate::rng::rand_below;

verus! {

/// Raised when no certified assignment was found within the retry budget:
/// a board shape on which the placement rules essentially never succeed.
#[derive(Debug)]
pub struct ShuffleExhausted;

/// Replays `order` against a fresh play-state tracker for `positions` and
/// `types` and reports whether it is a legal sequence of matching-pair
/// removals that empties the board.
pub fn is_clearing_sequence(
    positions: Vec<Position>,
    types: Vec<TileType>,
    order: &Vec<(TileId, TileId)>,
) -> (r: bool)
    requires
        types@.len() == positions@.len(),
    ensures
        r == clears_board(positions@, types@, pairs_view(order@)),
{
    let mut t = Tiles::new(positions, types);
    let ghost ps = t.ps();
    let ghost ts = t.ts();
    let ghost o = pairs_view(order@);
    let n = t.tile_count();
    let len = order.len();
    for k in 0..len
        invariant
            t.wf(),
            t.ps() == ps,
            t.ts() == ts,
            ps == positions@,
            ts == types@,
            n as int == ps.len(),
            ts.len() == ps.len(),
            len == order@.len(),
            o == pairs_view(order@),
            o.len() == len,
            hist_legal(ps, ts, o.take(k as int)),
            t.pres() == pres_after(n as int, o.take(k as int)),
    {
        let ghost pk = t.pres();
        let (a, b) = order[k];
        proof {
            assert(o[k as int] == (a.0 as int, b.0 as int));
            assert(o.take(k + 1).drop_last() =~= o.take(k as int));
            assert(o.take(k + 1).last() == o[k as int]);
        }
        if a.0 >= n || b.0 >= n || a.0 == b.0 {
            proof {
                assert(!step_ok(ps, ts, pk, a.0 as int, b.0 as int));
                lemma_not_clearing(ps, ts, o, k as int);
            }
            return false;
        }
        if !t.is_playable(a) {
            proof {
                assert(t.states()[a.0 as int] == canon_state(ps, pk, a.0 as int));
                assert(!step_ok(ps, ts, pk, a.0 as int, b.0 as int));
                lemma_not_clearing(ps, ts, o, k as int);
            }
            return false;
        }
        if !t.are_matching(a, b) {
            proof {
                assert(!step_ok(ps, ts, pk, a.0 as int, b.0 as int));
                lemma_not_clearing(ps, ts, o, k as int);
            }
            return false;
        }
        t.play_tile(a);
        if !t.is_playable(b) {
            proof {
                assert(t.pres() == pk.update(a.0 as int, false));
                assert(t.states()[b.0 as int] == canon_state(ps, t.pres(), b.0 as int));
                assert(t.pres()[b.0 as int] == pk[b.0 as int]);
                assert(!step_ok(ps, ts, pk, a.0 as int, b.0 as int));
                lemma_not_clearing(ps, ts, o, k as int);
            }
            return false;
        }
        t.play_tile(b);
        proof {
            assert(t.states()[a.0 as int] == canon_state(ps, t.pres(), a.0 as int));
            assert(step_ok(ps, ts, pk, a.0 as int, b.0 as int));
            assert(t.pres() == pres_after(n as int, o.take(k + 1)));
            assert(hist_legal(ps, ts, o.take(k + 1)));
        }
    }
    proof {
        assert(o.take(len as int) =~= o);
    }
    for i in 0..n
        invariant
            t.wf(),
            t.ps() == ps,
            t.ts() == ts,
            ps == positions@,
            ts == types@,
            o == pairs_view(order@),
            n as int == ps.len(),
            hist_legal(ps, ts, o),
            t.pres() == pres_after(n as int, o),
            forall|m: int| 0 <= m < i ==> !t.pres()[m],
    {
        if !t.is_played(TileId(i)) {
            proof {
                assert(t.states()[i as int] == canon_state(ps, t.pres(), i as int));
                assert(t.pres()[i as int]);
                assert(!all_removed(pres_after(n as int, o)));
            }
            return false;
        }
        proof {
            assert(t.states()[i as int] == canon_state(ps, t.pres(), i as int));
            assert(!t.pres()[i as int]);
        }
    }
    proof {
        assert(all_removed(t.pres()));
    }
    true
}

/// If the step at position `k` of `o` is illegal for the board it then
/// faces, `o` clears no board.
proof fn lemma_not_clearing(ps: Seq<Position>, ts: Seq<TileType>, o: Seq<(int, int)>, k: int)
    requires
        0 <= k < o.len(),
        !step_ok(ps, ts, pres_after(ps.len() as int, o.take(k)), o[k].0, o[k].1),
    ensures
        !clears_board(ps, ts, o),
{
    if hist_legal(ps, ts, o) {
        lemma_hist_legal_prefix(ps, ts, o, k + 1);
        assert(o.take(k + 1).drop_last() =~= o.take(k));
        assert(o.take(k + 1).last() == o[k]);
        assert(step_ok(ps, ts, pres_after(ps.len() as int, o.take(k)), o[k].0, o[k].1));
    }
}


/// An element-wise copy of a vector of plain values.
fn duplicate<T: Copy>(v: &Vec<T>) -> (r: Vec<T>)
    ensures
        r@ == v@,
{
    let mut r: Vec<T> = Vec::new();
    let n = v.len();
    for i in 0..n
        invariant
            n == v@.len(),
            r@ =~= v@.take(i as int),
    {
        r.push(v[i]);
    }
    proof {
        assert(v@.take(n as int) =~= v@);
    }
    r
}

/// Picks which playable slot to fill next: a slot whose layer must be
/// drained now to stay clearable is preferred, otherwise the choice is
/// random.  A slot on layer `z` carries `2 * z` tiles below it in its
/// column at most, so when only `2 * z` tiles will remain after this pair,
/// such a slot cannot wait any longer.
fn pick_index(
    positions: &Vec<Position>,
    list: &Vec<TileId>,
    remaining_after: usize,
    rng: &mut rand::rngs::SmallRng,
) -> (r: usize)
    requires
        list@.len() > 0,
        forall|k: int| 0 <= k < list@.len() ==> (#[trigger] list@[k]).0 < positions@.len(),
    ensures
        r < list@.len(),
{
    let m = list.len();
    for k in 0..m
        invariant
            m == list@.len(),
            forall|k2: int| 0 <= k2 < list@.len() ==> (#[trigger] list@[k2]).0 < positions@.len(),
    {
        if positions[list[k].0].z as usize * 2 == remaining_after {
            return k;
        }
    }
    rand_below(rng, list.len())
}

/// One shuffle attempt: walks a full board with the play-state tracker,
/// repeatedly playing two random playable slots of a virtual clearing and
/// assigning them a fresh matching pair from the pool.  The order of play
/// is then itself a clearing witness for the assignment built.  Returns
/// nothing if fewer than two slots were playable while tiles remained.
fn shuffle_attempt(
    positions: &Vec<Position>,
    pool: &Vec<TileType>,
    rng: &mut rand::rngs::SmallRng,
) -> (r: Option<(Vec<TileType>, Vec<(TileId, TileId)>)>)
    requires
        pool@.len() == positions@.len(),
        positions@.len() % 2 == 0,
    ensures
        r is Some ==> r->Some_0.0@.len() == positions@.len(),
{
    let n = positions.len();
    if n == 0 {
        return Some((Vec::new(), Vec::new()));
    }
    let mut types: Vec<TileType> = vec![pool[0]; n];
    let mut remaining: Vec<TileType> = duplicate(pool);
    let mut t = Tiles::new(duplicate(positions), duplicate(&types));
    let mut order: Vec<(TileId, TileId)> = Vec::new();
    let pairs = n / 2;
    for k in 0..pairs
        invariant
            n == positions@.len(),
            n % 2 == 0,
            pairs == n / 2,
            t.wf(),
            n as int == t.n(),
            types@.len() == n,
            remaining@.len() == n - 2 * k,
    {
        let ghost ps = t.ps();
        let ghost p0 = t.pres();
        let ghost states0 = t.states();
        let playable = t.playable_tiles();
        let mut list = playable.tiles;
        if list.len() < 2 {
            return None;
        }
        let remaining_after = n - 2 * k - 2;
        let ghost list0 = list@;
        let i1 = pick_index(positions, &list, remaining_after, rng);
        let a = list.swap_remove(i1);
        proof {
            assert(a == list0[i1 as int]);
            assert forall|k2: int| 0 <= k2 < list@.len() implies (#[trigger] list@[k2]).0 < n
                && states0[list@[k2].0 as int] == PlayState::Playable && list@[k2] != a by {
                if k2 < i1 {
                    assert(list@[k2] == list0[k2]);
                    assert(list0[k2].0 < list0[i1 as int].0);
                } else if k2 == i1 {
                    assert(list@[k2] == list0[list0.len() - 1]);
                    assert(i1 < list0.len() - 1);
                    assert(list0[i1 as int].0 < list0[list0.len() - 1].0);
                } else {
                    assert(list@[k2] == list0[k2]);
                    assert(list0[i1 as int].0 < list0[k2].0);
                }
            }
        }
        t.play_tile(a);
        let i2 = pick_index(positions, &list, remaining_after, rng);
        let b = list.swap_remove(i2);
        proof {
            assert(b != a);
            assert(states0[b.0 as int] == PlayState::Playable);
            assert(states0[b.0 as int] == canon(ps, p0)[b.0 as int]);
            lemma_free_monotone(ps, p0, p0.update(a.0 as int, false), b.0 as int);
            assert(t.pres() == p0.update(a.0 as int, false));
            assert(t.states()[b.0 as int] == canon(ps, t.pres())[b.0 as int]);
            assert(t.states()[b.0 as int] == PlayState::Playable);
        }
        t.play_tile(b);
        let half = remaining.len() / 2;
        let ridx = rand_below(rng, half) * 2;
        let t1 = remaining.swap_remove(ridx + 1);
        let t2 = remaining.swap_remove(ridx);
        types.set(a.0, t1);
        types.set(b.0, t2);
        order.push((a, b));
    }
    Some((types, order))
}

/// Shuffles tile types onto the board until a certified deal is found: the
/// returned assignment draws exactly the given pool, and the returned
/// witness legally clears the board when replayed against the play-state
/// tracker.  An attempt that starves, or whose candidate the replay
/// refuses, is discarded whole and the shuffle restarts from scratch.
pub fn get_shuffled_types(
    positions: &Vec<Position>,
    pool: &Vec<TileType>,
    rng: &mut rand::rngs::SmallRng,
) -> (r: Result<(Vec<TileType>, Vec<(TileId, TileId)>), ShuffleExhausted>)
    requires
        pool@.len() == positions@.len(),
        positions@.len() % 2 == 0,
        pool_pairs_matched(pool@),
    ensures
        r is Ok ==> {
            &&& r->Ok_0.0@.len() == positions@.len()
            &&& same_counts(r->Ok_0.0@, pool@)
            &&& clears_board(positions@, r->Ok_0.0@, pairs_view(r->Ok_0.1@))
        },
{
    let attempt_limit: u64 = 100000;
    for _attempt in 0..attempt_limit
        invariant
            pool@.len() == positions@.len(),
            positions@.len() % 2 == 0,
    {
        if let Some((types, witness)) = shuffle_attempt(positions, pool, rng) {
            if counts_agree(&types, pool) {
                let ok = is_clearing_sequence(duplicate(positions), duplicate(&types), &witness);
                if ok {
                    return Ok((types, witness));
                }
            }
        }
    }
    Err(ShuffleExhausted)
}

} // verus!
