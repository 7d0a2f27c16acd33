//! The play-state tracker: one tile per slot, each Blocked, Playable or
//! Played, kept canonical with the rules of play after every change.  A
//! change to one tile re-evaluates only that tile's direct neighbours, never
//! the whole board.

use vstd::prelude::*;

use crate::graph::{create_neighbour_list, graph_wf, lemma_absent_edge, lists_view};
use crate::position::{neighbour_direction, Direction, Neighbour, Position};
use crate::rules::{
    all_present, canon, canon_state, has_present_neighbour, lemma_free_unaffected, present_of,
    slot_free, PlayState,
};
use crate::tile_type::{matches_spec, TileType};

verus! {

/// A stable slot index into all per-slot arrays of one board.
#[derive(Clone, Copy, Debug, PartialEq, Eq, Structural)]
pub struct TileId(pub usize);

/// The currently playable slots, in ascending order.
#[derive(Clone, Debug)]
pub struct PlayableTiles {
    pub tiles: Vec<TileId>,
}

/// The mathematical view of a vector of slot pairs.
pub open spec fn pairs_view(h: Seq<(TileId, TileId)>) -> Seq<(int, int)> {
    Seq::new(h.len(), |k: int| (h[k].0.0 as int, h[k].1.0 as int))
}

/// All per-slot data of one board: geometry, adjacency, tile types and the
/// live play states.
pub struct Tiles {
    positions: Vec<Position>,
    neighbours: Vec<Vec<Neighbour>>,
    types: Vec<TileType>,
    states: Vec<PlayState>,
}

impl Tiles {
    /// The slot positions.
    pub closed spec fn ps(&self) -> Seq<Position> {
        self.positions@
    }

    /// The adjacency lists.
    pub closed spec fn graph(&self) -> Seq<Seq<Neighbour>> {
        lists_view(self.neighbours@)
    }

    /// The tile type of every slot.
    pub closed spec fn ts(&self) -> Seq<TileType> {
        self.types@
    }

    /// The play state of every slot.
    pub closed spec fn states(&self) -> Seq<PlayState> {
        self.states@
    }

    /// The number of slots.
    pub open spec fn n(&self) -> int {
        self.ps().len() as int
    }

    /// Which tiles are still on the board.
    pub open spec fn pres(&self) -> Seq<bool> {
        present_of(self.states())
    }

    /// Structural well-formedness: the adjacency lists match the geometry
    /// and every per-slot array has one entry per slot.
    pub open spec fn structure_wf(&self) -> bool {
        &&& graph_wf(self.ps(), self.graph())
        &&& self.ts().len() == self.n()
        &&& self.states().len() == self.n()
    }

    /// Full well-formedness: on top of the structure, every slot's play
    /// state is exactly what the rules of play demand for the tiles
    /// currently present.  This is the state-consistency invariant: a slot
    /// is Playable exactly when it is present, nothing present rests on it,
    /// and it is not boxed in on both sides by present tiles.
    pub open spec fn wf(&self) -> bool {
        &&& self.structure_wf()
        &&& self.states() == canon(self.ps(), self.pres())
    }

    /// Scans slot `tile`'s neighbour list for a tile in direction
    /// `direction` that has not been played.
    fn any_unplayed_neighbour_in_direction(&self, tile: usize, direction: Direction) -> (r: bool)
        requires
            self.structure_wf(),
            tile < self.n(),
        ensures
            r == has_present_neighbour(self.ps(), self.pres(), tile as int, direction),
    {
        let list_len = self.neighbours[tile].len();
        for k in 0..list_len
            invariant
                self.structure_wf(),
                tile < self.n(),
                list_len == self.graph()[tile as int].len(),
                forall|k2: int|
                    0 <= k2 < k ==> !((#[trigger] self.graph()[tile as int][k2]).direction
                        == direction && self.pres()[self.graph()[tile as int][k2].id as int]),
        {
            let entry = self.neighbours[tile][k];
            proof {
                assert(entry == self.graph()[tile as int][k as int]);
            }
            if entry.direction == direction && self.states[entry.id] != PlayState::Played {
                proof {
                    assert(self.pres()[entry.id as int]);
                    assert(neighbour_direction(self.ps()[tile as int], self.ps()[entry.id as int])
                        == Some(direction));
                }
                return true;
            }
        }
        proof {
            if has_present_neighbour(self.ps(), self.pres(), tile as int, direction) {
                let j = choose|j: int|
                    0 <= j < self.ps().len() && self.pres()[j] && #[trigger] neighbour_direction(
                        self.ps()[tile as int],
                        self.ps()[j],
                    ) == Some(direction);
                let k = choose|k: int|
                    0 <= k < self.graph()[tile as int].len() && (#[trigger] self.graph()[tile as int][k]).id
                        == j && Some(self.graph()[tile as int][k].direction) == neighbour_direction(
                        self.ps()[tile as int],
                        self.ps()[j],
                    );
                assert(self.graph()[tile as int][k].direction == direction);
                assert(false);
            }
        }
        false
    }

    /// Builds the tracker for a fresh board: derives the adjacency graph
    /// from the positions and puts every slot in its initial state, Playable
    /// exactly where the rules of play allow a first removal.
    pub fn new(positions: Vec<Position>, types: Vec<TileType>) -> (r: Tiles)
        requires
            types@.len() == positions@.len(),
        ensures
            r.wf(),
            r.ps() == positions@,
            r.ts() == types@,
            r.pres() == all_present(r.n()),
    {
        let neighbours = create_neighbour_list(&positions);
        let mut r = Tiles { positions, neighbours, types, states: Vec::new() };
        let n = r.positions.len();
        for i in 0..n
            invariant
                n == r.n(),
                r.ps() == positions@,
                r.ts() == types@,
                graph_wf(r.ps(), r.graph()),
                r.ts().len() == r.n(),
                r.states@.len() == i,
                forall|m: int|
                    0 <= m < i ==> r.states()[m] == canon_state(r.ps(), all_present(r.n()), m),
        {
            let state = r.initial_state(i);
            r.states.push(state);
        }
        proof {
            assert(r.pres() =~= all_present(r.n()));
            assert(r.states() =~= canon(r.ps(), r.pres()));
        }
        r
    }

    /// The play state a slot must start out in on a full board, computed
    /// from its neighbour list alone.
    fn initial_state(&self, i: usize) -> (r: PlayState)
        requires
            graph_wf(self.ps(), self.graph()),
            i < self.n(),
        ensures
            r == canon_state(self.ps(), all_present(self.n()), i as int),
    {
        let mut any_up = false;
        let mut any_left = false;
        let mut any_right = false;
        let list_len = self.neighbours[i].len();
        for k in 0..list_len
            invariant
                graph_wf(self.ps(), self.graph()),
                i < self.n(),
                list_len == self.graph()[i as int].len(),
                any_up == exists|k2: int|
                    0 <= k2 < k && (#[trigger] self.graph()[i as int][k2]).direction
                        == Direction::Up,
                any_left == exists|k2: int|
                    0 <= k2 < k && (#[trigger] self.graph()[i as int][k2]).direction
                        == Direction::Left,
                any_right == exists|k2: int|
                    0 <= k2 < k && (#[trigger] self.graph()[i as int][k2]).direction
                        == Direction::Right,
        {
            let entry = self.neighbours[i][k];
            proof {
                assert(entry == self.graph()[i as int][k as int]);
            }
            if entry.direction == Direction::Up {
                any_up = true;
            }
            if entry.direction == Direction::Left {
                any_left = true;
            }
            if entry.direction == Direction::Right {
                any_right = true;
            }
        }
        proof {
            self.lemma_edge_presence(i as int, Direction::Up, any_up);
            self.lemma_edge_presence(i as int, Direction::Left, any_left);
            self.lemma_edge_presence(i as int, Direction::Right, any_right);
        }
        if any_up || (any_left && any_right) {
            PlayState::Blocked
        } else {
            PlayState::Playable
        }
    }

    /// On a full board, having an edge in a direction is the same as having
    /// a present neighbour there.
    proof fn lemma_edge_presence(&self, i: int, d: Direction, any: bool)
        requires
            graph_wf(self.ps(), self.graph()),
            0 <= i < self.n(),
            any == exists|k: int|
                0 <= k < self.graph()[i].len() && (#[trigger] self.graph()[i][k]).direction == d,
        ensures
            any == has_present_neighbour(self.ps(), all_present(self.n()), i, d),
    {
        if any {
            let k = choose|k: int|
                0 <= k < self.graph()[i].len() && (#[trigger] self.graph()[i][k]).direction == d;
            let j = self.graph()[i][k].id as int;
            assert(neighbour_direction(self.ps()[i], self.ps()[j]) == Some(d));
            assert(all_present(self.n())[j]);
        }
        if has_present_neighbour(self.ps(), all_present(self.n()), i, d) {
            let j = choose|j: int|
                0 <= j < self.ps().len() && all_present(self.n())[j]
                    && #[trigger] neighbour_direction(self.ps()[i], self.ps()[j]) == Some(d);
            let k = choose|k: int|
                0 <= k < self.graph()[i].len() && (#[trigger] self.graph()[i][k]).id == j && Some(
                    self.graph()[i][k].direction,
                ) == neighbour_direction(self.ps()[i], self.ps()[j]);
            assert(self.graph()[i][k].direction == d);
        }
    }

    /// Re-evaluates every direct neighbour of slot `tile` after its
    /// presence changed, restoring the canonical state of the whole board.
    /// Cost is bounded by the length of one neighbour list.
    #[verifier::rlimit(100)]
    fn update_neighbouring_tile_states(&mut self, tile: usize)
        requires
            old(self).structure_wf(),
            tile < old(self).n(),
            forall|i: int|
                0 <= i < old(self).n() && neighbour_direction(
                    old(self).ps()[i],
                    old(self).ps()[tile as int],
                ) is None ==> old(self).states()[i] == canon_state(
                    old(self).ps(),
                    old(self).pres(),
                    i,
                ),
        ensures
            final(self).ps() == old(self).ps(),
            final(self).graph() == old(self).graph(),
            final(self).ts() == old(self).ts(),
            final(self).states().len() == old(self).states().len(),
            final(self).pres() == old(self).pres(),
            final(self).states() == canon(final(self).ps(), final(self).pres()),
    {
        let ghost ps0 = self.ps();
        let ghost g0 = self.graph();
        let ghost ts0 = self.ts();
        let ghost s0 = self.states();
        let ghost p0 = self.pres();
        let list_len = self.neighbours[tile].len();
        for k in 0..list_len
            invariant
                self.structure_wf(),
                tile < self.n(),
                self.ps() == ps0,
                self.graph() == g0,
                self.ts() == ts0,
                self.states().len() == s0.len(),
                p0 == present_of(s0),
                p0.len() == s0.len(),
                s0.len() == ps0.len(),
                list_len == g0[tile as int].len(),
                forall|i: int|
                    0 <= i < s0.len() ==> ((self.states()[i] == PlayState::Played) <==> (s0[i]
                        == PlayState::Played)),
                forall|i: int|
                    0 <= i < s0.len() && !(exists|k2: int|
                        0 <= k2 < k && (#[trigger] g0[tile as int][k2]).id == i)
                        ==> self.states()[i] == s0[i],
                forall|i: int|
                    0 <= i < s0.len() && (exists|k2: int|
                        0 <= k2 < k && (#[trigger] g0[tile as int][k2]).id == i)
                        ==> self.states()[i] == canon_state(ps0, p0, i),
        {
            let entry = self.neighbours[tile][k];
            proof {
                assert(entry == g0[tile as int][k as int]);
                assert(entry.id < ps0.len());
            }
            let id = entry.id;
            let ghost s_before = self.states();
            if self.states[id] != PlayState::Played {
                let any_up = self.any_unplayed_neighbour_in_direction(id, Direction::Up);
                let any_left = self.any_unplayed_neighbour_in_direction(id, Direction::Left);
                let any_right = self.any_unplayed_neighbour_in_direction(id, Direction::Right);
                let new_state = if any_up || (any_left && any_right) {
                    PlayState::Blocked
                } else {
                    PlayState::Playable
                };
                self.states.set(id, new_state);
                proof {
                    assert(present_of(s_before) =~= p0);
                    assert(new_state == canon_state(ps0, p0, id as int));
                }
            } else {
                proof {
                    assert(!p0[id as int]);
                    assert(self.states()[id as int] == canon_state(ps0, p0, id as int));
                }
            }
            proof {
                assert forall|i: int|
                    0 <= i < s0.len() && (exists|k2: int|
                        0 <= k2 < k + 1 && (#[trigger] g0[tile as int][k2]).id == i)
                        implies self.states()[i] == canon_state(ps0, p0, i) by {
                    if i != id {
                        let k2 = choose|k2: int|
                            0 <= k2 < k + 1 && (#[trigger] g0[tile as int][k2]).id == i;
                        assert(k2 < k);
                        assert(self.states()[i] == s_before[i]);
                    }
                }
            }
        }
        proof {
            let pcur = self.pres();
            assert(pcur =~= p0);
            assert forall|i: int| 0 <= i < s0.len() implies self.states()[i] == canon_state(
                ps0,
                p0,
                i,
            ) by {
                if !(exists|k2: int|
                    0 <= k2 < g0[tile as int].len() && (#[trigger] g0[tile as int][k2]).id == i) {
                    assert(forall|k2: int|
                        0 <= k2 < g0[tile as int].len() ==> (#[trigger] g0[tile as int][k2]).id
                            != i);
                    lemma_absent_edge(ps0, g0, tile as int, i);
                    assert(s0[i] == canon_state(ps0, p0, i));
                    assert(self.states()[i] == s0[i]);
                }
            }
            assert(self.states() =~= canon(self.ps(), self.pres()));
        }
    }

    /// Removes a playable tile from the board and re-evaluates its
    /// neighbours.  Afterwards every slot is again in the one state the
    /// rules of play demand.
    pub fn play_tile(&mut self, tile: TileId)
        requires
            old(self).wf(),
            tile.0 < old(self).n(),
            old(self).states()[tile.0 as int] == PlayState::Playable,
        ensures
            final(self).wf(),
            final(self).ps() == old(self).ps(),
            final(self).graph() == old(self).graph(),
            final(self).ts() == old(self).ts(),
            final(self).pres() == old(self).pres().update(tile.0 as int, false),
    {
        let ghost ps0 = self.ps();
        let ghost p1 = self.pres();
        self.states.set(tile.0, PlayState::Played);
        proof {
            let p2 = self.pres();
            assert(p2 =~= p1.update(tile.0 as int, false));
            assert forall|i: int|
                0 <= i < self.n() && neighbour_direction(
                    self.ps()[i],
                    self.ps()[tile.0 as int],
                ) is None implies self.states()[i] == canon_state(self.ps(), self.pres(), i) by {
                if i == tile.0 as int {
                    assert(!p2[i]);
                } else {
                    assert(old(self).states()[i] == canon_state(ps0, p1, i));
                    assert(p2[i] == p1[i]);
                    lemma_free_unaffected(ps0, p1, p2, i, tile.0 as int);
                }
            }
        }
        self.update_neighbouring_tile_states(tile.0);
        proof {
            assert(self.pres() =~= old(self).pres().update(tile.0 as int, false));
        }
    }

    /// Puts a played tile back on the board and re-evaluates its
    /// neighbours.  The tile must be free on the restored board, which holds
    /// whenever plays are undone in reverse order.
    pub fn reset_tile(&mut self, tile: TileId)
        requires
            old(self).wf(),
            tile.0 < old(self).n(),
            old(self).states()[tile.0 as int] == PlayState::Played,
            slot_free(
                old(self).ps(),
                old(self).pres().update(tile.0 as int, true),
                tile.0 as int,
            ),
        ensures
            final(self).wf(),
            final(self).ps() == old(self).ps(),
            final(self).graph() == old(self).graph(),
            final(self).ts() == old(self).ts(),
            final(self).pres() == old(self).pres().update(tile.0 as int, true),
    {
        let ghost ps0 = self.ps();
        let ghost p1 = self.pres();
        self.states.set(tile.0, PlayState::Playable);
        proof {
            let p2 = self.pres();
            assert(p2 =~= p1.update(tile.0 as int, true));
            assert forall|i: int|
                0 <= i < self.n() && neighbour_direction(
                    self.ps()[i],
                    self.ps()[tile.0 as int],
                ) is None implies self.states()[i] == canon_state(self.ps(), self.pres(), i) by {
                if i == tile.0 as int {
                    assert(p2[i]);
                    assert(slot_free(ps0, p2, i));
                } else {
                    assert(old(self).states()[i] == canon_state(ps0, p1, i));
                    assert(p2[i] == p1[i]);
                    lemma_free_unaffected(ps0, p1, p2, i, tile.0 as int);
                }
            }
        }
        self.update_neighbouring_tile_states(tile.0);
        proof {
            assert(self.pres() =~= old(self).pres().update(tile.0 as int, true));
        }
    }

    /// The number of slots on the board.
    pub fn tile_count(&self) -> (r: usize)
        ensures
            r as int == self.n(),
    {
        self.positions.len()
    }

    /// Replaces the type assignment and puts every slot back in its initial
    /// state, as for a fresh board.
    pub fn reset(&mut self, types: Vec<TileType>)
        requires
            old(self).structure_wf(),
            types@.len() == old(self).n(),
        ensures
            final(self).wf(),
            final(self).ps() == old(self).ps(),
            final(self).graph() == old(self).graph(),
            final(self).ts() == types@,
            final(self).pres() == all_present(final(self).n()),
    {
        let ghost ps0 = self.ps();
        let ghost g0 = self.graph();
        self.types = types;
        let n = self.positions.len();
        for i in 0..n
            invariant
                n == self.n(),
                self.ps() == ps0,
                self.graph() == g0,
                self.ts() == types@,
                graph_wf(self.ps(), self.graph()),
                self.ts().len() == self.n(),
                self.states().len() == self.n(),
                forall|m: int|
                    0 <= m < i ==> self.states()[m] == canon_state(
                        self.ps(),
                        all_present(self.n()),
                        m,
                    ),
        {
            let st = self.initial_state(i);
            self.states.set(i, st);
        }
        proof {
            assert(self.pres() =~= all_present(self.n()));
            assert(self.states() =~= canon(self.ps(), self.pres()));
        }
    }

    /// Whether the tiles on two slots match.
    pub fn are_matching(&self, tile1: TileId, tile2: TileId) -> (r: bool)
        requires
            tile1.0 < self.ts().len(),
            tile2.0 < self.ts().len(),
        ensures
            r == matches_spec(self.ts()[tile1.0 as int], self.ts()[tile2.0 as int]),
    {
        self.types[tile1.0].matches(&self.types[tile2.0])
    }

    /// Whether the tile on a slot is currently playable.
    pub fn is_playable(&self, tile: TileId) -> (r: bool)
        requires
            tile.0 < self.states().len(),
        ensures
            r == (self.states()[tile.0 as int] == PlayState::Playable),
    {
        self.states[tile.0] == PlayState::Playable
    }

    /// Whether the tile on a slot has been played.
    pub fn is_played(&self, tile: TileId) -> (r: bool)
        requires
            tile.0 < self.states().len(),
        ensures
            r == (self.states()[tile.0 as int] == PlayState::Played),
    {
        self.states[tile.0] == PlayState::Played
    }

    /// The position of a slot, for hit testing and drawing outside the
    /// core.
    pub fn position_of(&self, tile: TileId) -> (r: Position)
        requires
            tile.0 < self.ps().len(),
        ensures
            r == self.ps()[tile.0 as int],
    {
        self.positions[tile.0]
    }

    /// The type of the tile on a slot.
    pub fn type_of(&self, tile: TileId) -> (r: TileType)
        requires
            tile.0 < self.ts().len(),
        ensures
            r == self.ts()[tile.0 as int],
    {
        self.types[tile.0]
    }

    /// All currently playable slots, in ascending order.
    pub fn playable_tiles(&self) -> (r: PlayableTiles)
        ensures
            forall|k1: int, k2: int|
                0 <= k1 < k2 < r.tiles@.len() ==> (#[trigger] r.tiles@[k1]).0 < (
                #[trigger] r.tiles@[k2]).0,
            forall|k: int|
                0 <= k < r.tiles@.len() ==> (#[trigger] r.tiles@[k]).0 < self.states().len()
                    && self.states()[r.tiles@[k].0 as int] == PlayState::Playable,
            forall|i: int|
                0 <= i < self.states().len() && self.states()[i] == PlayState::Playable
                    ==> exists|k: int| 0 <= k < r.tiles@.len() && (#[trigger] r.tiles@[k]).0 == i,
    {
        let mut tiles: Vec<TileId> = Vec::new();
        let n = self.states.len();
        for i in 0..n
            invariant
                n == self.states().len(),
                forall|k1: int, k2: int|
                    0 <= k1 < k2 < tiles@.len() ==> (#[trigger] tiles@[k1]).0 < (
                    #[trigger] tiles@[k2]).0,
                forall|k: int|
                    0 <= k < tiles@.len() ==> (#[trigger] tiles@[k]).0 < i
                        && self.states()[tiles@[k].0 as int] == PlayState::Playable,
                forall|m: int|
                    0 <= m < i && self.states()[m] == PlayState::Playable ==> exists|k: int|
                        0 <= k < tiles@.len() && (#[trigger] tiles@[k]).0 == m,
        {
            let ghost t0 = tiles@;
            if self.states[i] == PlayState::Playable {
                tiles.push(TileId(i));
            }
            proof {
                assert forall|m: int|
                    0 <= m < i + 1 && self.states()[m] == PlayState::Playable implies exists|k: int|
                    0 <= k < tiles@.len() && (#[trigger] tiles@[k]).0 == m by {
                    if m < i {
                        let k0 = choose|k: int| 0 <= k < t0.len() && (#[trigger] t0[k]).0 == m;
                        assert(tiles@[k0] == t0[k0]);
                    } else {
                        assert(tiles@[tiles@.len() - 1].0 == m);
                    }
                }
            }
        }
        PlayableTiles { tiles }
    }

    /// The stored positions, for rebuilding a deal on the same topology.
    pub(crate) fn positions_ref(&self) -> (r: &Vec<Position>)
        ensures
            r@ == self.ps(),
    {
        &self.positions
    }

}

} // verus!
