//! The board: the public face of the engine.  Wires the adjacency graph,
//! the certified shuffler and the play-state tracker together, tracks the
//! selection and the play history, and serves undo and hints.

use vstd::prelude::*;

use crate::position::{Neighbour, Position};
use crate::rng::{entropy_rng, seeded_rng};
use crate::rules::{
    all_present, canon, canon_state, clears_board, hist_legal, lemma_free_monotone,
    lemma_pres_after_len, pres_after, slot_free, step_ok, PlayState,
};
use crate::shuffle::{get_shuffled_types, ShuffleExhausted};
use crate::tile_type::{count_of, matches_spec, pool_pairs_matched, same_counts, TileType};
use crate::tiles::{pairs_view, PlayableTiles, TileId, Tiles};

verus! {

/// What one click on a playable slot led to.
#[derive(Clone, Copy, Debug, PartialEq, Eq, Structural)]
pub enum SelectionOutcome {
    /// The slot became the first half of a pair.
    FirstSelection,
    /// The slot was already selected and is selected no more.
    Deselected,
    /// The slot does not match the slot selected before it.
    NoMatch,
    /// A matching pair was played.
    Matched,
    /// A matching pair was played and no legal move remains.
    GameOver,
}

/// Selecting a slot that is not currently playable.
#[derive(Clone, Copy, Debug, PartialEq, Eq, Structural)]
pub struct InvalidSelection;

/// Undoing with nothing to undo.
#[derive(Clone, Copy, Debug, PartialEq, Eq, Structural)]
pub struct EmptyHistory;

/// No matching pair of playable tiles exists.
#[derive(Clone, Copy, Debug, PartialEq, Eq, Structural)]
pub struct NoMatchingPair;

/// Up to four mutually matching playable slots, in ascending order.
pub struct HintSet {
    /// The grouped slots.
    pub tiles: Vec<TileId>,
}

impl HintSet {
    /// The slot indices of the group.
    pub open spec fn ids(&self) -> Seq<int> {
        Seq::new(self.tiles@.len(), |k: int| self.tiles@[k].0 as int)
    }

    /// A group holding one slot.
    pub fn new(tile: TileId) -> (r: HintSet)
        ensures
            r.ids() =~= seq![tile.0 as int],
    {
        let mut tiles: Vec<TileId> = Vec::new();
        tiles.push(tile);
        HintSet { tiles }
    }

    /// Adds a slot to the group; a full group of four stays as it is.
    pub fn add(&mut self, tile: TileId)
        ensures
            old(self).tiles@.len() < 4 ==> final(self).ids() =~= old(self).ids().push(
                tile.0 as int,
            ),
            old(self).tiles@.len() >= 4 ==> *final(self) == *old(self),
    {
        if self.tiles.len() < 4 {
            self.tiles.push(tile);
        }
    }
}

/// The positions a raw coordinate table describes.
pub open spec fn positions_view(raw: Seq<(u8, u8, u8)>) -> Seq<Position> {
    Seq::new(raw.len(), |i: int| Position { x: raw[i].0, y: raw[i].1, z: raw[i].2 })
}

/// Some two distinct playable slots match: the board still has a legal
/// move.
pub open spec fn has_move(ts: Seq<TileType>, states: Seq<PlayState>) -> bool {
    exists|i: int, j: int|
        0 <= i < states.len() && 0 <= j < states.len() && i != j && states[i]
            == PlayState::Playable && states[j] == PlayState::Playable && matches_spec(
            #[trigger] ts[i],
            #[trigger] ts[j],
        )
}


/// One well-formed hint group: between two and four slots, all playable,
/// listed in ascending order, mutually matching.
pub open spec fn hint_set_wf(ts: Seq<TileType>, states: Seq<PlayState>, h: HintSet) -> bool {
    &&& 2 <= h.ids().len() <= 4
    &&& forall|p: int|
        0 <= p < h.ids().len() ==> 0 <= #[trigger] h.ids()[p] < states.len() && states[h.ids()[p]]
            == PlayState::Playable
    &&& forall|p1: int, p2: int| 0 <= p1 < p2 < h.ids().len() ==> h.ids()[p1] < h.ids()[p2]
    &&& forall|p1: int, p2: int|
        0 <= p1 < h.ids().len() && 0 <= p2 < h.ids().len() ==> matches_spec(
            ts[#[trigger] h.ids()[p1]],
            ts[#[trigger] h.ids()[p2]],
        )
}

/// A complete list of hint groups: each group well-formed; the groups come
/// in ascending order of their first slots and stand for pairwise different
/// matching families; every playable slot with a distinct matching playable
/// partner is represented by some group; and each group holds every
/// playable slot of its family up to its last member, or all of them when
/// it is not full.
pub open spec fn hint_sets_ok(ts: Seq<TileType>, states: Seq<PlayState>, sets: Seq<HintSet>) -> bool {
    &&& forall|k: int| 0 <= k < sets.len() ==> hint_set_wf(ts, states, #[trigger] sets[k])
    &&& forall|k1: int, k2: int|
        0 <= k1 < k2 < sets.len() ==> (#[trigger] sets[k1]).ids()[0] < (
        #[trigger] sets[k2]).ids()[0] && !matches_spec(ts[sets[k1].ids()[0]], ts[sets[k2].ids()[0]])
    &&& forall|i: int, j: int|
        0 <= i < states.len() && 0 <= j < states.len() && i != j && states[i]
            == PlayState::Playable && states[j] == PlayState::Playable && matches_spec(
            #[trigger] ts[i],
            #[trigger] ts[j],
        ) ==> exists|k: int|
            0 <= k < sets.len() && matches_spec(ts[i], ts[(#[trigger] sets[k]).ids()[0]])
    &&& forall|k: int, i: int|
        0 <= k < sets.len() && 0 <= i < states.len() && states[i] == PlayState::Playable
            && matches_spec(#[trigger] ts[i], ts[(#[trigger] sets[k]).ids()[0]]) && (i
            < sets[k].ids().last() || sets[k].ids().len() < 4) ==> exists|p: int|
            0 <= p < sets[k].ids().len() && sets[k].ids()[p] == i
}

/// Turns a raw coordinate table into slot positions.
fn convert_positions(raw: &Vec<(u8, u8, u8)>) -> (r: Vec<Position>)
    ensures
        r@ == positions_view(raw@),
{
    let mut r: Vec<Position> = Vec::new();
    let n = raw.len();
    for i in 0..n
        invariant
            n == raw@.len(),
            r@.len() == i,
            forall|m: int| 0 <= m < i ==> r@[m] == positions_view(raw@)[m],
    {
        let (x, y, z) = raw[i];
        r.push(Position { x, y, z });
    }
    proof {
        assert(r@ =~= positions_view(raw@));
    }
    r
}

/// A full game: tiles, selection, play history, and the certificate of the
/// current deal.
pub struct Board {
    tiles: Tiles,
    pool: Vec<TileType>,
    played: Vec<(TileId, TileId)>,
    selected_tile: Option<TileId>,
    witness: Vec<(TileId, TileId)>,
    rng: rand::rngs::SmallRng,
}

impl Board {
    /// The tracker holding the per-slot data.
    pub closed spec fn tracker(&self) -> Tiles {
        self.tiles
    }

    /// The slot positions.
    pub closed spec fn ps(&self) -> Seq<Position> {
        self.tiles.ps()
    }

    /// The tile type of every slot.
    pub closed spec fn ts(&self) -> Seq<TileType> {
        self.tiles.ts()
    }

    /// The play state of every slot.
    pub closed spec fn states(&self) -> Seq<PlayState> {
        self.tiles.states()
    }

    /// Which tiles are still on the board.
    pub closed spec fn pres(&self) -> Seq<bool> {
        self.tiles.pres()
    }

    /// The number of slots.
    pub open spec fn n(&self) -> int {
        self.ps().len() as int
    }

    /// The pairs played so far, oldest first.
    pub closed spec fn history(&self) -> Seq<(TileId, TileId)> {
        self.played@
    }

    /// The currently selected slot, if any.
    pub closed spec fn selected(&self) -> Option<TileId> {
        self.selected_tile
    }

    /// The pool this deal was drawn from.
    pub closed spec fn pool_view(&self) -> Seq<TileType> {
        self.pool@
    }

    /// The certificate of the current deal: a pair sequence that clears the
    /// freshly dealt board.
    pub closed spec fn witness_view(&self) -> Seq<(TileId, TileId)> {
        self.witness@
    }

    /// The board invariant.  It carries, for every reachable state: the
    /// tracker's state consistency, the type multiset invariant against the
    /// pool, the legality of the whole play history, and the solvability
    /// certificate of the deal.
    pub open spec fn wf(&self) -> bool {
        &&& self.tracker().wf()
        &&& self.pool_view().len() == self.n()
        &&& self.n() % 2 == 0
        &&& pool_pairs_matched(self.pool_view())
        &&& same_counts(self.ts(), self.pool_view())
        &&& hist_legal(self.ps(), self.ts(), pairs_view(self.history()))
        &&& self.pres() == pres_after(self.n(), pairs_view(self.history()))
        &&& clears_board(self.ps(), self.ts(), pairs_view(self.witness_view()))
        &&& match self.selected() {
            Some(s) => s.0 < self.n() && self.states()[s.0 as int] == PlayState::Playable,
            None => true,
        }
    }

    /// Builds a board: derives the adjacency graph, shuffles a certified
    /// deal from the pool, and initializes the play state.  Randomness
    /// comes from operating-system entropy.
    pub fn new(raw_positions: &Vec<(u8, u8, u8)>, pool: &Vec<TileType>) -> (r: Result<
        Board,
        ShuffleExhausted,
    >)
        requires
            pool@.len() == raw_positions@.len(),
            raw_positions@.len() % 2 == 0,
            pool_pairs_matched(pool@),
        ensures
            r is Ok ==> {
                &&& r->Ok_0.wf()
                &&& r->Ok_0.ps() == positions_view(raw_positions@)
                &&& r->Ok_0.pool_view() == pool@
                &&& r->Ok_0.history().len() == 0
                &&& r->Ok_0.selected() is None
                &&& r->Ok_0.pres() == all_present(r->Ok_0.n())
            },
    {
        Board::build(raw_positions, pool, entropy_rng())
    }

    /// As `new`, but deterministic: one seed always deals the same board.
    pub fn new_seeded(raw_positions: &Vec<(u8, u8, u8)>, pool: &Vec<TileType>, seed: u64) -> (r:
        Result<Board, ShuffleExhausted>)
        requires
            pool@.len() == raw_positions@.len(),
            raw_positions@.len() % 2 == 0,
            pool_pairs_matched(pool@),
        ensures
            r is Ok ==> {
                &&& r->Ok_0.wf()
                &&& r->Ok_0.ps() == positions_view(raw_positions@)
                &&& r->Ok_0.pool_view() == pool@
                &&& r->Ok_0.history().len() == 0
                &&& r->Ok_0.selected() is None
                &&& r->Ok_0.pres() == all_present(r->Ok_0.n())
            },
    {
        Board::build(raw_positions, pool, seeded_rng(seed))
    }

    /// Shared constructor body.
    fn build(
        raw_positions: &Vec<(u8, u8, u8)>,
        pool: &Vec<TileType>,
        rng: rand::rngs::SmallRng,
    ) -> (r: Result<Board, ShuffleExhausted>)
        requires
            pool@.len() == raw_positions@.len(),
            raw_positions@.len() % 2 == 0,
            pool_pairs_matched(pool@),
        ensures
            r is Ok ==> {
                &&& r->Ok_0.wf()
                &&& r->Ok_0.ps() == positions_view(raw_positions@)
                &&& r->Ok_0.pool_view() == pool@
                &&& r->Ok_0.history().len() == 0
                &&& r->Ok_0.selected() is None
                &&& r->Ok_0.pres() == all_present(r->Ok_0.n())
            },
    {
        let mut rng = rng;
        let positions = convert_positions(raw_positions);
        let shuffled = get_shuffled_types(&positions, pool, &mut rng);
        let (types, witness) = match shuffled {
            Ok(v) => v,
            Err(e) => {
                return Err(e);
            },
        };
        let mut own_pool: Vec<TileType> = Vec::new();
        let np = pool.len();
        for i in 0..np
            invariant
                np == pool@.len(),
                own_pool@ =~= pool@.take(i as int),
        {
            own_pool.push(pool[i]);
        }
        proof {
            assert(pool@.take(np as int) =~= pool@);
        }
        let tiles = Tiles::new(positions, types);
        let board = Board {
            tiles,
            pool: own_pool,
            played: Vec::new(),
            selected_tile: None,
            witness,
            rng,
        };
        proof {
            assert(pairs_view(board.history()).len() == 0);
            assert(board.pres() == pres_after(board.n(), pairs_view(board.history())));
        }
        Ok(board)
    }

    /// Deals the same topology afresh: re-runs the shuffler against the
    /// same positions and pool, puts every slot back in its initial state,
    /// and clears selection and history.
    pub fn reset(&mut self) -> (r: Result<(), ShuffleExhausted>)
        requires
            old(self).wf(),
        ensures
            final(self).ps() == old(self).ps(),
            final(self).pool_view() == old(self).pool_view(),
            r is Ok ==> {
                &&& final(self).wf()
                &&& final(self).history().len() == 0
                &&& final(self).selected() is None
                &&& final(self).pres() == all_present(final(self).n())
            },
            r is Err ==> {
                &&& final(self).wf()
                &&& final(self).ts() == old(self).ts()
                &&& final(self).states() == old(self).states()
                &&& final(self).history() == old(self).history()
                &&& final(self).selected() == old(self).selected()
                &&& final(self).witness_view() == old(self).witness_view()
            },
    {
        let shuffled = get_shuffled_types(self.tiles.positions_ref(), &self.pool, &mut self.rng);
        let (types, witness) = match shuffled {
            Ok(v) => v,
            Err(e) => {
                return Err(e);
            },
        };
        self.tiles.reset(types);
        self.played = Vec::new();
        self.selected_tile = None;
        self.witness = witness;
        proof {
            assert(pairs_view(self.history()).len() == 0);
            assert(self.pres() == pres_after(self.n(), pairs_view(self.history())));
        }
        Ok(())
    }

    /// The number of slots on the board.
    pub fn tile_count(&self) -> (r: usize)
        ensures
            r as int == self.n(),
    {
        self.tiles.tile_count()
    }

    /// Whether the tile on a slot is currently playable.
    pub fn is_playable(&self, tile: TileId) -> (r: bool)
        requires
            self.wf(),
            tile.0 < self.n(),
        ensures
            r == (self.states()[tile.0 as int] == PlayState::Playable),
    {
        self.tiles.is_playable(tile)
    }

    /// Whether the tile on a slot has been played.
    pub fn is_played(&self, tile: TileId) -> (r: bool)
        requires
            self.wf(),
            tile.0 < self.n(),
        ensures
            r == (self.states()[tile.0 as int] == PlayState::Played),
    {
        self.tiles.is_played(tile)
    }

    /// The position of a slot, for hit testing and drawing outside the
    /// core.
    pub fn position_of(&self, tile: TileId) -> (r: Position)
        requires
            self.wf(),
            tile.0 < self.n(),
        ensures
            r == self.ps()[tile.0 as int],
    {
        self.tiles.position_of(tile)
    }

    /// The type of the tile on a slot.
    pub fn type_of(&self, tile: TileId) -> (r: TileType)
        requires
            self.wf(),
            tile.0 < self.n(),
        ensures
            r == self.ts()[tile.0 as int],
    {
        self.tiles.type_of(tile)
    }

    /// Whether the tiles on two slots match.
    pub fn are_matching(&self, tile1: TileId, tile2: TileId) -> (r: bool)
        requires
            self.wf(),
            tile1.0 < self.n(),
            tile2.0 < self.n(),
        ensures
            r == matches_spec(self.ts()[tile1.0 as int], self.ts()[tile2.0 as int]),
    {
        self.tiles.are_matching(tile1, tile2)
    }

    /// All currently playable slots, in ascending order.
    pub fn playable_tiles(&self) -> (r: PlayableTiles)
        requires
            self.wf(),
        ensures
            forall|k1: int, k2: int|
                0 <= k1 < k2 < r.tiles@.len() ==> (#[trigger] r.tiles@[k1]).0 < (
                #[trigger] r.tiles@[k2]).0,
            forall|k: int|
                0 <= k < r.tiles@.len() ==> (#[trigger] r.tiles@[k]).0 < self.n()
                    && self.states()[r.tiles@[k].0 as int] == PlayState::Playable,
            forall|i: int|
                0 <= i < self.n() && self.states()[i] == PlayState::Playable ==> exists|k: int|
                    0 <= k < r.tiles@.len() && (#[trigger] r.tiles@[k]).0 == i,
    {
        self.tiles.playable_tiles()
    }

    /// How many pairs have been played and not undone.
    pub fn history_len(&self) -> (r: usize)
        ensures
            r as int == self.history().len(),
    {
        self.played.len()
    }

    /// The certificate of the current deal: played in order on the freshly
    /// dealt board, these pairs clear it.
    pub fn solution(&self) -> (r: &Vec<(TileId, TileId)>)
        requires
            self.wf(),
        ensures
            r@ == self.witness_view(),
            clears_board(self.ps(), self.ts(), pairs_view(r@)),
    {
        &self.witness
    }

    /// Undoes the most recent play: clears the selection, pops the last
    /// pair and puts both tiles back on the board, restoring exactly the
    /// play state the board had before that pair was played.
    pub fn undo(&mut self) -> (r: Result<(), EmptyHistory>)
        requires
            old(self).wf(),
        ensures
            final(self).wf(),
            final(self).ps() == old(self).ps(),
            final(self).ts() == old(self).ts(),
            final(self).pool_view() == old(self).pool_view(),
            final(self).witness_view() == old(self).witness_view(),
            final(self).selected() is None,
            (r is Err) <==> old(self).history().len() == 0,
            r is Err ==> final(self).history() == old(self).history() && final(self).states()
                == old(self).states(),
            r is Ok ==> final(self).history() == old(self).history().drop_last(),
            r is Ok ==> final(self).states() == canon(
                final(self).ps(),
                pres_after(final(self).n(), pairs_view(final(self).history())),
            ),
    {
        self.selected_tile = None;
        if self.played.len() == 0 {
            return Err(EmptyHistory);
        }
        let ghost ps = self.ps();
        let ghost ts = self.ts();
        let ghost n = self.n();
        let ghost o = pairs_view(self.history());
        let (a, b) = self.played.pop().unwrap();
        proof {
            assert(pairs_view(self.history()) =~= o.drop_last());
            assert(o.last() == (a.0 as int, b.0 as int));
            assert(step_ok(ps, ts, pres_after(n, o.drop_last()), a.0 as int, b.0 as int));
        }
        let ghost bp = pres_after(n, o.drop_last());
        proof {
            lemma_pres_after_len(ps, ts, o.drop_last());
            assert(self.pres() == bp.update(a.0 as int, false).update(b.0 as int, false));
            assert(self.pres().update(b.0 as int, true) =~= bp.update(a.0 as int, false));
            assert(self.states()[b.0 as int] == canon(ps, self.pres())[b.0 as int]);
        }
        self.tiles.reset_tile(b);
        proof {
            assert(self.pres() =~= bp.update(a.0 as int, false));
            assert(self.pres().update(a.0 as int, true) =~= bp);
            assert(self.states()[a.0 as int] == canon(ps, self.pres())[a.0 as int]);
        }
        self.tiles.reset_tile(a);
        proof {
            assert(self.pres() =~= bp);
        }
        Ok(())
    }

    /// Whether any legal move is left: some two distinct playable slots
    /// match.
    fn any_move_left(&self) -> (r: bool)
        requires
            self.wf(),
        ensures
            r == has_move(self.ts(), self.states()),
    {
        let n = self.tiles.tile_count();
        for i in 0..n
            invariant
                self.wf(),
                n as int == self.n(),
                forall|i2: int, j2: int|
                    0 <= i2 < i && 0 <= j2 < n && i2 != j2 && self.states()[i2]
                        == PlayState::Playable && self.states()[j2] == PlayState::Playable
                        ==> !matches_spec(#[trigger] self.ts()[i2], #[trigger] self.ts()[j2]),
        {
            if self.tiles.is_playable(TileId(i)) {
                for j in 0..n
                    invariant
                        self.wf(),
                        n as int == self.n(),
                        i < n,
                        self.states()[i as int] == PlayState::Playable,
                        forall|j2: int|
                            0 <= j2 < j && i as int != j2 && self.states()[j2]
                                == PlayState::Playable ==> !matches_spec(
                                self.ts()[i as int],
                                #[trigger] self.ts()[j2],
                            ),
                {
                    if j != i && self.tiles.is_playable(TileId(j)) && self.tiles.are_matching(
                        TileId(i),
                        TileId(j),
                    ) {
                        return true;
                    }
                }
            }
        }
        false
    }

    /// Handles one click on a slot.  Selecting a slot that is not playable
    /// is refused and changes nothing.  Otherwise the slot becomes the
    /// first selection, cancels an identical selection, is turned away if
    /// it does not match the earlier selection, or completes a matching
    /// pair: then both tiles are played, the pair is pushed onto the
    /// history, and the outcome tells whether any legal move remains.
    pub fn try_select_tile(&mut self, tile: TileId) -> (r: Result<
        SelectionOutcome,
        InvalidSelection,
    >)
        requires
            old(self).wf(),
            tile.0 < old(self).n(),
        ensures
            final(self).wf(),
            final(self).ps() == old(self).ps(),
            final(self).ts() == old(self).ts(),
            final(self).pool_view() == old(self).pool_view(),
            final(self).witness_view() == old(self).witness_view(),
            (r is Err) <==> old(self).states()[tile.0 as int] != PlayState::Playable,
            r is Err ==> final(self).states() == old(self).states() && final(self).history()
                == old(self).history() && final(self).selected() == old(self).selected(),
            r is Ok && old(self).selected() is None ==> r->Ok_0
                == SelectionOutcome::FirstSelection && final(self).selected() == Some(tile)
                && final(self).states() == old(self).states() && final(self).history() == old(self).history(),
            r is Ok && old(self).selected() == Some(tile) ==> r->Ok_0
                == SelectionOutcome::Deselected && final(self).selected() is None && final(self).states() == old(self).states() && final(self).history() == old(self).history(),
            r is Ok && old(self).selected() is Some && old(self).selected() != Some(tile)
                && !matches_spec(
                old(self).ts()[old(self).selected()->Some_0.0 as int],
                old(self).ts()[tile.0 as int],
            ) ==> r->Ok_0 == SelectionOutcome::NoMatch && final(self).selected() == old(self).selected() && final(self).states() == old(self).states() && final(self).history()
                == old(self).history(),
            r is Ok && old(self).selected() is Some && old(self).selected() != Some(tile)
                && matches_spec(
                old(self).ts()[old(self).selected()->Some_0.0 as int],
                old(self).ts()[tile.0 as int],
            ) ==> {
                &&& final(self).history() == old(self).history().push(
                    (tile, old(self).selected()->Some_0),
                )
                &&& final(self).selected() is None
                &&& final(self).pres() == old(self).pres().update(tile.0 as int, false).update(
                    old(self).selected()->Some_0.0 as int,
                    false,
                )
                &&& r->Ok_0 == (if has_move(final(self).ts(), final(self).states()) {
                    SelectionOutcome::Matched
                } else {
                    SelectionOutcome::GameOver
                })
            },
    {
        if !self.tiles.is_playable(tile) {
            return Err(InvalidSelection);
        }
        match self.selected_tile {
            None => {
                self.selected_tile = Some(tile);
                Ok(SelectionOutcome::FirstSelection)
            },
            Some(t2) => {
                if t2 == tile {
                    self.selected_tile = None;
                    Ok(SelectionOutcome::Deselected)
                } else if !self.tiles.are_matching(t2, tile) {
                    Ok(SelectionOutcome::NoMatch)
                } else {
                    let ghost ps = self.ps();
                    let ghost ts = self.ts();
                    let ghost n = self.n();
                    let ghost p0 = self.pres();
                    let ghost o0 = pairs_view(self.history());
                    proof {
                        assert(self.states()[tile.0 as int] == canon(ps, p0)[tile.0 as int]);
                        assert(self.states()[t2.0 as int] == canon(ps, p0)[t2.0 as int]);
                        assert(slot_free(ps, p0, tile.0 as int));
                        assert(slot_free(ps, p0, t2.0 as int));
                        lemma_free_monotone(
                            ps,
                            p0,
                            p0.update(tile.0 as int, false),
                            t2.0 as int,
                        );
                    }
                    self.tiles.play_tile(tile);
                    proof {
                        assert(self.pres() == p0.update(tile.0 as int, false));
                        assert(self.pres()[t2.0 as int]);
                        assert(self.states()[t2.0 as int] == canon(
                            ps,
                            self.pres(),
                        )[t2.0 as int]);
                        assert(self.states()[t2.0 as int] == PlayState::Playable);
                    }
                    self.tiles.play_tile(t2);
                    self.played.push((tile, t2));
                    self.selected_tile = None;
                    proof {
                        let o1 = pairs_view(self.history());
                        assert(o1.drop_last() =~= o0);
                        assert(o1.last() == (tile.0 as int, t2.0 as int));
                        assert(step_ok(ps, ts, p0, tile.0 as int, t2.0 as int));
                        assert(hist_legal(ps, ts, o1));
                        assert(self.pres() == pres_after(n, o1));
                    }
                    if self.any_move_left() {
                        Ok(SelectionOutcome::Matched)
                    } else {
                        Ok(SelectionOutcome::GameOver)
                    }
                }
            },
        }
    }

    /// Scans the slots above `i` for playable partners of slot `i`,
    /// marking every partner as grouped and collecting the first three of
    /// them after `i` into one hint group.
    #[verifier::rlimit(60)]
    fn collect_partners(&self, i: usize, used: &mut Vec<bool>) -> (r: (HintSet, bool))
        requires
            self.wf(),
            i < old(used)@.len(),
            old(used)@.len() == self.n(),
            self.states()[i as int] == PlayState::Playable,
        ensures
            final(used)@.len() == old(used)@.len(),
            forall|x: int|
                0 <= x < final(used)@.len() ==> (#[trigger] final(used)@[x] == (old(used)@[x] || (
                i < x && self.states()[x] == PlayState::Playable && matches_spec(
                    self.ts()[i as int],
                    self.ts()[x],
                )))),
            1 <= r.0.ids().len() <= 4,
            r.0.ids()[0] == i as int,
            forall|p1: int, p2: int|
                0 <= p1 < p2 < r.0.ids().len() ==> r.0.ids()[p1] < r.0.ids()[p2],
            forall|p: int|
                0 <= p < r.0.ids().len() ==> i as int <= #[trigger] r.0.ids()[p] < self.n()
                    && self.states()[r.0.ids()[p]] == PlayState::Playable && matches_spec(
                    self.ts()[i as int],
                    self.ts()[r.0.ids()[p]],
                ),
            r.0.ids().len() < 4 ==> forall|x: int|
                i < x < self.n() && self.states()[x] == PlayState::Playable && matches_spec(
                    self.ts()[i as int],
                    #[trigger] self.ts()[x],
                ) ==> exists|p: int| 0 <= p < r.0.ids().len() && r.0.ids()[p] == x,
            forall|x: int|
                i < x < self.n() && self.states()[x] == PlayState::Playable && matches_spec(
                    self.ts()[i as int],
                    #[trigger] self.ts()[x],
                ) && x < r.0.ids().last() ==> exists|p: int|
                    0 <= p < r.0.ids().len() && r.0.ids()[p] == x,
            r.1 == (r.0.ids().len() >= 2),
            !r.1 ==> forall|x: int|
                i < x < self.n() ==> !(self.states()[x] == PlayState::Playable && matches_spec(
                    self.ts()[i as int],
                    #[trigger] self.ts()[x],
                )),
    {
        let ghost ts = self.ts();
        let ghost states = self.states();
        let ghost u0 = used@;
        let n = self.tiles.tile_count();
        let mut set = HintSet::new(TileId(i));
        let mut found = false;
        for j in (i + 1)..n
            invariant
                self.wf(),
                ts == self.ts(),
                states == self.states(),
                n as int == self.n(),
                used@.len() == n,
                u0.len() == n,
                i < j <= n,
                states[i as int] == PlayState::Playable,
                set.ids().len() >= 1,
                set.ids()[0] == i as int,
                set.ids().len() <= 4,
                found == (set.ids().len() >= 2),
                forall|p1: int, p2: int|
                    0 <= p1 < p2 < set.ids().len() ==> set.ids()[p1] < set.ids()[p2],
                forall|p: int|
                    0 <= p < set.ids().len() ==> i as int <= #[trigger] set.ids()[p] < j as int
                        && states[set.ids()[p]] == PlayState::Playable && matches_spec(
                        ts[i as int],
                        ts[set.ids()[p]],
                    ),
                set.ids().len() < 4 ==> forall|x: int|
                    i < x < j && states[x] == PlayState::Playable && matches_spec(
                        ts[i as int],
                        #[trigger] ts[x],
                    ) ==> exists|p: int| 0 <= p < set.ids().len() && set.ids()[p] == x,
                forall|x: int|
                    i < x < j && states[x] == PlayState::Playable && matches_spec(
                        ts[i as int],
                        #[trigger] ts[x],
                    ) && x < set.ids().last() ==> exists|p: int|
                        0 <= p < set.ids().len() && set.ids()[p] == x,
                !found ==> forall|x: int|
                    i < x < j ==> !(states[x] == PlayState::Playable && matches_spec(
                        ts[i as int],
                        #[trigger] ts[x],
                    )),
                forall|x: int|
                    0 <= x < n ==> (#[trigger] used@[x] == (u0[x] || (i < x < j && states[x]
                        == PlayState::Playable && matches_spec(ts[i as int], ts[x])))),
        {
            let ghost setg = set;
            if self.tiles.is_playable(TileId(j)) && self.tiles.are_matching(TileId(i), TileId(j)) {
                used.set(j, true);
                set.add(TileId(j));
                found = true;
                proof {
                    if setg.ids().len() < 4 {
                        assert(set.ids() =~= setg.ids().push(j as int));
                    } else {
                        assert(set == setg);
                    }
                    assert forall|x: int|
                        i < x < j + 1 && states[x] == PlayState::Playable && matches_spec(
                            ts[i as int],
                            #[trigger] ts[x],
                        ) && (x < set.ids().last() || set.ids().len() < 4) implies exists|p: int|
                        0 <= p < set.ids().len() && set.ids()[p] == x by {
                        if x < j {
                            if x < setg.ids().last() || setg.ids().len() < 4 {
                                let p = choose|p: int|
                                    0 <= p < setg.ids().len() && setg.ids()[p] == x;
                                assert(set.ids()[p] == x);
                            } else {
                                assert(setg.ids().len() == 4);
                                assert(set == setg);
                                assert(x >= set.ids().last());
                                assert(!(x < set.ids().last()));
                            }
                        } else {
                            if setg.ids().len() < 4 {
                                assert(set.ids()[set.ids().len() - 1] == x);
                            } else {
                                assert(set.ids().last() < j as int);
                                assert(!(x < set.ids().last()));
                            }
                        }
                    }
                }
            } else {
                proof {
                    assert forall|x: int|
                        0 <= x < n implies (used@[x] == (u0[x] || (i < x < j + 1 && states[x]
                            == PlayState::Playable && matches_spec(ts[i as int], ts[x])))) by {
                        if x == j {
                            assert(!(states[x] == PlayState::Playable && matches_spec(
                                ts[i as int],
                                ts[x],
                            )));
                        }
                    }
                }
            }
        }
        (set, found)
    }

    /// Groups the currently playable tiles into maximal groups of mutually
    /// matching tiles: one group per matching family with at least two
    /// playable tiles, in ascending order of their first slots, each group
    /// holding up to four tiles.  Reports that no matching pair is left
    /// when no group can be formed.
    #[verifier::rlimit(100)]
    pub fn hint(&self) -> (r: Result<Vec<HintSet>, NoMatchingPair>)
        requires
            self.wf(),
        ensures
            (r is Err) <==> !has_move(self.ts(), self.states()),
            r is Ok ==> r->Ok_0@.len() >= 1 && hint_sets_ok(self.ts(), self.states(), r->Ok_0@),
    {
        let ghost ts = self.ts();
        let ghost states = self.states();
        let n = self.tiles.tile_count();
        let mut used: Vec<bool> = vec![false; n];
        let mut sets: Vec<HintSet> = Vec::new();
        for i in 0..n
            invariant
                self.wf(),
                ts == self.ts(),
                states == self.states(),
                n as int == self.n(),
                used@.len() == n,
                forall|x: int|
                    0 <= x < n ==> ((#[trigger] used@[x]) <==> (states[x] == PlayState::Playable
                        && exists|k: int|
                        0 <= k < sets@.len() && matches_spec(
                            ts[x],
                            ts[(#[trigger] sets@[k]).ids()[0]],
                        ))),
                forall|k: int| 0 <= k < sets@.len() ==> hint_set_wf(ts, states, #[trigger] sets@[k]),
                forall|k: int| 0 <= k < sets@.len() ==> (#[trigger] sets@[k]).ids()[0] < i,
                forall|k1: int, k2: int|
                    0 <= k1 < k2 < sets@.len() ==> (#[trigger] sets@[k1]).ids()[0] < (
                    #[trigger] sets@[k2]).ids()[0] && !matches_spec(
                        ts[sets@[k1].ids()[0]],
                        ts[sets@[k2].ids()[0]],
                    ),
                forall|x: int, j: int|
                    0 <= x < i && 0 <= j < n && x != j && states[x] == PlayState::Playable
                        && states[j] == PlayState::Playable && matches_spec(
                        #[trigger] ts[x],
                        #[trigger] ts[j],
                    ) ==> exists|k: int|
                        0 <= k < sets@.len() && matches_spec(
                            ts[x],
                            ts[(#[trigger] sets@[k]).ids()[0]],
                        ),
                forall|k: int, x: int|
                    0 <= k < sets@.len() && 0 <= x < n && states[x] == PlayState::Playable
                        && matches_spec(#[trigger] ts[x], ts[(#[trigger] sets@[k]).ids()[0]]) && (x
                        < sets@[k].ids().last() || sets@[k].ids().len() < 4) ==> exists|p: int|
                        0 <= p < sets@[k].ids().len() && sets@[k].ids()[p] == x,
        {
            if self.tiles.is_playable(TileId(i)) && !used[i] {
                let ghost sets0 = sets@;
                let ghost u0 = used@;
                proof {
                    assert(forall|k: int|
                        0 <= k < sets0.len() ==> !matches_spec(
                            ts[i as int],
                            ts[(#[trigger] sets0[k]).ids()[0]],
                        ));
                    assert forall|x: int|
                        0 <= x < i && states[x] == PlayState::Playable implies !matches_spec(
                        ts[x],
                        ts[i as int],
                    ) by {
                        if matches_spec(ts[x], ts[i as int]) {
                            assert(u0[x]);
                            let k = choose|k: int|
                                0 <= k < sets0.len() && matches_spec(
                                    ts[x],
                                    ts[(#[trigger] sets0[k]).ids()[0]],
                                );
                            assert(matches_spec(ts[i as int], ts[sets0[k].ids()[0]]));
                        }
                    }
                }
                let (set, found) = self.collect_partners(i, &mut used);
                if found {
                    used.set(i, true);
                    sets.push(set);
                    proof {
                        assert(sets@.len() == sets0.len() + 1);
                        assert(sets@[sets0.len() as int] == set);
                        assert(forall|k: int| 0 <= k < sets0.len() ==> sets@[k] == sets0[k]);
                        assert(hint_set_wf(ts, states, set));
                        // the grouped-slots bookkeeping
                        assert forall|x: int|
                            0 <= x < n implies ((used@[x]) <==> (states[x] == PlayState::Playable
                            && exists|k: int|
                            0 <= k < sets@.len() && matches_spec(
                                ts[x],
                                ts[(#[trigger] sets@[k]).ids()[0]],
                            ))) by {
                            if x == i as int {
                                assert(used@[x]);
                                assert(matches_spec(ts[x], ts[set.ids()[0]]));
                                assert(sets@[sets0.len() as int].ids()[0] == i as int);
                            } else if used@[x] {
                                if u0[x] {
                                    let k = choose|k: int|
                                        0 <= k < sets0.len() && matches_spec(
                                            ts[x],
                                            ts[(#[trigger] sets0[k]).ids()[0]],
                                        );
                                    assert(matches_spec(ts[x], ts[sets@[k].ids()[0]]));
                                } else {
                                    assert(matches_spec(ts[i as int], ts[x]));
                                    assert(matches_spec(ts[x], ts[sets@[sets0.len() as int].ids()[0]]));
                                }
                            } else {
                                if states[x] == PlayState::Playable {
                                    assert forall|k: int|
                                        0 <= k < sets@.len() implies !matches_spec(
                                        ts[x],
                                        ts[(#[trigger] sets@[k]).ids()[0]],
                                    ) by {
                                        if k < sets0.len() {
                                            assert(sets@[k] == sets0[k]);
                                            assert(!u0[x]);
                                        } else {
                                            assert(sets@[k].ids()[0] == i as int);
                                            if matches_spec(ts[x], ts[i as int]) {
                                                if x < i as int {
                                                    assert(false);
                                                } else {
                                                    assert((i as int) < x);
                                                    assert(used@[x]);
                                                }
                                            }
                                        }
                                    }
                                }
                            }
                        }
                        // coverage for slots up to and including i
                        assert forall|x: int, j: int|
                            0 <= x < i + 1 && 0 <= j < n && x != j && states[x]
                                == PlayState::Playable && states[j] == PlayState::Playable
                                && matches_spec(#[trigger] ts[x], #[trigger] ts[j])
                                implies exists|k: int|
                            0 <= k < sets@.len() && matches_spec(
                                ts[x],
                                ts[(#[trigger] sets@[k]).ids()[0]],
                            ) by {
                            if x < i as int {
                                let k = choose|k: int|
                                    0 <= k < sets0.len() && matches_spec(
                                        ts[x],
                                        ts[(#[trigger] sets0[k]).ids()[0]],
                                    );
                                assert(matches_spec(ts[x], ts[sets@[k].ids()[0]]));
                            } else {
                                assert(matches_spec(ts[x], ts[sets@[sets0.len() as int].ids()[0]]));
                            }
                        }
                        // per-family completeness of every group
                        assert forall|k: int, x: int|
                            0 <= k < sets@.len() && 0 <= x < n && states[x] == PlayState::Playable
                                && matches_spec(#[trigger] ts[x], ts[(#[trigger] sets@[k]).ids()[0]])
                                && (x < sets@[k].ids().last() || sets@[k].ids().len() < 4)
                                implies exists|p: int|
                            0 <= p < sets@[k].ids().len() && sets@[k].ids()[p] == x by {
                            if k < sets0.len() {
                                assert(sets@[k] == sets0[k]);
                            } else {
                                assert(sets@[k] == set);
                                assert(set.ids()[0] == i as int);
                                if x == i as int {
                                    assert(set.ids()[0] == x);
                                } else if x < i as int {
                                    assert(matches_spec(ts[x], ts[i as int]));
                                    assert(false);
                                } else {
                                    assert(matches_spec(ts[i as int], ts[x]));
                                }
                            }
                        }
                    }
                } else {
                    proof {
                        assert forall|x: int, j: int|
                            0 <= x < i + 1 && 0 <= j < n && x != j && states[x]
                                == PlayState::Playable && states[j] == PlayState::Playable
                                && matches_spec(#[trigger] ts[x], #[trigger] ts[j])
                                implies exists|k: int|
                            0 <= k < sets@.len() && matches_spec(
                                ts[x],
                                ts[(#[trigger] sets@[k]).ids()[0]],
                            ) by {
                            if x == i as int {
                                if j < i as int {
                                    assert(matches_spec(ts[j], ts[i as int]));
                                    assert(false);
                                } else {
                                    assert((i as int) < j < n);
                                    assert(false);
                                }
                            }
                        }
                        assert forall|x: int|
                            0 <= x < n implies ((used@[x]) <==> (states[x] == PlayState::Playable
                            && exists|k: int|
                            0 <= k < sets@.len() && matches_spec(
                                ts[x],
                                ts[(#[trigger] sets@[k]).ids()[0]],
                            ))) by {
                            if used@[x] {
                                assert(u0[x] || ((i as int) < x && states[x] == PlayState::Playable
                                    && matches_spec(ts[i as int], ts[x])));
                                assert(u0[x]);
                            }
                        }
                    }
                }
            }
        }
        if sets.len() == 0 {
            proof {
                if has_move(ts, states) {
                    let (i, j) = choose|i: int, j: int|
                        0 <= i < states.len() && 0 <= j < states.len() && i != j && states[i]
                            == PlayState::Playable && states[j] == PlayState::Playable
                            && matches_spec(#[trigger] ts[i], #[trigger] ts[j]);
                    assert(exists|k: int|
                        0 <= k < sets@.len() && matches_spec(
                            ts[i],
                            ts[(#[trigger] sets@[k]).ids()[0]],
                        ));
                }
            }
            Err(NoMatchingPair)
        } else {
            proof {
                let k0 = 0int;
                let f = sets@[k0].ids()[0];
                let s = sets@[k0].ids()[1];
                assert(hint_set_wf(ts, states, sets@[k0]));
                assert(matches_spec(ts[f], ts[s]));
                assert(has_move(ts, states));
            }
            Ok(sets)
        }
    }
}

/// What a control in the presentation layer asks the board to do.
#[derive(Clone, Copy, Debug, PartialEq, Eq, Structural)]
pub enum Action {
    Start,
    Undo,
    Hint,
}

/// The classic one-hundred-and-forty-four-slot board shape.
pub fn standard_positions() -> (r: Vec<(u8, u8, u8)>)
    ensures
        r@.len() == 144,
{
    let r: Vec<(u8, u8, u8)> = vec![(4, 0, 0), (6, 0, 0), (8, 0, 0), (10, 0, 0), (12, 0, 0),
    (14, 0, 0), (16, 0, 0), (18, 0, 0), (20, 0, 0), (22, 0, 0), (24, 0, 0), (26, 0, 0), (8, 2, 0),
    (10, 2, 0), (12, 2, 0), (14, 2, 0), (16, 2, 0), (18, 2, 0), (20, 2, 0), (22, 2, 0), (6, 4, 0),
    (8, 4, 0), (10, 4, 0), (12, 4, 0), (14, 4, 0), (16, 4, 0), (18, 4, 0), (20, 4, 0), (22, 4, 0),
    (24, 4, 0), (4, 6, 0), (6, 6, 0), (8, 6, 0), (10, 6, 0), (12, 6, 0), (14, 6, 0), (16, 6, 0),
    (18, 6, 0), (20, 6, 0), (22, 6, 0), (24, 6, 0), (26, 6, 0), (0, 7, 0), (2, 7, 0), (28, 7, 0),
    (4, 8, 0), (6, 8, 0), (8, 8, 0), (10, 8, 0), (12, 8, 0), (14, 8, 0), (16, 8, 0), (18, 8, 0),
    (20, 8, 0), (22, 8, 0), (24, 8, 0), (26, 8, 0), (6, 10, 0), (8, 10, 0), (10, 10, 0),
    (12, 10, 0), (14, 10, 0), (16, 10, 0), (18, 10, 0), (20, 10, 0), (22, 10, 0), (24, 10, 0),
    (8, 12, 0), (10, 12, 0), (12, 12, 0), (14, 12, 0), (16, 12, 0), (18, 12, 0), (20, 12, 0),
    (22, 12, 0), (4, 14, 0), (6, 14, 0), (8, 14, 0), (10, 14, 0), (12, 14, 0), (14, 14, 0),
    (16, 14, 0), (18, 14, 0), (20, 14, 0), (22, 14, 0), (24, 14, 0), (26, 14, 0), (10, 2, 1),
    (12, 2, 1), (14, 2, 1), (16, 2, 1), (18, 2, 1), (20, 2, 1), (10, 4, 1), (12, 4, 1), (14, 4, 1),
    (16, 4, 1), (18, 4, 1), (20, 4, 1), (10, 6, 1), (12, 6, 1), (14, 6, 1), (16, 6, 1), (18, 6, 1),
    (20, 6, 1), (10, 8, 1), (12, 8, 1), (14, 8, 1), (16, 8, 1), (18, 8, 1), (20, 8, 1), (10, 10, 1),
    (12, 10, 1), (14, 10, 1), (16, 10, 1), (18, 10, 1), (20, 10, 1), (10, 12, 1), (12, 12, 1),
    (14, 12, 1), (16, 12, 1), (18, 12, 1), (20, 12, 1), (12, 4, 2), (14, 4, 2), (16, 4, 2),
    (18, 4, 2), (12, 6, 2), (14, 6, 2), (16, 6, 2), (18, 6, 2), (12, 8, 2), (14, 8, 2), (16, 8, 2),
    (18, 8, 2), (12, 10, 2), (14, 10, 2), (16, 10, 2), (18, 10, 2), (14, 6, 3), (16, 6, 3),
    (14, 8, 3), (16, 8, 3), (15, 7, 4)];
    r
}

} // verus!
