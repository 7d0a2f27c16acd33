//! The adjacency graph: for every slot, the list of slots that neighbour it
//! and in which direction.  Built once per board shape from the position
//! table by the geometric rule in `position`, and read-only afterwards.

use vstd::prelude::*;

use crate::position::{
    lemma_neighbour_symmetry, neighbour_direction, spec_rev, Direction, Neighbour, Position,
};

verus! {

/// The mathematical view of a vector of neighbour lists.
pub open spec fn lists_view(g: Seq<Vec<Neighbour>>) -> Seq<Seq<Neighbour>> {
    Seq::new(g.len(), |i: int| g[i]@)
}

/// Every entry of the list names a real slot that neighbours slot `i`, with
/// the right direction.
pub open spec fn adj_list_sound(ps: Seq<Position>, l: Seq<Neighbour>, i: int) -> bool {
    forall|k: int|
        0 <= k < l.len() ==> (#[trigger] l[k]).id < ps.len() && neighbour_direction(
            ps[i],
            ps[l[k].id as int],
        ) == Some(l[k].direction)
}

/// Entries are listed in strictly ascending slot order, so no slot appears
/// twice.
pub open spec fn adj_list_sorted(l: Seq<Neighbour>) -> bool {
    forall|k1: int, k2: int| 0 <= k1 < k2 < l.len() ==> (#[trigger] l[k1]).id < (#[trigger] l[k2]).id
}

/// Every slot that neighbours slot `i` appears in the list.
pub open spec fn adj_list_complete(ps: Seq<Position>, l: Seq<Neighbour>, i: int) -> bool {
    forall|j: int|
        0 <= j < ps.len() && (#[trigger] neighbour_direction(ps[i], ps[j])) is Some ==> exists|k: int|
            0 <= k < l.len() && (#[trigger] l[k]).id == j && Some(l[k].direction)
                == neighbour_direction(ps[i], ps[j])
}

/// The whole graph matches the geometry: one list per slot, each sound,
/// duplicate-free and complete.
pub open spec fn graph_wf(ps: Seq<Position>, g: Seq<Seq<Neighbour>>) -> bool {
    g.len() == ps.len() && forall|i: int|
        0 <= i < g.len() ==> adj_list_sound(ps, #[trigger] g[i], i) && adj_list_sorted(g[i])
            && adj_list_complete(ps, g[i], i)
}

/// A slot absent from slot `t`'s list does not neighbour `t` from its own
/// side either.
pub proof fn lemma_absent_edge(ps: Seq<Position>, g: Seq<Seq<Neighbour>>, t: int, i: int)
    requires
        graph_wf(ps, g),
        0 <= t < ps.len(),
        0 <= i < ps.len(),
        forall|k: int| 0 <= k < g[t].len() ==> (#[trigger] g[t][k]).id != i,
    ensures
        neighbour_direction(ps[i], ps[t]) is None,
{
    if neighbour_direction(ps[i], ps[t]) is Some {
        let d = neighbour_direction(ps[i], ps[t])->Some_0;
        lemma_neighbour_symmetry(ps[t], ps[i], spec_rev(d));
        assert(neighbour_direction(ps[t], ps[i]) == Some(spec_rev(d)));
        let k = choose|k: int|
            0 <= k < g[t].len() && (#[trigger] g[t][k]).id == i && Some(g[t][k].direction)
                == neighbour_direction(ps[t], ps[i]);
        assert(g[t][k].id == i);
    }
}

/// Adjacency symmetry at the graph level: slot `j` stands in slot `i`'s list
/// with direction `d` exactly when slot `i` stands in slot `j`'s list with
/// the reverse direction.
#[verifier::rlimit(50)]
pub proof fn lemma_graph_symmetry(
    ps: Seq<Position>,
    g: Seq<Seq<Neighbour>>,
    i: int,
    j: int,
    d: Direction,
)
    requires
        graph_wf(ps, g),
        ps.len() <= usize::MAX,
        0 <= i < ps.len(),
        0 <= j < ps.len(),
    ensures
        (exists|k: int| 0 <= k < g[i].len() && #[trigger] g[i][k] == (Neighbour {
            id: j as usize,
            direction: d,
        })) <==> (exists|k: int| 0 <= k < g[j].len() && #[trigger] g[j][k] == (Neighbour {
            id: i as usize,
            direction: spec_rev(d),
        })),
{
    lemma_neighbour_symmetry(ps[i], ps[j], d);
    lemma_neighbour_symmetry(ps[j], ps[i], spec_rev(d));
    if exists|k: int| 0 <= k < g[i].len() && #[trigger] g[i][k] == (Neighbour {
        id: j as usize,
        direction: d,
    }) {
        let k0 = choose|k: int|
            0 <= k < g[i].len() && #[trigger] g[i][k] == (Neighbour { id: j as usize, direction: d });
        assert(g[i][k0].id == j as usize);
        assert(neighbour_direction(ps[i], ps[g[i][k0].id as int]) == Some(g[i][k0].direction));
        assert(neighbour_direction(ps[i], ps[j]) == Some(d));
        assert(neighbour_direction(ps[j], ps[i]) == Some(spec_rev(d)));
        let k = choose|k: int|
            0 <= k < g[j].len() && (#[trigger] g[j][k]).id == i && Some(g[j][k].direction)
                == neighbour_direction(ps[j], ps[i]);
        assert(g[j][k] == Neighbour { id: i as usize, direction: spec_rev(d) });
    }
    if exists|k: int| 0 <= k < g[j].len() && #[trigger] g[j][k] == (Neighbour {
        id: i as usize,
        direction: spec_rev(d),
    }) {
        let k0 = choose|k: int|
            0 <= k < g[j].len() && #[trigger] g[j][k] == (Neighbour {
                id: i as usize,
                direction: spec_rev(d),
            });
        assert(g[j][k0].id == i as usize);
        assert(neighbour_direction(ps[j], ps[g[j][k0].id as int]) == Some(g[j][k0].direction));
        assert(neighbour_direction(ps[j], ps[i]) == Some(spec_rev(d)));
        assert(spec_rev(spec_rev(d)) == d);
        assert(neighbour_direction(ps[i], ps[j]) == Some(d));
        let k = choose|k: int|
            0 <= k < g[i].len() && (#[trigger] g[i][k]).id == j && Some(g[i][k].direction)
                == neighbour_direction(ps[i], ps[j]);
        assert(g[i][k] == Neighbour { id: j as usize, direction: d });
    }
}

/// Builds the neighbour list of every slot by testing each ordered pair of
/// slots against the geometric rule.
#[verifier::rlimit(50)]
pub fn create_neighbour_list(positions: &Vec<Position>) -> (r: Vec<Vec<Neighbour>>)
    ensures
        graph_wf(positions@, lists_view(r@)),
        r@.len() == positions@.len(),
{
    let n = positions.len();
    let mut r: Vec<Vec<Neighbour>> = Vec::new();
    for i in 0..n
        invariant
            n == positions@.len(),
            r@.len() == i,
            forall|m: int|
                0 <= m < i ==> adj_list_sound(positions@, (#[trigger] r@[m])@, m) && adj_list_sorted(
                    r@[m]@,
                ) && adj_list_complete(positions@, r@[m]@, m),
    {
        let mut row: Vec<Neighbour> = Vec::new();
        for j in 0..n
            invariant
                n == positions@.len(),
                i < n,
                forall|k: int|
                    0 <= k < row@.len() ==> (#[trigger] row@[k]).id < j && neighbour_direction(
                        positions@[i as int],
                        positions@[row@[k].id as int],
                    ) == Some(row@[k].direction),
                forall|k1: int, k2: int|
                    0 <= k1 < k2 < row@.len() ==> (#[trigger] row@[k1]).id < (
                    #[trigger] row@[k2]).id,
                forall|j2: int|
                    0 <= j2 < j && (#[trigger] neighbour_direction(
                        positions@[i as int],
                        positions@[j2],
                    )) is Some ==> exists|k: int|
                        0 <= k < row@.len() && (#[trigger] row@[k]).id == j2 && Some(
                            row@[k].direction,
                        ) == neighbour_direction(positions@[i as int], positions@[j2]),
        {
            let ghost row0 = row@;
            if let Some(direction) = positions[i].neighbours(positions[j]) {
                row.push(Neighbour { id: j, direction });
            }
            proof {
                assert forall|j2: int|
                    0 <= j2 < j + 1 && (#[trigger] neighbour_direction(
                        positions@[i as int],
                        positions@[j2],
                    )) is Some implies exists|k: int|
                    0 <= k < row@.len() && (#[trigger] row@[k]).id == j2 && Some(row@[k].direction)
                        == neighbour_direction(positions@[i as int], positions@[j2]) by {
                    if j2 < j {
                        let k0 = choose|k: int|
                            0 <= k < row0.len() && (#[trigger] row0[k]).id == j2 && Some(
                                row0[k].direction,
                            ) == neighbour_direction(positions@[i as int], positions@[j2]);
                        assert(row@[k0] == row0[k0]);
                    } else {
                        let k0 = row@.len() - 1;
                        assert(row@[k0].id == j2);
                    }
                }
            }
        }
        r.push(row);
        proof {
            assert(r@[i as int]@ == row@);
        }
    }
    r
}

} // verus!
