//! The footprint view of a slot: the four unit cells a tile covers, and the
//! neighbour and blocking relations read off from cell overlap.  This is the
//! cell-level counterpart of the coordinate rule in `position`.

use vstd::prelude::*;

use crate::position::Position;

verus! {

/// The four cells `[x, x+1] x [y, y+1]` a tile at `(x, y, z)` covers.
#[derive(Clone, Copy, Debug)]
pub struct TilePosition {
    /// The four covered cells.
    pub positions: [Position; 4],
}

/// Whether the footprint covers the cell at the given coordinates.
pub open spec fn covers(t: TilePosition, cx: int, cy: int, cz: int) -> bool {
    exists|k: int|
        0 <= k < 4 && (#[trigger] t.positions@[k]).x == cx && t.positions@[k].y == cy
            && t.positions@[k].z == cz
}

impl TilePosition {
    /// The base column of the footprint.
    pub closed spec fn spec_x(&self) -> int {
        self.positions@[0].x as int
    }

    /// The base row of the footprint.
    pub closed spec fn spec_y(&self) -> int {
        self.positions@[0].y as int
    }

    /// The layer of the footprint.
    pub closed spec fn spec_z(&self) -> int {
        self.positions@[0].z as int
    }

    /// The footprint covers exactly its own four cells.
    pub open spec fn wf(&self) -> bool {
        forall|cx: int, cy: int, cz: int|
            #[trigger] covers(*self, cx, cy, cz) <==> (self.spec_x() <= cx <= self.spec_x() + 1
                && self.spec_y() <= cy <= self.spec_y() + 1 && cz == self.spec_z())
    }

    /// Builds the footprint of a tile at `(x, y, z)`.
    pub fn new(x: u8, y: u8, z: u8) -> (r: TilePosition)
        requires
            x < 255,
            y < 255,
        ensures
            r.wf(),
            r.spec_x() == x,
            r.spec_y() == y,
            r.spec_z() == z,
    {
        let r = TilePosition {
            positions: [
                Position::new(x, y, z),
                Position::new(x + 1, y, z),
                Position::new(x, y + 1, z),
                Position::new(x + 1, y + 1, z),
            ],
        };
        proof {
            assert forall|cx: int, cy: int, cz: int|
                #[trigger] covers(r, cx, cy, cz) <==> (r.spec_x() <= cx <= r.spec_x() + 1
                    && r.spec_y() <= cy <= r.spec_y() + 1 && cz == r.spec_z()) by {
                if r.spec_x() <= cx <= r.spec_x() + 1 && r.spec_y() <= cy <= r.spec_y() + 1 && cz
                    == r.spec_z() {
                    let k = (if cy == r.spec_y() {
                        0int
                    } else {
                        2int
                    }) + (if cx == r.spec_x() {
                        0int
                    } else {
                        1int
                    });
                    assert(r.positions@[k].x == cx && r.positions@[k].y == cy && r.positions@[k].z
                        == cz);
                }
            }
        }
        r
    }

    /// The base column.
    pub fn x(&self) -> (r: u8)
        ensures
            r as int == self.spec_x(),
    {
        self.positions[0].x
    }

    /// The base row.
    pub fn y(&self) -> (r: u8)
        ensures
            r as int == self.spec_y(),
    {
        self.positions[0].y
    }

    /// The layer.
    pub fn z(&self) -> (r: u8)
        ensures
            r as int == self.spec_z(),
    {
        self.positions[0].z
    }

    /// Whether the footprint covers the given cell.
    pub fn is_on_position(&self, other: &Position) -> (r: bool)
        ensures
            r == covers(*self, other.x as int, other.y as int, other.z as int),
    {
        let mut r = false;
        for k in 0..4usize
            invariant
                r == exists|k2: int|
                    0 <= k2 < k && (#[trigger] self.positions@[k2]).x == other.x
                        && self.positions@[k2].y == other.y && self.positions@[k2].z == other.z,
        {
            let p = self.positions[k];
            if p.x == other.x && p.y == other.y && p.z == other.z {
                r = true;
            }
        }
        r
    }

    /// Whether `other` covers a cell two columns to the right of this
    /// footprint's base, on the same layer with overlapping rows.
    pub fn is_left_of(&self, other: &TilePosition) -> (r: bool)
        ensures
            r == (covers(*other, self.spec_x() + 2, self.spec_y(), self.spec_z()) || covers(
                *other,
                self.spec_x() + 2,
                self.spec_y() + 1,
                self.spec_z(),
            )),
    {
        self.cell_check(other, self.positions[0].x as u16 + 2, self.positions[0].y as u16)
    }

    /// Whether this footprint covers a cell two columns to the right of
    /// `other`'s base, on the same layer with overlapping rows.
    pub fn is_right_of(&self, other: &TilePosition) -> (r: bool)
        ensures
            r == (covers(*self, other.spec_x() + 2, other.spec_y(), other.spec_z()) || covers(
                *self,
                other.spec_x() + 2,
                other.spec_y() + 1,
                other.spec_z(),
            )),
    {
        other.cell_check(self, other.positions[0].x as u16 + 2, other.positions[0].y as u16)
    }

    /// Whether this footprint rests at least partly on top of `other`.
    pub fn is_above(&self, other: &TilePosition) -> (r: bool)
        ensures
            r == (covers(*self, other.spec_x(), other.spec_y(), other.spec_z() + 1) || covers(
                *self,
                other.spec_x() + 1,
                other.spec_y(),
                other.spec_z() + 1,
            ) || covers(*self, other.spec_x(), other.spec_y() + 1, other.spec_z() + 1) || covers(
                *self,
                other.spec_x() + 1,
                other.spec_y() + 1,
                other.spec_z() + 1,
            )),
    {
        other.quad_check(self)
    }

    /// Whether `other` rests at least partly on top of this footprint.
    pub fn is_under(&self, other: &TilePosition) -> (r: bool)
        ensures
            r == (covers(*other, self.spec_x(), self.spec_y(), self.spec_z() + 1) || covers(
                *other,
                self.spec_x() + 1,
                self.spec_y(),
                self.spec_z() + 1,
            ) || covers(*other, self.spec_x(), self.spec_y() + 1, self.spec_z() + 1) || covers(
                *other,
                self.spec_x() + 1,
                self.spec_y() + 1,
                self.spec_z() + 1,
            )),
    {
        self.quad_check(other)
    }

    /// Whether the two footprints touch: side by side or stacked.
    pub fn is_neighbour_of(&self, other: &TilePosition) -> (r: bool)
        ensures
            r == (self.is_left_of_spec(other) || other.is_left_of_spec(self)
                || self.is_above_spec(other) || other.is_above_spec(self)),
    {
        self.is_left_of(other) || self.is_right_of(other) || self.is_above(other) || self.is_under(
            other,
        )
    }

    /// The side relation as a spec value.
    pub open spec fn is_left_of_spec(&self, other: &TilePosition) -> bool {
        covers(*other, self.spec_x() + 2, self.spec_y(), self.spec_z()) || covers(
            *other,
            self.spec_x() + 2,
            self.spec_y() + 1,
            self.spec_z(),
        )
    }

    /// The stacking relation as a spec value.
    pub open spec fn is_above_spec(&self, other: &TilePosition) -> bool {
        covers(*self, other.spec_x(), other.spec_y(), other.spec_z() + 1) || covers(
            *self,
            other.spec_x() + 1,
            other.spec_y(),
            other.spec_z() + 1,
        ) || covers(*self, other.spec_x(), other.spec_y() + 1, other.spec_z() + 1) || covers(
            *self,
            other.spec_x() + 1,
            other.spec_y() + 1,
            other.spec_z() + 1,
        )
    }

    /// Tests whether `other` covers either of the two cells at `(cx, cy)`
    /// and `(cx, cy + 1)` on this footprint's layer; widened arithmetic, so
    /// coordinates past the board edge simply match nothing.
    fn cell_check(&self, other: &TilePosition, cx: u16, cy: u16) -> (r: bool)
        ensures
            r == (covers(*other, cx as int, cy as int, self.spec_z()) || covers(
                *other,
                cx as int,
                cy as int + 1,
                self.spec_z(),
            )),
    {
        let cz = self.positions[0].z;
        let mut r = false;
        for k in 0..4usize
            invariant
                r == exists|k2: int|
                    0 <= k2 < k && (#[trigger] other.positions@[k2]).x == cx as int && (
                    other.positions@[k2].y == cy as int || other.positions@[k2].y == cy as int + 1)
                        && other.positions@[k2].z == cz,
                cz as int == self.spec_z(),
        {
            let p = other.positions[k];
            if p.x as u16 == cx && (p.y as u16 == cy || p.y as u32 == cy as u32 + 1) && p.z == cz {
                r = true;
            }
        }
        r
    }

    /// Tests whether `upper` covers any cell of this footprint one layer
    /// up.
    fn quad_check(&self, upper: &TilePosition) -> (r: bool)
        ensures
            r == (covers(*upper, self.spec_x(), self.spec_y(), self.spec_z() + 1) || covers(
                *upper,
                self.spec_x() + 1,
                self.spec_y(),
                self.spec_z() + 1,
            ) || covers(*upper, self.spec_x(), self.spec_y() + 1, self.spec_z() + 1) || covers(
                *upper,
                self.spec_x() + 1,
                self.spec_y() + 1,
                self.spec_z() + 1,
            )),
    {
        let bx = self.positions[0].x as u16;
        let by = self.positions[0].y as u16;
        let bz = self.positions[0].z as u16;
        let mut r = false;
        for k in 0..4usize
            invariant
                bx as int == self.spec_x(),
                by as int == self.spec_y(),
                bz as int == self.spec_z(),
                r == exists|k2: int|
                    0 <= k2 < k && ((#[trigger] upper.positions@[k2]).x == bx as int
                        || upper.positions@[k2].x == bx as int + 1) && (upper.positions@[k2].y == by
                        as int || upper.positions@[k2].y == by as int + 1)
                        && upper.positions@[k2].z == bz as int + 1,
        {
            let p = upper.positions[k];
            if (p.x as u16 == bx || p.x as u16 == bx + 1) && (p.y as u16 == by || p.y as u16 == by
                + 1) && p.z as u16 == bz + 1 {
                r = true;
            }
        }
        r
    }
}

/// Which of a tile's blocking lists to read.
#[derive(Clone, Copy, Debug, PartialEq, Eq, Structural)]
pub enum Blocking {
    Vertically,
    Right,
    Left,
}

/// For one tile, the tiles its footprint presses on: those it rests on,
/// and those directly to its left and right.
pub struct TileBlockingData {
    /// The tile the lists belong to.
    pub tile_index: usize,
    /// Tiles directly under this one.
    pub blocking_vertically: Vec<usize>,
    /// Tiles directly to the right.
    pub blocking_right: Vec<usize>,
    /// Tiles directly to the left.
    pub blocking_left: Vec<usize>,
}

/// Tile `a` rests on tile `b`: some cell of `b` lies directly under `a`'s
/// footprint.
pub open spec fn blocks_vertically(a: TilePosition, b: TilePosition) -> bool {
    a.spec_z() > 0 && (covers(b, a.spec_x(), a.spec_y(), a.spec_z() - 1) || covers(
        b,
        a.spec_x() + 1,
        a.spec_y(),
        a.spec_z() - 1,
    ) || covers(b, a.spec_x(), a.spec_y() + 1, a.spec_z() - 1) || covers(
        b,
        a.spec_x() + 1,
        a.spec_y() + 1,
        a.spec_z() - 1,
    ))
}

/// Tile `b` stands directly left of tile `a`.
pub open spec fn blocks_left(a: TilePosition, b: TilePosition) -> bool {
    a.spec_x() > 0 && (covers(b, a.spec_x() - 1, a.spec_y(), a.spec_z()) || covers(
        b,
        a.spec_x() - 1,
        a.spec_y() + 1,
        a.spec_z(),
    ))
}

/// Tile `b` stands directly right of tile `a`.
pub open spec fn blocks_right(a: TilePosition, b: TilePosition) -> bool {
    covers(b, a.spec_x() + 2, a.spec_y(), a.spec_z()) || covers(
        b,
        a.spec_x() + 2,
        a.spec_y() + 1,
        a.spec_z(),
    )
}

/// Which blocking relation a list selector stands for.
pub open spec fn blocks(which: Blocking, a: TilePosition, b: TilePosition) -> bool {
    match which {
        Blocking::Vertically => blocks_vertically(a, b),
        Blocking::Left => blocks_left(a, b),
        Blocking::Right => blocks_right(a, b),
    }
}

/// The list holds exactly the tiles that tile `i` presses on in the given
/// way, in ascending order.
pub open spec fn blocking_list_exact(
    l: Seq<usize>,
    tiles: Seq<TilePosition>,
    i: int,
    which: Blocking,
) -> bool {
    &&& forall|k: int|
        0 <= k < l.len() ==> (#[trigger] l[k]) < tiles.len() && blocks(
            which,
            tiles[i],
            tiles[l[k] as int],
        )
    &&& forall|k1: int, k2: int| 0 <= k1 < k2 < l.len() ==> l[k1] < l[k2]
    &&& forall|j: int|
        0 <= j < tiles.len() && blocks(which, tiles[i], #[trigger] tiles[j]) ==> exists|k: int|
            0 <= k < l.len() && l[k] == j
}

impl TileBlockingData {
    /// Selects one of the three blocking lists.
    pub fn get_blocking(&self, blocking: Blocking) -> (r: &Vec<usize>)
        ensures
            r == match blocking {
                Blocking::Left => &self.blocking_left,
                Blocking::Right => &self.blocking_right,
                Blocking::Vertically => &self.blocking_vertically,
            },
    {
        match blocking {
            Blocking::Left => &self.blocking_left,
            Blocking::Right => &self.blocking_right,
            Blocking::Vertically => &self.blocking_vertically,
        }
    }
}

/// Whether the footprint covers the cell at widened coordinates; a cell
/// past the edge of the coordinate space matches nothing.
fn covers_cell(t: &TilePosition, cx: u16, cy: u16, cz: u16) -> (r: bool)
    ensures
        r == covers(*t, cx as int, cy as int, cz as int),
{
    let mut r = false;
    for k in 0..4usize
        invariant
            r == exists|k2: int|
                0 <= k2 < k && (#[trigger] t.positions@[k2]).x == cx as int && t.positions@[k2].y
                    == cy as int && t.positions@[k2].z == cz as int,
    {
        let p = t.positions[k];
        if p.x as u16 == cx && p.y as u16 == cy && p.z as u16 == cz {
            r = true;
        }
    }
    r
}

/// Whether tile `a` presses on tile `b` in the given way.
fn blocks_exec(which: Blocking, a: &TilePosition, b: &TilePosition) -> (r: bool)
    ensures
        r == blocks(which, *a, *b),
{
    let x = a.x() as u16;
    let y = a.y() as u16;
    let z = a.z() as u16;
    match which {
        Blocking::Vertically => {
            if z == 0 {
                false
            } else {
                covers_cell(b, x, y, z - 1) || covers_cell(b, x + 1, y, z - 1) || covers_cell(
                    b,
                    x,
                    y + 1,
                    z - 1,
                ) || covers_cell(b, x + 1, y + 1, z - 1)
            }
        },
        Blocking::Left => {
            if x == 0 {
                false
            } else {
                covers_cell(b, x - 1, y, z) || covers_cell(b, x - 1, y + 1, z)
            }
        },
        Blocking::Right => {
            covers_cell(b, x + 2, y, z) || covers_cell(b, x + 2, y + 1, z)
        },
    }
}

/// One blocking list of one tile, built by scanning all tiles in order.
fn blocking_list(tiles: &Vec<TilePosition>, i: usize, which: Blocking) -> (r: Vec<usize>)
    requires
        i < tiles@.len(),
    ensures
        blocking_list_exact(r@, tiles@, i as int, which),
{
    let n = tiles.len();
    let mut l: Vec<usize> = Vec::new();
    for j in 0..n
        invariant
            n == tiles@.len(),
            i < n,
            forall|k: int|
                0 <= k < l@.len() ==> (#[trigger] l@[k]) < j && blocks(
                    which,
                    tiles@[i as int],
                    tiles@[l@[k] as int],
                ),
            forall|k1: int, k2: int| 0 <= k1 < k2 < l@.len() ==> l@[k1] < l@[k2],
            forall|j2: int|
                0 <= j2 < j && blocks(which, tiles@[i as int], #[trigger] tiles@[j2])
                    ==> exists|k: int| 0 <= k < l@.len() && l@[k] == j2,
    {
        let ghost l0 = l@;
        if blocks_exec(which, &tiles[i], &tiles[j]) {
            l.push(j);
        }
        proof {
            assert forall|j2: int|
                0 <= j2 < j + 1 && blocks(which, tiles@[i as int], #[trigger] tiles@[j2])
                    implies exists|k: int| 0 <= k < l@.len() && l@[k] == j2 by {
                if j2 < j {
                    let k = choose|k: int| 0 <= k < l0.len() && l0[k] == j2;
                    assert(l@[k] == l0[k]);
                } else {
                    assert(l@[l@.len() - 1] == j2);
                }
            }
        }
    }
    l
}

/// Derives, for every tile, the tiles it rests on and the tiles standing
/// directly beside it, from the footprints alone.
pub fn generate_blocking_data(tiles: &Vec<TilePosition>) -> (r: Vec<TileBlockingData>)
    ensures
        r@.len() == tiles@.len(),
        forall|i: int| 0 <= i < r@.len() ==> (#[trigger] r@[i]).tile_index == i,
        forall|i: int|
            0 <= i < r@.len() ==> blocking_list_exact(
                (#[trigger] r@[i]).blocking_vertically@,
                tiles@,
                i,
                Blocking::Vertically,
            ) && blocking_list_exact(r@[i].blocking_left@, tiles@, i, Blocking::Left)
                && blocking_list_exact(r@[i].blocking_right@, tiles@, i, Blocking::Right),
{
    let n = tiles.len();
    let mut r: Vec<TileBlockingData> = Vec::new();
    for i in 0..n
        invariant
            n == tiles@.len(),
            r@.len() == i,
            forall|m: int| 0 <= m < i ==> (#[trigger] r@[m]).tile_index == m,
            forall|m: int|
                0 <= m < i ==> blocking_list_exact(
                    (#[trigger] r@[m]).blocking_vertically@,
                    tiles@,
                    m,
                    Blocking::Vertically,
                ) && blocking_list_exact(r@[m].blocking_left@, tiles@, m, Blocking::Left)
                    && blocking_list_exact(r@[m].blocking_right@, tiles@, m, Blocking::Right),
    {
        let blocking_vertically = blocking_list(tiles, i, Blocking::Vertically);
        let blocking_left = blocking_list(tiles, i, Blocking::Left);
        let blocking_right = blocking_list(tiles, i, Blocking::Right);
        r.push(
            TileBlockingData { tile_index: i, blocking_vertically, blocking_right, blocking_left },
        );
    }
    r
}

} // verus!
