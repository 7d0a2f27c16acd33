//! Slot positions and the neighbour relation derived from their geometry.
//!
//! A slot at `(x, y, z)` owns the footprint `[x, x+1] x [y, y+1]` at height
//! `z`.  Two slots are side neighbours when they sit on the same layer, two
//! columns apart, with overlapping rows; a slot is an up neighbour of another
//! when it lies one layer higher with overlapping footprints.

use vstd::prelude::*;

verus! {

/// One slot location: small unsigned coordinates, immutable for the life of a
/// board shape.
#[derive(Clone, Copy, Debug, PartialEq, Eq, Structural)]
pub struct Position {
    pub x: u8,
    pub y: u8,
    pub z: u8,
}

/// Direction of a neighbour relative to a slot: `Up` is one layer above,
/// `Left` is two columns towards smaller `x`, and so on.
#[derive(Clone, Copy, Debug, PartialEq, Eq, Structural)]
pub enum Direction {
    Up,
    Down,
    Right,
    Left,
}

/// One edge of the adjacency graph: the slot `id` lies in direction
/// `direction` from the slot whose list the edge is stored in.
#[derive(Clone, Copy, Debug, PartialEq, Eq, Structural)]
pub struct Neighbour {
    pub id: usize,
    pub direction: Direction,
}

/// The reverse of a direction: `Up` and `Down` swap, `Left` and `Right` swap.
pub open spec fn spec_rev(d: Direction) -> Direction {
    match d {
        Direction::Up => Direction::Down,
        Direction::Down => Direction::Up,
        Direction::Left => Direction::Right,
        Direction::Right => Direction::Left,
    }
}

/// Rows overlap: the `y` footprints `[a.y, a.y+1]` and `[b.y, b.y+1]` share a
/// cell.
pub open spec fn rows_overlap(a: Position, b: Position) -> bool {
    a.y <= b.y + 1 && b.y <= a.y + 1
}

/// Columns overlap: the `x` footprints share a cell.
pub open spec fn columns_overlap(a: Position, b: Position) -> bool {
    a.x <= b.x + 1 && b.x <= a.x + 1
}

/// `b` is one layer above `a` and rests at least partly on top of it.
pub open spec fn is_up_neighbour(a: Position, b: Position) -> bool {
    a.z + 1 == b.z && columns_overlap(a, b) && rows_overlap(a, b)
}

/// `b` is one layer below `a`, under at least part of its footprint.
pub open spec fn is_down_neighbour(a: Position, b: Position) -> bool {
    a.z == b.z + 1 && columns_overlap(a, b) && rows_overlap(a, b)
}

/// `b` sits on the same layer, two columns towards smaller `x`, with
/// overlapping rows.
pub open spec fn is_left_neighbour(a: Position, b: Position) -> bool {
    a.z == b.z && a.x == b.x + 2 && rows_overlap(a, b)
}

/// `b` sits on the same layer, two columns towards larger `x`, with
/// overlapping rows.
pub open spec fn is_right_neighbour(a: Position, b: Position) -> bool {
    a.z == b.z && a.x + 2 == b.x && rows_overlap(a, b)
}

/// The direction in which `b` neighbours `a`, if it does.  This is the single
/// geometric rule from which the whole adjacency graph is derived.  Opaque:
/// proofs outside this module treat it as an abstract relation and use the
/// lemmas below.
#[verifier::opaque]
pub open spec fn neighbour_direction(a: Position, b: Position) -> Option<Direction> {
    if is_up_neighbour(a, b) {
        Some(Direction::Up)
    } else if is_down_neighbour(a, b) {
        Some(Direction::Down)
    } else if is_left_neighbour(a, b) {
        Some(Direction::Left)
    } else if is_right_neighbour(a, b) {
        Some(Direction::Right)
    } else {
        None
    }
}

/// Adjacency symmetry: `b` neighbours `a` in direction `d` exactly when `a`
/// neighbours `b` in the reverse direction.  In particular a slot has another
/// as up neighbour exactly when the second has the first as down neighbour,
/// and likewise for left and right.
pub proof fn lemma_neighbour_symmetry(a: Position, b: Position, d: Direction)
    ensures
        neighbour_direction(a, b) == Some(d) <==> neighbour_direction(b, a) == Some(spec_rev(d)),
{
    reveal(neighbour_direction);
}

/// A slot is never its own neighbour.
pub proof fn lemma_no_self_edge(a: Position)
    ensures
        neighbour_direction(a, a) is None,
{
    reveal(neighbour_direction);
}

impl Direction {
    /// The reverse direction.
    pub fn rev(self) -> (r: Direction)
        ensures
            r == spec_rev(self),
    {
        match self {
            Direction::Left => Direction::Right,
            Direction::Right => Direction::Left,
            Direction::Up => Direction::Down,
            Direction::Down => Direction::Up,
        }
    }
}

impl Neighbour {
    /// Packs a slot index and the direction it lies in.
    pub fn new(id: usize, direction: Direction) -> (r: Neighbour)
        ensures
            r == (Neighbour { id, direction }),
    {
        Neighbour { id, direction }
    }

    /// The slot index the edge points at.
    pub fn position(&self) -> (r: usize)
        ensures
            r == self.id,
    {
        self.id
    }
}

impl Position {
    /// Builds a position from raw coordinates.
    pub fn new(x: u8, y: u8, z: u8) -> (r: Position)
        ensures
            r == (Position { x, y, z }),
    {
        Position { x, y, z }
    }

    /// Packs the coordinates into one integer key, `x` in the high bits.
    pub fn to_key(&self) -> (r: u32)
        ensures
            r == (self.x as u32) * 0x10000 + (self.y as u32) * 0x100 + (self.z as u32),
    {
        (self.x as u32) * 0x10000 + (self.y as u32) * 0x100 + (self.z as u32)
    }

    /// The direction in which `other` neighbours `self`, if it does.
    pub fn neighbours(self, other: Position) -> (r: Option<Direction>)
        ensures
            r == neighbour_direction(self, other),
    {
        let sx = self.x as u16;
        let sy = self.y as u16;
        let sz = self.z as u16;
        let ox = other.x as u16;
        let oy = other.y as u16;
        let oz = other.z as u16;
        proof {
            reveal(neighbour_direction);
        }
        let rows = sy <= oy + 1 && oy <= sy + 1;
        let columns = sx <= ox + 1 && ox <= sx + 1;
        if sz + 1 == oz && columns && rows {
            Some(Direction::Up)
        } else if sz == oz + 1 && columns && rows {
            Some(Direction::Down)
        } else if sz == oz && sx == ox + 2 && rows {
            Some(Direction::Left)
        } else if sz == oz && sx + 2 == ox && rows {
            Some(Direction::Right)
        } else {
            None
        }
    }
}

} // verus!
