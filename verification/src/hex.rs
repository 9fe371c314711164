use vstd::prelude::*;

verus! {

/// Axial coordinates of a hexagonal cell (`x` is the column axis, `y` the row axis),
/// the same coordinates that `hexx::Hex` holds.
#[derive(Debug, Clone, Copy, PartialEq, Eq, Structural, Hash)]
pub struct Hex {
    pub x: i32,
    pub y: i32,
}

/// Axial offset from a cell to its neighbor number `i` (`0 <= i < 6`), in the
/// edge-direction order that `hexx` uses for `Hex::all_neighbors`.
pub open spec fn neighbor_offset(i: int) -> (int, int) {
    if i == 0 {
        (1, 0)
    } else if i == 1 {
        (0, 1)
    } else if i == 2 {
        (-1, 1)
    } else if i == 3 {
        (-1, 0)
    } else if i == 4 {
        (0, -1)
    } else {
        (1, -1)
    }
}

impl Hex {
    /// The map key under which the grid stores this cell.
    pub open spec fn key(self) -> (i32, i32) {
        (self.x, self.y)
    }

    /// Whether every neighbor of this cell has coordinates that fit in `i32`.
    pub open spec fn has_neighbors(self) -> bool {
        i32::MIN < self.x < i32::MAX && i32::MIN < self.y < i32::MAX
    }

    /// Neighbor number `i` of this cell.
    pub open spec fn neighbor(self, i: int) -> Hex
        recommends
            self.has_neighbors(),
            0 <= i < 6,
    {
        Hex {
            x: (self.x + neighbor_offset(i).0) as i32,
            y: (self.y + neighbor_offset(i).1) as i32,
        }
    }

    pub fn new(x: i32, y: i32) -> (h: Hex)
        ensures
            h.x == x,
            h.y == y,
    {
        Hex { x, y }
    }

    /// The cell with the given map key.
    pub fn from_key(key: (i32, i32)) -> (h: Hex)
        ensures
            h.key() == key,
    {
        Hex { x: key.0, y: key.1 }
    }

    pub fn to_key(&self) -> (k: (i32, i32))
        ensures
            k == self.key(),
    {
        (self.x, self.y)
    }

    /// The six neighbors of this cell, in edge-direction order.
    pub fn all_neighbors(&self) -> (r: [Hex; 6])
        requires
            self.has_neighbors(),
        ensures
            forall|i: int| 0 <= i < 6 ==> #[trigger] r[i] == self.neighbor(i),
    {
        hexx_all_neighbors(*self)
    }
}

/// Calls `hexx::Hex::all_neighbors`, which adds each of the six entries of
/// `hexx::Hex::NEIGHBORS_COORDS` ((1,0), (0,1), (-1,1), (-1,0), (0,-1), (1,-1))
/// to the cell; the contract claims that result. Coordinates that would
/// overflow `i32` are left out, since the addition panics there.
#[verifier::external_body]
fn hexx_all_neighbors(pos: Hex) -> (r: [Hex; 6])
    requires
        pos.has_neighbors(),
    ensures
        forall|i: int| 0 <= i < 6 ==> #[trigger] r[i] == pos.neighbor(i),
{
    hexx::Hex::new(pos.x, pos.y).all_neighbors().map(|n| Hex::new(n.x, n.y))
}

} // verus!
