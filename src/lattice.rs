//! Lattice coordinates and the 26-cell Moore neighbourhood count.

use crate::live_set::{live_members, live_set_contains, LiveSet};
use vstd::prelude::*;

verus! {

/// A cell's position in the integer lattice.
#[derive(Clone, Copy, PartialEq, Eq, Structural, Debug, Hash)]
pub struct Coord {
    pub x: i32,
    pub y: i32,
    pub z: i32,
}

impl View for Coord {
    type V = (int, int, int);

    open spec fn view(&self) -> (int, int, int) {
        (self.x as int, self.y as int, self.z as int)
    }
}

impl Coord {
    pub fn new(x: i32, y: i32, z: i32) -> (r: Coord)
        ensures
            r.x == x && r.y == y && r.z == z,
    {
        Coord { x, y, z }
    }
}

/// Whether the neighbour at offset `(dx, dy, dz)` from `c` is counted: the
/// offset is not the cell itself and the neighbour is live.
pub open spec fn hit(live: Set<(int, int, int)>, c: (int, int, int), dx: int, dy: int, dz: int) -> int {
    if !(dx == 0 && dy == 0 && dz == 0) && live.contains((c.0 + dx, c.1 + dy, c.2 + dz)) {
        1
    } else {
        0
    }
}

/// Live neighbours of `c` on the line of offsets `(dx, dy, -1..=1)`.
pub open spec fn line_count(live: Set<(int, int, int)>, c: (int, int, int), dx: int, dy: int) -> int {
    hit(live, c, dx, dy, -1) + hit(live, c, dx, dy, 0) + hit(live, c, dx, dy, 1)
}

/// Live neighbours of `c` in the plane of offsets `(dx, -1..=1, -1..=1)`.
pub open spec fn plane_count(live: Set<(int, int, int)>, c: (int, int, int), dx: int) -> int {
    line_count(live, c, dx, -1) + line_count(live, c, dx, 0) + line_count(live, c, dx, 1)
}

/// The number of the 26 Moore neighbours of `c` that `live` holds.
pub open spec fn neighbor_count_of(live: Set<(int, int, int)>, c: (int, int, int)) -> int {
    plane_count(live, c, -1) + plane_count(live, c, 0) + plane_count(live, c, 1)
}

/// `a` and `b` are distinct and within Chebyshev distance one.
pub open spec fn adjacent(a: (int, int, int), b: (int, int, int)) -> bool {
    &&& a != b
    &&& -1 <= a.0 - b.0 <= 1
    &&& -1 <= a.1 - b.1 <= 1
    &&& -1 <= a.2 - b.2 <= 1
}

/// Every neighbour of `c` is representable as a coordinate.
pub open spec fn has_representable_neighbors(c: Coord) -> bool {
    &&& i32::MIN < c.x < i32::MAX
    &&& i32::MIN < c.y < i32::MAX
    &&& i32::MIN < c.z < i32::MAX
}

fn count_line(live: &LiveSet, c: Coord, dx: i32, dy: i32) -> (r: usize)
    requires
        has_representable_neighbors(c),
        -1 <= dx <= 1,
        -1 <= dy <= 1,
    ensures
        r == line_count(live_members(*live), c@, dx as int, dy as int),
        r <= 3,
{
    let mut r: usize = 0;
    if live_set_contains(live, (c.x + dx, c.y + dy, c.z - 1)) {
        r = r + 1;
    }
    if (dx != 0 || dy != 0) && live_set_contains(live, (c.x + dx, c.y + dy, c.z)) {
        r = r + 1;
    }
    if live_set_contains(live, (c.x + dx, c.y + dy, c.z + 1)) {
        r = r + 1;
    }
    r
}

/// The number of live cells among the 26 neighbours of `c`; cells outside
/// any grid are never in a live set and so never count.
pub fn neighbor_count(live: &LiveSet, c: Coord) -> (r: usize)
    requires
        has_representable_neighbors(c),
    ensures
        r == neighbor_count_of(live_members(*live), c@),
        r <= 26,
{
    let mut r: usize = 0;
    let mut dx: i32 = -1;
    while dx <= 1
        invariant
            has_representable_neighbors(c),
            -1 <= dx <= 2,
            r == (if dx >= 0 { plane_count(live_members(*live), c@, -1) } else { 0 }) + (if dx
                >= 1 { plane_count(live_members(*live), c@, 0) } else { 0 }) + (if dx >= 2 {
                plane_count(live_members(*live), c@, 1)
            } else { 0 }),
            r <= 9 * (dx + 1),
        decreases 2 - dx,
    {
        let a = count_line(live, c, dx, -1);
        let b = count_line(live, c, dx, 0);
        let d = count_line(live, c, dx, 1);
        r = r + a + b + d;
        dx = dx + 1;
    }
    proof {
        lemma_neighbor_count_bounded(live_members(*live), c@);
    }
    r
}

/// A neighbour count lies between 0 and 26.
pub proof fn lemma_neighbor_count_bounded(live: Set<(int, int, int)>, c: (int, int, int))
    ensures
        0 <= neighbor_count_of(live, c) <= 26,
{
}

/// A live cell with no other live cell within Chebyshev distance one has no
/// live neighbours.
pub proof fn lemma_isolated_cell_sees_none(live: Set<(int, int, int)>, c: (int, int, int))
    requires
        forall|d: (int, int, int)| #[trigger] live.contains(d) ==> !adjacent(d, c),
    ensures
        neighbor_count_of(live, c) == 0,
{
}

/// With a single live cell `b`, a cell `a` counts one neighbour exactly when
/// the two are adjacent.
pub proof fn lemma_single_live_cell(a: (int, int, int), b: (int, int, int))
    ensures
        neighbor_count_of(set![b], a) == if adjacent(a, b) { 1int } else { 0 },
{
}

/// The neighbour relation is symmetric: `a` sees `b` alive exactly when `b`
/// sees `a` alive.
pub proof fn lemma_neighbor_count_symmetric(a: (int, int, int), b: (int, int, int))
    ensures
        neighbor_count_of(set![b], a) == neighbor_count_of(set![a], b),
{
    lemma_single_live_cell(a, b);
    lemma_single_live_cell(b, a);
}

} // verus!
