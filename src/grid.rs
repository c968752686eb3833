//! The automaton engine: a dense table with one state per cell of a bounded
//! box, stepped synchronously one generation at a time and reseeded on demand.

use crate::lattice::{lemma_isolated_cell_sees_none, neighbor_count, neighbor_count_of, Coord};
use crate::live_set::{live_members, live_set_insert, live_set_new, LiveSet};
use crate::probability::{draw_samples, Probability, RandomizeGridEvent};
use crate::rule::{CellState, LifeError, Rule};
use vstd::arithmetic::div_mod::lemma_fundamental_div_mod_converse;
use vstd::prelude::*;

verus! {

/// Position of cell `(x, y, z)` in the table of a grid with `ny` rows and
/// `nz` layers: `x` varies slowest, `z` fastest.
pub open spec fn cell_index(ny: int, nz: int, x: int, y: int, z: int) -> int {
    (x * ny + y) * nz + z
}

/// `c` lies inside the box `[0, d.0) × [0, d.1) × [0, d.2)`.
pub open spec fn in_box(d: (int, int, int), c: (int, int, int)) -> bool {
    &&& 0 <= c.0 < d.0
    &&& 0 <= c.1 < d.1
    &&& 0 <= c.2 < d.2
}

/// The coordinates of the live cells of a table.
pub open spec fn live_cells(m: Map<(int, int, int), CellState>) -> Set<(int, int, int)> {
    Set::new(|c: (int, int, int)| m.dom().contains(c) && m[c] == CellState::Alive)
}

/// The table one generation later: every cell is evaluated against the live
/// cells of the same snapshot `m`, never against partly updated state.
pub open spec fn next_generation(m: Map<(int, int, int), CellState>, rule: Rule) -> Map<
    (int, int, int),
    CellState,
> {
    Map::new(
        |c: (int, int, int)| m.dom().contains(c),
        |c: (int, int, int)| rule.next(m[c], neighbor_count_of(live_cells(m), c)),
    )
}

/// The table `n` generations after `m`.
pub open spec fn generations(m: Map<(int, int, int), CellState>, rule: Rule, n: nat) -> Map<
    (int, int, int),
    CellState,
>
    decreases n,
{
    if n == 0 {
        m
    } else {
        next_generation(generations(m, rule, (n - 1) as nat), rule)
    }
}

/// The table of a box in which every cell is dead.
pub open spec fn all_dead(d: (int, int, int)) -> Map<(int, int, int), CellState> {
    Map::new(|c: (int, int, int)| in_box(d, c), |c: (int, int, int)| CellState::Dead)
}

proof fn lemma_index_bounds(nx: int, ny: int, nz: int, x: int, y: int, z: int)
    requires
        in_box((nx, ny, nz), (x, y, z)),
    ensures
        0 <= x * ny,
        x * ny + y < nx * ny,
        nx * ny <= nx * ny * nz,
        (x * ny + y) * nz <= cell_index(ny, nz, x, y, z) < nx * ny * nz,
{
    assert(0 <= x * ny && x * ny + y < nx * ny) by (nonlinear_arith)
        requires
            0 <= x < nx,
            0 <= y < ny,
    ;
    assert(nx * ny <= nx * ny * nz) by (nonlinear_arith)
        requires
            nx * ny >= 0,
            nz >= 1,
    ;
    let u = x * ny + y;
    assert(0 <= u * nz && u * nz + z < nx * ny * nz) by (nonlinear_arith)
        requires
            0 <= u < nx * ny,
            0 <= z < nz,
    ;
}

proof fn lemma_index_injective(ny: int, nz: int, a: (int, int, int), b: (int, int, int))
    requires
        0 <= a.1 < ny,
        0 <= a.2 < nz,
        0 <= b.1 < ny,
        0 <= b.2 < nz,
        cell_index(ny, nz, a.0, a.1, a.2) == cell_index(ny, nz, b.0, b.1, b.2),
    ensures
        a == b,
{
    let i = cell_index(ny, nz, a.0, a.1, a.2);
    lemma_fundamental_div_mod_converse(i, nz, a.0 * ny + a.1, a.2);
    lemma_fundamental_div_mod_converse(i, nz, b.0 * ny + b.1, b.2);
    let u = a.0 * ny + a.1;
    lemma_fundamental_div_mod_converse(u, ny, a.0, a.1);
    lemma_fundamental_div_mod_converse(u, ny, b.0, b.1);
}

/// The coordinate after `c` in table order, with its index one higher.
fn next_coord(c: Coord, ny: i32, nz: i32) -> (r: Coord)
    requires
        0 <= c.x < i32::MAX,
        0 <= c.y < ny,
        0 <= c.z < nz,
    ensures
        cell_index(ny as int, nz as int, r.x as int, r.y as int, r.z as int) == cell_index(
            ny as int,
            nz as int,
            c.x as int,
            c.y as int,
            c.z as int,
        ) + 1,
        0 <= r.y < ny,
        0 <= r.z < nz,
        r.x == c.x || (r.x == c.x + 1 && r.y == 0 && r.z == 0),
{
    let ghost (x, y, z) = (c.x as int, c.y as int, c.z as int);
    let ghost (yn, zn) = (ny as int, nz as int);
    if c.z + 1 < nz {
        Coord { x: c.x, y: c.y, z: c.z + 1 }
    } else if c.y + 1 < ny {
        assert((x * yn + y) * zn + zn == (x * yn + y + 1) * zn) by (nonlinear_arith);
        Coord { x: c.x, y: c.y + 1, z: 0 }
    } else {
        assert((x * yn + y) * zn + zn == ((x + 1) * yn) * zn) by (nonlinear_arith)
            requires
                y + 1 == yn,
        ;
        Coord { x: c.x + 1, y: 0, z: 0 }
    }
}

/// A bounded box of cells, each alive or dead, and the rule that evolves it.
pub struct Grid {
    nx: i32,
    ny: i32,
    nz: i32,
    rule: Rule,
    cells: Vec<CellState>,
}

impl View for Grid {
    type V = Map<(int, int, int), CellState>;

    /// Coordinate to state, one entry per coordinate inside the box.
    closed spec fn view(&self) -> Map<(int, int, int), CellState> {
        Map::new(
            |c: (int, int, int)| in_box(self.spec_dims(), c),
            |c: (int, int, int)| self.cells@[self.index_of(c)],
        )
    }
}

impl Grid {
    /// The extent of the box along each axis.
    pub closed spec fn spec_dims(self) -> (int, int, int) {
        (self.nx as int, self.ny as int, self.nz as int)
    }

    pub closed spec fn spec_rule(self) -> Rule {
        self.rule
    }

    closed spec fn index_of(self, c: (int, int, int)) -> int {
        cell_index(self.ny as int, self.nz as int, c.0, c.1, c.2)
    }

    /// Every extent is positive and the table holds one state per cell.
    pub closed spec fn wf(self) -> bool {
        &&& self.nx >= 1
        &&& self.ny >= 1
        &&& self.nz >= 1
        &&& self.cells@.len() == self.nx * self.ny * self.nz
    }

    /// A well-formed grid has positive extents and a table whose keys are
    /// exactly the coordinates inside its box.
    pub proof fn lemma_wf_domain(self)
        requires
            self.wf(),
        ensures
            self.spec_dims().0 >= 1 && self.spec_dims().1 >= 1 && self.spec_dims().2 >= 1,
            forall|c: (int, int, int)| #[trigger]
                self@.dom().contains(c) <==> in_box(self.spec_dims(), c),
    {
    }

    /// A grid of `nx × ny × nz` dead cells under `rule`. Refuses an extent
    /// below one, then a cell count that a `usize` cannot hold.
    pub fn new(nx: i32, ny: i32, nz: i32, rule: Rule) -> (r: Result<Grid, LifeError>)
        ensures
            (nx < 1 || ny < 1 || nz < 1) ==> r == Err::<Grid, LifeError>(
                LifeError::NonPositiveDimension,
            ),
            (nx >= 1 && ny >= 1 && nz >= 1 && nx * ny * nz > usize::MAX) ==> r == Err::<
                Grid,
                LifeError,
            >(LifeError::GridTooLarge),
            (nx >= 1 && ny >= 1 && nz >= 1 && nx * ny * nz <= usize::MAX) ==> (r matches Ok(g)
                && g.wf() && g.spec_dims() == (nx as int, ny as int, nz as int) && g.spec_rule()
                == rule && g@ == all_dead((nx as int, ny as int, nz as int))),
    {
        if nx < 1 || ny < 1 || nz < 1 {
            return Err(LifeError::NonPositiveDimension);
        }
        let ghost (a, b, c) = (nx as int, ny as int, nz as int);
        let total = match (nx as usize).checked_mul(ny as usize) {
            Some(p) => match p.checked_mul(nz as usize) {
                Some(t) => t,
                None => {
                    return Err(LifeError::GridTooLarge);
                },
            },
            None => {
                assert(a * b * c >= a * b) by (nonlinear_arith)
                    requires
                        a * b >= 0,
                        c >= 1,
                ;
                return Err(LifeError::GridTooLarge);
            },
        };
        let mut cells: Vec<CellState> = Vec::with_capacity(total);
        while cells.len() < total
            invariant
                cells@.len() <= total,
                forall|j: int| 0 <= j < cells@.len() ==> #[trigger] cells@[j] == CellState::Dead,
            decreases total - cells@.len(),
        {
            cells.push(CellState::Dead);
        }
        let g = Grid { nx, ny, nz, rule, cells };
        assert(g@ =~= all_dead((a, b, c))) by {
            assert forall|k: (int, int, int)| in_box((a, b, c), k) implies
                g.cells@[g.index_of(k)] == CellState::Dead by {
                lemma_index_bounds(a, b, c, k.0, k.1, k.2);
            }
        }
        Ok(g)
    }

    pub fn nx(&self) -> (r: i32)
        ensures
            r == self.spec_dims().0,
    {
        self.nx
    }

    pub fn ny(&self) -> (r: i32)
        ensures
            r == self.spec_dims().1,
    {
        self.ny
    }

    pub fn nz(&self) -> (r: i32)
        ensures
            r == self.spec_dims().2,
    {
        self.nz
    }

    pub fn rule(&self) -> (r: Rule)
        ensures
            r == self.spec_rule(),
    {
        self.rule
    }

    /// The number of cells in the box.
    pub fn cell_count(&self) -> (r: usize)
        requires
            self.wf(),
        ensures
            r == self.spec_dims().0 * self.spec_dims().1 * self.spec_dims().2,
    {
        self.cells.len()
    }

    /// The table position of an in-bounds coordinate.
    fn index(&self, c: Coord) -> (r: usize)
        requires
            self.wf(),
            in_box(self.spec_dims(), c@),
        ensures
            r == self.index_of(c@),
            r < self.cells@.len(),
    {
        // Reading the length brings in that the table's size fits a usize.
        let _size = self.cells.len();
        proof {
            lemma_index_bounds(self.nx as int, self.ny as int, self.nz as int, c@.0, c@.1, c@.2);
        }
        ((c.x as usize) * (self.ny as usize) + (c.y as usize)) * (self.nz as usize) + (c.z as usize)
    }

    fn in_bounds(&self, c: Coord) -> (r: bool)
        ensures
            r == in_box(self.spec_dims(), c@),
    {
        0 <= c.x && c.x < self.nx && 0 <= c.y && c.y < self.ny && 0 <= c.z && c.z < self.nz
    }

    /// The state of the cell at `c`; a coordinate outside the box is an error.
    pub fn get(&self, c: Coord) -> (r: Result<CellState, LifeError>)
        requires
            self.wf(),
        ensures
            in_box(self.spec_dims(), c@) ==> r == Ok::<CellState, LifeError>(self@[c@]),
            !in_box(self.spec_dims(), c@) ==> r == Err::<CellState, LifeError>(
                LifeError::OutOfBounds,
            ),
    {
        if self.in_bounds(c) {
            Ok(self.cells[self.index(c)])
        } else {
            Err(LifeError::OutOfBounds)
        }
    }

    /// Sets the cell at `c` to `s`; a coordinate outside the box is an error
    /// and leaves the grid unchanged.
    pub fn set(&mut self, c: Coord, s: CellState) -> (r: Result<(), LifeError>)
        requires
            old(self).wf(),
        ensures
            final(self).wf(),
            final(self).spec_dims() == old(self).spec_dims(),
            final(self).spec_rule() == old(self).spec_rule(),
            in_box(old(self).spec_dims(), c@) ==> r == Ok::<(), LifeError>(()) && final(self)@
                == old(self)@.insert(c@, s),
            !in_box(old(self).spec_dims(), c@) ==> r == Err::<(), LifeError>(
                LifeError::OutOfBounds,
            ) && final(self)@ == old(self)@,
    {
        if !self.in_bounds(c) {
            return Err(LifeError::OutOfBounds);
        }
        let i = self.index(c);
        let ghost before = *self;
        self.cells.set(i, s);
        proof {
            let (a, b, d) = (self.nx as int, self.ny as int, self.nz as int);
            assert forall|k: (int, int, int)| in_box((a, b, d), k) && k != c@ implies
                self.cells@[self.index_of(k)] == before.cells@[before.index_of(k)] by {
                lemma_index_bounds(a, b, d, k.0, k.1, k.2);
                if self.index_of(k) == i {
                    lemma_index_injective(b, d, k, c@);
                }
            }
            assert(self@ =~= before@.insert(c@, s));
        }
        Ok(())
    }
    /// The coordinates of the live cells, scanning every cell once.
    pub fn live_set(&self) -> (r: LiveSet)
        requires
            self.wf(),
        ensures
            live_members(r) == live_cells(self@),
    {
        let ghost (a, b, d) = self.spec_dims();
        let len = self.cells.len();
        let mut live = live_set_new();
        let mut i: usize = 0;
        let mut c = Coord::new(0, 0, 0);
        assert(cell_index(b, d, 0, 0, 0) == 0) by (nonlinear_arith);
        while i < len
            invariant
                self.wf(),
                len == self.cells@.len(),
                (a, b, d) == self.spec_dims(),
                i <= len,
                i == self.index_of(c@),
                0 <= c.x <= a,
                0 <= c.y < b,
                0 <= c.z < d,
                c.x < a || (c.x == a && c.y == 0 && c.z == 0),
                live_members(live) == Set::new(
                    |k: (int, int, int)|
                        in_box((a, b, d), k) && self.index_of(k) < i && self.cells@[self.index_of(
                            k,
                        )] == CellState::Alive,
                ),
            decreases len - i,
        {
            let ghost before = live_members(live);
            if self.cells[i] == CellState::Alive {
                live_set_insert(&mut live, (c.x, c.y, c.z));
            }
            proof {
                assert(c.x < a);
                assert forall|k: (int, int, int)|
                    in_box((a, b, d), k) && #[trigger] self.index_of(k) == i implies k == c@ by {
                    lemma_index_injective(b, d, k, c@);
                }
                assert(live_members(live) =~= Set::new(
                    |k: (int, int, int)|
                        in_box((a, b, d), k) && self.index_of(k) < i + 1 && self.cells@[self.index_of(
                            k,
                        )] == CellState::Alive,
                ));
            }
            c = next_coord(c, self.ny, self.nz);
            i = i + 1;
        }
        proof {
            assert forall|k: (int, int, int)| in_box((a, b, d), k) implies self.index_of(k) < len by {
                lemma_index_bounds(a, b, d, k.0, k.1, k.2);
            }
            assert(live_members(live) =~= live_cells(self@));
        }
        live
    }

    /// One generation: snapshots the live cells, evaluates every cell's
    /// neighbour count against that snapshot, and commits all new states at
    /// once. Returns the coordinates whose state changed, each once, in table
    /// order.
    pub fn step(&mut self) -> (changed: Vec<Coord>)
        requires
            old(self).wf(),
        ensures
            final(self).wf(),
            final(self).spec_dims() == old(self).spec_dims(),
            final(self).spec_rule() == old(self).spec_rule(),
            final(self)@ == next_generation(old(self)@, old(self).spec_rule()),
            forall|j: int|
                0 <= j < changed@.len() ==> old(self)@.dom().contains(#[trigger] changed@[j]@)
                    && old(self)@[changed@[j]@] != final(self)@[changed@[j]@],
            forall|k: (int, int, int)|
                old(self)@.dom().contains(k) && old(self)@[k] != final(self)@[k] ==> exists|j: int|
                    0 <= j < changed@.len() && #[trigger] changed@[j]@ == k,
            forall|j1: int, j2: int|
                0 <= j1 < j2 < changed@.len() ==> #[trigger] changed@[j1]@ != #[trigger] changed@[j2]@,
    {
        let ghost (a, b, d) = self.spec_dims();
        let ghost snapshot = self@;
        let live = self.live_set();
        let len = self.cells.len();
        let mut next: Vec<CellState> = Vec::with_capacity(len);
        let mut i: usize = 0;
        let mut c = Coord::new(0, 0, 0);
        assert(cell_index(b, d, 0, 0, 0) == 0) by (nonlinear_arith);
        while i < len
            invariant
                self.wf(),
                len == self.cells@.len(),
                (a, b, d) == self.spec_dims(),
                snapshot == self@,
                live_members(live) == live_cells(snapshot),
                i <= len,
                next@.len() == i,
                i == self.index_of(c@),
                0 <= c.x <= a,
                0 <= c.y < b,
                0 <= c.z < d,
                c.x < a || (c.x == a && c.y == 0 && c.z == 0),
                forall|k: (int, int, int)|
                    in_box((a, b, d), k) && #[trigger] self.index_of(k) < i ==> next@[self.index_of(
                        k,
                    )] == self.rule.next(snapshot[k], neighbor_count_of(live_cells(snapshot), k)),
            decreases len - i,
        {
            proof {
                assert(c.x < a);
                assert(self.cells@[self.index_of(c@)] == snapshot[c@]);
            }
            let n = neighbor_count(&live, c);
            let s = self.rule.next_state(self.cells[i], n);
            next.push(s);
            proof {
                assert forall|k: (int, int, int)|
                    in_box((a, b, d), k) && #[trigger] self.index_of(k) < i + 1 implies next@[self.index_of(
                        k,
                    )] == self.rule.next(snapshot[k], neighbor_count_of(live_cells(snapshot), k)) by {
                    if self.index_of(k) == i {
                        lemma_index_injective(b, d, k, c@);
                    }
                }
            }
            c = next_coord(c, self.ny, self.nz);
            i = i + 1;
        }
        let changed = self.changed_cells(&next);
        self.cells = next;
        proof {
            assert forall|k: (int, int, int)| in_box((a, b, d), k) implies self.index_of(k) < len by {
                lemma_index_bounds(a, b, d, k.0, k.1, k.2);
            }
            assert(self@ =~= next_generation(snapshot, self.rule));
        }
        changed
    }

    /// The coordinates whose state differs between this grid and the table
    /// `next`, each once, in table order.
    fn changed_cells(&self, next: &Vec<CellState>) -> (changed: Vec<Coord>)
        requires
            self.wf(),
            next@.len() == self.cells@.len(),
        ensures
            forall|j: int|
                0 <= j < changed@.len() ==> in_box(self.spec_dims(), #[trigger] changed@[j]@)
                    && next@[self.index_of(changed@[j]@)] != self@[changed@[j]@],
            forall|k: (int, int, int)|
                in_box(self.spec_dims(), k) && next@[self.index_of(k)] != self@[k] ==> exists|j: int|
                    0 <= j < changed@.len() && #[trigger] changed@[j]@ == k,
            forall|j1: int, j2: int|
                0 <= j1 < j2 < changed@.len() ==> #[trigger] changed@[j1]@ != #[trigger] changed@[j2]@,
    {
        let ghost (a, b, d) = self.spec_dims();
        let len = self.cells.len();
        let mut changed: Vec<Coord> = Vec::new();
        let mut i: usize = 0;
        let mut c = Coord::new(0, 0, 0);
        assert(cell_index(b, d, 0, 0, 0) == 0) by (nonlinear_arith);
        while i < len
            invariant
                self.wf(),
                len == self.cells@.len(),
                len == next@.len(),
                (a, b, d) == self.spec_dims(),
                i <= len,
                i == self.index_of(c@),
                0 <= c.x <= a,
                0 <= c.y < b,
                0 <= c.z < d,
                c.x < a || (c.x == a && c.y == 0 && c.z == 0),
                forall|j: int|
                    0 <= j < changed@.len() ==> in_box((a, b, d), #[trigger] changed@[j]@)
                        && self.index_of(changed@[j]@) < i && next@[self.index_of(changed@[j]@)]
                        != self@[changed@[j]@],
                forall|k: (int, int, int)|
                    in_box((a, b, d), k) && #[trigger] self.index_of(k) < i && next@[self.index_of(k)]
                        != self@[k] ==> exists|j: int|
                        0 <= j < changed@.len() && #[trigger] changed@[j]@ == k,
                forall|j1: int, j2: int|
                    0 <= j1 < j2 < changed@.len() ==> self.index_of(#[trigger] changed@[j1]@)
                        < self.index_of(#[trigger] changed@[j2]@),
            decreases len - i,
        {
            proof {
                assert(c.x < a);
            }
            let ghost changed_before = changed@;
            if next[i] != self.cells[i] {
                changed.push(c);
            }
            proof {
                assert forall|k: (int, int, int)|
                    in_box((a, b, d), k) && #[trigger] self.index_of(k) < i + 1 && next@[self.index_of(
                        k,
                    )] != self@[k] implies exists|j: int|
                        0 <= j < changed@.len() && #[trigger] changed@[j]@ == k by {
                    if self.index_of(k) < i {
                        let j0 = choose|j: int|
                            0 <= j < changed_before.len() && #[trigger] changed_before[j]@ == k;
                        assert(changed@[j0] == changed_before[j0]);
                    } else {
                        lemma_index_injective(b, d, k, c@);
                        assert(changed@[changed@.len() - 1]@ == k);
                    }
                }
            }
            c = next_coord(c, self.ny, self.nz);
            i = i + 1;
        }
        proof {
            assert forall|k: (int, int, int)| in_box((a, b, d), k) implies self.index_of(k) < len by {
                lemma_index_bounds(a, b, d, k.0, k.1, k.2);
            }
        }
        changed
    }

    /// Replaces every cell's state: the cell at table position `j` comes alive
    /// exactly when `p` admits `samples[j]`.
    pub fn fill_from_samples(&mut self, samples: &Vec<u32>, p: Probability)
        requires
            old(self).wf(),
            p.wf(),
            samples@.len() == old(self).spec_dims().0 * old(self).spec_dims().1 * old(
                self,
            ).spec_dims().2,
        ensures
            final(self).wf(),
            final(self).spec_dims() == old(self).spec_dims(),
            final(self).spec_rule() == old(self).spec_rule(),
            final(self)@ == Map::new(
                |k: (int, int, int)| in_box(old(self).spec_dims(), k),
                |k: (int, int, int)|
                    if p.admits(
                        samples@[cell_index(
                            old(self).spec_dims().1,
                            old(self).spec_dims().2,
                            k.0,
                            k.1,
                            k.2,
                        )],
                    ) {
                        CellState::Alive
                    } else {
                        CellState::Dead
                    },
            ),
    {
        let ghost (a, b, d) = self.spec_dims();
        let len = self.cells.len();
        let mut next: Vec<CellState> = Vec::with_capacity(len);
        let mut i: usize = 0;
        while i < len
            invariant
                len == self.cells@.len(),
                len == samples@.len(),
                p.wf(),
                i <= len,
                next@.len() == i,
                forall|j: int|
                    0 <= j < i ==> #[trigger] next@[j] == if p.admits(samples@[j]) {
                        CellState::Alive
                    } else {
                        CellState::Dead
                    },
            decreases len - i,
        {
            if p.admits_sample(samples[i]) {
                next.push(CellState::Alive);
            } else {
                next.push(CellState::Dead);
            }
            i = i + 1;
        }
        self.cells = next;
        proof {
            assert forall|k: (int, int, int)| in_box((a, b, d), k) implies self.index_of(k) < len by {
                lemma_index_bounds(a, b, d, k.0, k.1, k.2);
            }
            assert(self@ =~= Map::new(
                |k: (int, int, int)| in_box((a, b, d), k),
                |k: (int, int, int)|
                    if p.admits(samples@[cell_index(b, d, k.0, k.1, k.2)]) {
                        CellState::Alive
                    } else {
                        CellState::Dead
                    },
            ));
        }
    }

    /// Reseeds the whole grid: each cell independently comes alive with
    /// probability `p`, whatever it was before. At probability zero every cell
    /// is dead, at probability one every cell is alive.
    pub fn reseed(&mut self, p: Probability)
        requires
            old(self).wf(),
            p.wf(),
        ensures
            final(self).wf(),
            final(self).spec_dims() == old(self).spec_dims(),
            final(self).spec_rule() == old(self).spec_rule(),
            final(self)@.dom() == old(self)@.dom(),
            p.num() == 0 ==> final(self)@ == all_dead(old(self).spec_dims()),
            p.num() == p.den() ==> final(self)@ == Map::new(
                |k: (int, int, int)| in_box(old(self).spec_dims(), k),
                |k: (int, int, int)| CellState::Alive,
            ),
    {
        let ghost (a, b, d) = self.spec_dims();
        let samples = draw_samples(self.cells.len());
        self.fill_from_samples(&samples, p);
        proof {
            assert(self@.dom() =~= old(self)@.dom());
            if p.num() == 0 {
                assert forall|k: (int, int, int)| in_box((a, b, d), k) implies self@[k]
                    == CellState::Dead by {
                    p.lemma_zero_admits_none(samples@[cell_index(b, d, k.0, k.1, k.2)]);
                }
                assert(self@ =~= all_dead((a, b, d)));
            }
            if p.num() == p.den() {
                assert forall|k: (int, int, int)| in_box((a, b, d), k) implies self@[k]
                    == CellState::Alive by {
                    p.lemma_one_admits_all(samples@[cell_index(b, d, k.0, k.1, k.2)]);
                }
                assert(self@ =~= Map::new(
                    |k: (int, int, int)| in_box((a, b, d), k),
                    |k: (int, int, int)| CellState::Alive,
                ));
            }
        }
    }

    /// Handles a reseed request.
    pub fn randomize(&mut self, event: &RandomizeGridEvent)
        requires
            old(self).wf(),
            event.probability.wf(),
        ensures
            final(self).wf(),
            final(self).spec_dims() == old(self).spec_dims(),
            final(self).spec_rule() == old(self).spec_rule(),
            final(self)@.dom() == old(self)@.dom(),
            event.probability.num() == 0 ==> final(self)@ == all_dead(old(self).spec_dims()),
            event.probability.num() == event.probability.den() ==> final(self)@ == Map::new(
                |k: (int, int, int)| in_box(old(self).spec_dims(), k),
                |k: (int, int, int)| CellState::Alive,
            ),
    {
        self.reseed(event.probability);
    }
}

/// A dead table stays dead for one generation under any rule that gives no
/// birth at zero live neighbours.
pub proof fn lemma_dead_grid_is_fixed_point(d: (int, int, int), rule: Rule)
    requires
        !rule.births(0),
    ensures
        next_generation(all_dead(d), rule) == all_dead(d),
{
    let m = all_dead(d);
    assert(live_cells(m) =~= Set::<(int, int, int)>::empty());
    assert forall|c: (int, int, int)| in_box(d, c) implies neighbor_count_of(live_cells(m), c)
        == 0 by {
        lemma_isolated_cell_sees_none(live_cells(m), c);
    }
    assert(next_generation(m, rule) =~= m);
}

/// An all-dead grid stays all-dead after any number of generations, for any
/// rule that gives no birth at zero live neighbours.
pub proof fn lemma_empty_grid_stays_empty(d: (int, int, int), rule: Rule, n: nat)
    requires
        !rule.births(0),
    ensures
        generations(all_dead(d), rule, n) == all_dead(d),
    decreases n,
{
    if n > 0 {
        lemma_empty_grid_stays_empty(d, rule, (n - 1) as nat);
        lemma_dead_grid_is_fixed_point(d, rule);
    }
}

/// No wrap-around at the border: the corner cell `(0, 0, 0)` of any grid has
/// at most 7 in-bounds neighbours, so at most 7 live ones.
pub proof fn lemma_corner_sees_at_most_seven(g: Grid)
    requires
        g.wf(),
    ensures
        neighbor_count_of(live_cells(g@), (0, 0, 0)) <= 7,
{
    let live = live_cells(g@);
    assert forall|c: (int, int, int)| #[trigger] live.contains(c) implies c.0 >= 0 && c.1 >= 0
        && c.2 >= 0 by {
        g.lemma_wf_domain();
    }
}

} // verus!
