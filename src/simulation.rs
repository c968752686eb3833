//! A grid driven by a tick scheduler: elapsed time in, generations out.

use crate::grid::{all_dead, generations, in_box, Grid};
use crate::probability::RandomizeGridEvent;
use crate::rule::CellState;
use crate::ticker::TickScheduler;
use vstd::prelude::*;

verus! {

/// An automaton and the scheduler that decides when it steps.
pub struct Simulation {
    grid: Grid,
    ticker: TickScheduler,
}

impl Simulation {
    pub closed spec fn spec_grid(self) -> Grid {
        self.grid
    }

    pub closed spec fn spec_ticker(self) -> TickScheduler {
        self.ticker
    }

    pub open spec fn wf(self) -> bool {
        self.spec_grid().wf() && self.spec_ticker().wf()
    }

    pub fn new(grid: Grid, ticker: TickScheduler) -> (r: Simulation)
        ensures
            r.spec_grid() == grid,
            r.spec_ticker() == ticker,
    {
        Simulation { grid, ticker }
    }

    pub fn grid(&self) -> (r: &Grid)
        ensures
            *r == self.spec_grid(),
    {
        &self.grid
    }

    pub fn ticker(&self) -> (r: &TickScheduler)
        ensures
            *r == self.spec_ticker(),
    {
        &self.ticker
    }

    /// Advances the clock by `delta_nanos` and runs one generation for every
    /// tick that fires; returns the number of generations run.
    pub fn update(&mut self, delta_nanos: u64) -> (steps: u64)
        requires
            old(self).wf(),
        ensures
            final(self).wf(),
            final(self).spec_ticker().interval() == old(self).spec_ticker().interval(),
            steps * old(self).spec_ticker().interval() + final(self).spec_ticker().accumulated()
                == old(self).spec_ticker().accumulated() + delta_nanos,
            final(self).spec_grid().spec_dims() == old(self).spec_grid().spec_dims(),
            final(self).spec_grid().spec_rule() == old(self).spec_grid().spec_rule(),
            final(self).spec_grid()@ == generations(
                old(self).spec_grid()@,
                old(self).spec_grid().spec_rule(),
                steps as nat,
            ),
    {
        let steps = self.ticker.poll(delta_nanos);
        let ghost start = self.grid;
        let ghost ticked = self.ticker;
        let mut k: u64 = 0;
        while k < steps
            invariant
                k <= steps,
                self.ticker == ticked,
                self.grid.wf(),
                self.grid.spec_dims() == start.spec_dims(),
                self.grid.spec_rule() == start.spec_rule(),
                self.grid@ == generations(start@, start.spec_rule(), k as nat),
            decreases steps - k,
        {
            self.grid.step();
            k = k + 1;
        }
        steps
    }

    /// Handles a reseed request; the scheduler is left as it was.
    pub fn randomize(&mut self, event: &RandomizeGridEvent)
        requires
            old(self).wf(),
            event.probability.wf(),
        ensures
            final(self).wf(),
            final(self).spec_ticker() == old(self).spec_ticker(),
            final(self).spec_grid().spec_dims() == old(self).spec_grid().spec_dims(),
            final(self).spec_grid().spec_rule() == old(self).spec_grid().spec_rule(),
            final(self).spec_grid()@.dom() == old(self).spec_grid()@.dom(),
            event.probability.num() == 0 ==> final(self).spec_grid()@ == all_dead(
                old(self).spec_grid().spec_dims(),
            ),
            event.probability.num() == event.probability.den() ==> final(self).spec_grid()@
                == Map::new(
                |k: (int, int, int)| in_box(old(self).spec_grid().spec_dims(), k),
                |k: (int, int, int)| CellState::Alive,
            ),
    {
        self.grid.randomize(event);
    }
}

} // verus!
