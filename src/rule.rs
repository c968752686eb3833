//! Cell states, configuration errors and the survival/birth rule.

use vstd::prelude::*;

verus! {

/// The state of one cell of the lattice.
#[derive(Clone, Copy, PartialEq, Eq, Structural, Debug, Hash)]
pub enum CellState {
    Alive,
    Dead,
}

/// What a constructor or a lookup reports instead of silently correcting it.
#[derive(Clone, Copy, PartialEq, Eq, Structural, Debug)]
pub enum LifeError {
    /// The survival range has its lower end above its upper end.
    InvertedSurvivalRange,
    /// The birth range has its lower end above its upper end.
    InvertedBirthRange,
    /// A probability whose numerator exceeds its denominator, or whose
    /// denominator is zero.
    ProbabilityOutOfRange,
    /// A grid dimension below one.
    NonPositiveDimension,
    /// A grid with more cells than a `usize` can count.
    GridTooLarge,
    /// A tick interval of zero.
    NonPositiveInterval,
    /// A coordinate outside the grid's bounds.
    OutOfBounds,
}

/// The generation rule: an alive cell survives when its live-neighbour count
/// lies in `[survive_lo, survive_hi]`; a dead cell is born when the count lies
/// in `[birth_lo, birth_hi]` or equals `birth_exact`.
#[derive(Clone, Copy, Debug)]
pub struct Rule {
    survive_lo: usize,
    survive_hi: usize,
    birth_lo: usize,
    birth_hi: usize,
    birth_exact: Option<usize>,
}

impl Rule {
    pub closed spec fn survive_lo(self) -> nat {
        self.survive_lo as nat
    }

    pub closed spec fn survive_hi(self) -> nat {
        self.survive_hi as nat
    }

    pub closed spec fn birth_lo(self) -> nat {
        self.birth_lo as nat
    }

    pub closed spec fn birth_hi(self) -> nat {
        self.birth_hi as nat
    }

    pub closed spec fn birth_exact(self) -> Option<nat> {
        match self.birth_exact {
            Some(e) => Some(e as nat),
            None => None,
        }
    }

    /// Both ranges are non-empty.
    pub open spec fn wf(self) -> bool {
        self.survive_lo() <= self.survive_hi() && self.birth_lo() <= self.birth_hi()
    }

    /// An alive cell with `n` live neighbours stays alive.
    pub open spec fn survives(self, n: int) -> bool {
        self.survive_lo() <= n <= self.survive_hi()
    }

    /// A dead cell with `n` live neighbours comes alive.
    pub open spec fn births(self, n: int) -> bool {
        (self.birth_lo() <= n <= self.birth_hi()) || self.birth_exact() == Some(n as nat)
    }

    /// The state a cell in state `s` with `n` live neighbours has in the next
    /// generation.
    pub open spec fn next(self, s: CellState, n: int) -> CellState {
        match s {
            CellState::Alive => if self.survives(n) {
                CellState::Alive
            } else {
                CellState::Dead
            },
            CellState::Dead => if self.births(n) {
                CellState::Alive
            } else {
                CellState::Dead
            },
        }
    }

    /// Builds a rule, refusing an inverted survival range first, then an
    /// inverted birth range.
    pub fn new(
        survive_lo: usize,
        survive_hi: usize,
        birth_lo: usize,
        birth_hi: usize,
        birth_exact: Option<usize>,
    ) -> (r: Result<Rule, LifeError>)
        ensures
            survive_lo > survive_hi ==> r == Err::<Rule, LifeError>(LifeError::InvertedSurvivalRange),
            survive_lo <= survive_hi && birth_lo > birth_hi ==> r == Err::<Rule, LifeError>(
                LifeError::InvertedBirthRange,
            ),
            survive_lo <= survive_hi && birth_lo <= birth_hi ==> (r matches Ok(rule) && {
                &&& rule.survive_lo() == survive_lo
                &&& rule.survive_hi() == survive_hi
                &&& rule.birth_lo() == birth_lo
                &&& rule.birth_hi() == birth_hi
                &&& rule.birth_exact() == match birth_exact {
                    Some(e) => Some(e as nat),
                    None => None::<nat>,
                }
                &&& rule.wf()
            }),
    {
        if survive_lo > survive_hi {
            Err(LifeError::InvertedSurvivalRange)
        } else if birth_lo > birth_hi {
            Err(LifeError::InvertedBirthRange)
        } else {
            Ok(Rule { survive_lo, survive_hi, birth_lo, birth_hi, birth_exact })
        }
    }

    /// Applies the rule to one cell.
    pub fn next_state(&self, s: CellState, n: usize) -> (r: CellState)
        ensures
            r == self.next(s, n as int),
    {
        match s {
            CellState::Alive => {
                if self.survive_lo <= n && n <= self.survive_hi {
                    CellState::Alive
                } else {
                    CellState::Dead
                }
            },
            CellState::Dead => {
                let exact = match self.birth_exact {
                    Some(e) => e == n,
                    None => false,
                };
                if (self.birth_lo <= n && n <= self.birth_hi) || exact {
                    CellState::Alive
                } else {
                    CellState::Dead
                }
            },
        }
    }
}

} // verus!
