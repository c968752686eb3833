//! The tick scheduler: accumulates elapsed time against a fixed interval and
//! says how many generations are due, carrying the excess forward.

use crate::rule::LifeError;
use vstd::arithmetic::div_mod::lemma_fundamental_div_mod;
use vstd::arithmetic::mul::lemma_mul_is_commutative;
use vstd::prelude::*;

verus! {

/// A repeating timer over nanoseconds. Every poll fires one tick for each
/// whole interval that has elapsed, so catch-up ticks are never dropped.
#[derive(Clone, Copy, Debug)]
pub struct TickScheduler {
    interval: u64,
    accumulated: u64,
}

impl TickScheduler {
    pub closed spec fn interval(self) -> nat {
        self.interval as nat
    }

    /// Time elapsed since the last tick fired.
    pub closed spec fn accumulated(self) -> nat {
        self.accumulated as nat
    }

    /// The interval is positive and less than one interval is pending.
    pub open spec fn wf(self) -> bool {
        0 < self.interval() && self.accumulated() < self.interval()
    }

    /// A scheduler firing every `interval_nanos`; a zero interval is refused.
    pub fn new(interval_nanos: u64) -> (r: Result<TickScheduler, LifeError>)
        ensures
            interval_nanos == 0 ==> r == Err::<TickScheduler, LifeError>(
                LifeError::NonPositiveInterval,
            ),
            interval_nanos > 0 ==> (r matches Ok(t) && t.interval() == interval_nanos
                && t.accumulated() == 0 && t.wf()),
    {
        if interval_nanos == 0 {
            Err(LifeError::NonPositiveInterval)
        } else {
            Ok(TickScheduler { interval: interval_nanos, accumulated: 0 })
        }
    }

    pub fn interval_nanos(&self) -> (r: u64)
        ensures
            r == self.interval(),
    {
        self.interval
    }

    pub fn accumulated_nanos(&self) -> (r: u64)
        ensures
            r == self.accumulated(),
    {
        self.accumulated
    }

    /// Adds `delta_nanos` of elapsed time and returns how many ticks fire:
    /// each fired tick takes one interval off the accumulated time, and what
    /// remains (less than one interval) is carried to the next poll.
    pub fn poll(&mut self, delta_nanos: u64) -> (fired: u64)
        requires
            old(self).wf(),
        ensures
            final(self).wf(),
            final(self).interval() == old(self).interval(),
            fired * old(self).interval() + final(self).accumulated() == old(self).accumulated()
                + delta_nanos,
    {
        let whole = delta_nanos / self.interval;
        let rest = delta_nanos % self.interval;
        let ghost iv = self.interval as int;
        proof {
            lemma_fundamental_div_mod(delta_nanos as int, iv);
            lemma_mul_is_commutative(whole as int, iv);
        }
        if rest >= self.interval - self.accumulated {
            assert(whole < u64::MAX) by (nonlinear_arith)
                requires
                    whole * iv + rest == delta_nanos,
                    delta_nanos <= u64::MAX,
                    rest >= iv - self.accumulated,
                    self.accumulated < iv,
                    whole >= 0,
                    rest >= 0,
            ;
            self.accumulated = rest - (self.interval - self.accumulated);
            assert((whole + 1) * iv == whole * iv + iv) by (nonlinear_arith);
            whole + 1
        } else {
            self.accumulated = self.accumulated + rest;
            whole
        }
    }
}

} // verus!
