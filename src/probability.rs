//! Reseed requests: the probability with which each cell comes alive, and
//! the uniform samples that decide it.

use crate::rule::LifeError;
use vstd::prelude::*;

verus! {

/// A probability `numerator / denominator` in `[0, 1]`.
#[derive(Clone, Copy, Debug)]
pub struct Probability {
    numerator: u32,
    denominator: u32,
}

/// The number of distinct values of a `u32` sample.
pub const SAMPLE_SPAN: u64 = 4294967296;

impl Probability {
    pub closed spec fn num(self) -> nat {
        self.numerator as nat
    }

    pub closed spec fn den(self) -> nat {
        self.denominator as nat
    }

    /// The denominator is positive and the numerator does not exceed it.
    pub open spec fn wf(self) -> bool {
        0 < self.den() && self.num() <= self.den()
    }

    /// A uniform `u32` sample below this probability: `sample / 2^32 <
    /// numerator / denominator`. Over all samples this happens with the
    /// probability itself, up to less than 2^-32.
    pub open spec fn admits(self, sample: u32) -> bool {
        sample * self.den() < self.num() * SAMPLE_SPAN
    }

    /// Builds `numerator / denominator`, refusing a zero denominator or a
    /// value above one.
    pub fn new(numerator: u32, denominator: u32) -> (r: Result<Probability, LifeError>)
        ensures
            (denominator == 0 || numerator > denominator) ==> r == Err::<Probability, LifeError>(
                LifeError::ProbabilityOutOfRange,
            ),
            (0 < denominator && numerator <= denominator) ==> (r matches Ok(p) && p.num()
                == numerator && p.den() == denominator && p.wf()),
    {
        if denominator == 0 || numerator > denominator {
            Err(LifeError::ProbabilityOutOfRange)
        } else {
            Ok(Probability { numerator, denominator })
        }
    }

    pub fn numerator(&self) -> (r: u32)
        ensures
            r == self.num(),
    {
        self.numerator
    }

    pub fn denominator(&self) -> (r: u32)
        ensures
            r == self.den(),
    {
        self.denominator
    }

    /// Whether a cell whose sample is `sample` comes alive.
    pub fn admits_sample(&self, sample: u32) -> (r: bool)
        requires
            self.wf(),
        ensures
            r == self.admits(sample),
    {
        let s = sample as u64;
        let d = self.denominator as u64;
        let n = self.numerator as u64;
        assert(s * d <= 0xffff_ffffu64 * 0xffff_ffffu64) by (nonlinear_arith)
            requires
                s <= 0xffff_ffffu64,
                d <= 0xffff_ffffu64,
        ;
        assert(n * SAMPLE_SPAN <= 0xffff_ffffu64 * SAMPLE_SPAN) by (nonlinear_arith)
            requires
                n <= 0xffff_ffffu64,
        ;
        s * d < n * SAMPLE_SPAN
    }

    /// Probability zero admits no sample.
    pub proof fn lemma_zero_admits_none(self, sample: u32)
        requires
            self.wf(),
            self.num() == 0,
        ensures
            !self.admits(sample),
    {
        assert(sample * self.den() >= 0) by (nonlinear_arith)
            requires
                sample >= 0,
                self.den() > 0,
        ;
    }

    /// Probability one admits every sample.
    pub proof fn lemma_one_admits_all(self, sample: u32)
        requires
            self.wf(),
            self.num() == self.den(),
        ensures
            self.admits(sample),
    {
        let d = self.den();
        assert(sample * d < d * SAMPLE_SPAN) by (nonlinear_arith)
            requires
                sample < SAMPLE_SPAN,
                d > 0,
        ;
    }
}

/// A request to reseed the whole grid, each cell alive with `probability`.
#[derive(Clone, Copy, Debug)]
pub struct RandomizeGridEvent {
    pub probability: Probability,
}

impl RandomizeGridEvent {
    pub fn new(probability: Probability) -> (r: RandomizeGridEvent)
        ensures
            r.probability == probability,
    {
        RandomizeGridEvent { probability }
    }
}

/// Relies on rand's `random`: a value drawn from the thread-local generator.
/// Nothing is promised of which value comes.
pub assume_specification<T>[ rand::random::<T> ]() -> (r: T)
    where
        rand::distributions::Standard: rand::distributions::Distribution<T>,
;

/// One uniform sample per cell, `n` in all.
pub(crate) fn draw_samples(n: usize) -> (r: Vec<u32>)
    ensures
        r@.len() == n,
{
    let mut samples: Vec<u32> = Vec::with_capacity(n);
    while samples.len() < n
        invariant
            samples@.len() <= n,
        decreases n - samples@.len(),
    {
        samples.push(rand::random::<u32>());
    }
    samples
}

} // verus!
