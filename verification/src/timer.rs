//! The periodic interval timer that gates the reporting systems.

use vstd::prelude::*;

verus! {

/// A repeating timer over whole time units.
///
/// The timer accumulates elapsed time and completes each time the
/// accumulated time reaches its period. What is left over carries into the
/// next period, so the timer never stops.
#[derive(Clone, Copy, Debug)]
pub struct IntervalTimer {
    period: u64,
    elapsed: u64,
    just_finished: bool,
}

impl IntervalTimer {
    /// The period is positive and the time accumulated towards the next
    /// completion is short of it. This holds of every timer that a program
    /// can have.
    #[verifier::type_invariant]
    pub closed spec fn wf(&self) -> bool {
        0 < self.period && self.elapsed < self.period
    }

    /// Length of one interval.
    pub closed spec fn period_spec(&self) -> nat {
        self.period as nat
    }

    /// Time accumulated since the last completion.
    pub closed spec fn elapsed_spec(&self) -> nat {
        self.elapsed as nat
    }

    /// Whether the most recent advance completed a period and the completion
    /// has not been acknowledged yet.
    pub closed spec fn just_finished_spec(&self) -> bool {
        self.just_finished
    }

    /// A well-formed timer has a positive period and has accumulated less
    /// than it.
    pub proof fn lemma_bounds(&self)
        requires
            self.wf(),
        ensures
            0 < self.period_spec() <= u64::MAX,
            self.elapsed_spec() < self.period_spec(),
    {
    }

    /// A fresh timer with nothing elapsed.
    pub fn new(period: u64) -> (timer: Self)
        requires
            period > 0,
        ensures
            timer.period_spec() == period,
            timer.elapsed_spec() == 0,
            !timer.just_finished_spec(),
    {
        IntervalTimer { period, elapsed: 0, just_finished: false }
    }

    /// Length of one interval.
    pub fn period(&self) -> (period: u64)
        ensures
            period == self.period_spec(),
    {
        self.period
    }

    /// Time accumulated since the last completion.
    pub fn elapsed(&self) -> (elapsed: u64)
        ensures
            elapsed == self.elapsed_spec(),
    {
        self.elapsed
    }

    /// Whether the most recent advance completed a period and the completion
    /// has not been acknowledged yet.
    pub fn just_finished(&self) -> (finished: bool)
        ensures
            finished == self.just_finished_spec(),
    {
        self.just_finished
    }

    /// Advances the timer by `delta` time units.
    ///
    /// The timer completes on this advance exactly when the accumulated time
    /// reaches the period; the accumulated time then wraps around, keeping
    /// what is left over after the last completed period.
    pub fn advance(&mut self, delta: u64) -> (finished: bool)
        ensures
            final(self).period_spec() == old(self).period_spec(),
            final(self).elapsed_spec() == (old(self).elapsed_spec() + delta) % (old(
                self,
            ).period_spec() as int),
            finished == (old(self).elapsed_spec() + delta >= old(self).period_spec()),
            final(self).just_finished_spec() == finished,
    {
        proof {
            use_type_invariant(&*self);
        }
        let remaining: u64 = self.period - self.elapsed;
        if delta < remaining {
            proof {
                vstd::arithmetic::div_mod::lemma_small_mod(
                    (self.elapsed + delta) as nat,
                    self.period as nat,
                );
            }
            self.elapsed = self.elapsed + delta;
            self.just_finished = false;
            false
        } else {
            let over: u64 = delta - remaining;
            proof {
                let p = self.period as int;
                let total = self.elapsed as int + delta as int;
                assert(total == over as int + p);
                vstd::arithmetic::div_mod::lemma_mod_add_multiples_vanish(over as int, p);
            }
            self.elapsed = over % self.period;
            self.just_finished = true;
            true
        }
    }

    /// Clears the completion flag once the completion has been acted upon.
    /// The accumulated time is kept: the timer goes on running.
    pub fn acknowledge(&mut self)
        ensures
            final(self).period_spec() == old(self).period_spec(),
            final(self).elapsed_spec() == old(self).elapsed_spec(),
            !final(self).just_finished_spec(),
    {
        proof {
            use_type_invariant(&*self);
        }
        self.just_finished = false;
    }
}

} // verus!
