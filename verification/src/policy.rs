//! The decision clock of the policy node: which control ticks start an
//! episode and which ones take a new decision from the model.
use vstd::prelude::*;

verus! {

/// The number of ticks that reuse a decision before the next one is taken.
pub const DECISION_PERIOD: usize = 1;

/// What one control tick does.
#[derive(Clone, Copy, Debug, PartialEq, Eq, Structural)]
pub struct PolicyTick {
    /// The model is told that a new episode starts.
    pub episode_start: bool,
    /// A new command is taken from the model output; otherwise the last
    /// command is published again.
    pub decide: bool,
}

/// The clock's state: ticks since the last decision, and whether no tick
/// has happened yet.
pub open spec fn clock_step(counter: nat, first: bool) -> (nat, bool, PolicyTick) {
    if counter == DECISION_PERIOD {
        (0, false, PolicyTick { episode_start: first, decide: true })
    } else {
        (counter + 1, false, PolicyTick { episode_start: first, decide: false })
    }
}

/// A tick reports an episode start exactly when it is the first, clears
/// that flag, and decides exactly when the period's ticks have passed since
/// the last decision, restarting the count then and adding one otherwise.
pub proof fn lemma_clock_step(counter: nat, first: bool)
    ensures
        clock_step(counter, first).2.episode_start == first,
        !clock_step(counter, first).1,
        clock_step(counter, first).2.decide == (counter == DECISION_PERIOD),
        clock_step(counter, first).0 == if counter == DECISION_PERIOD { 0 } else { counter + 1 },
{
}

/// The clock's state after `n` ticks from a fresh clock.
pub open spec fn clock_after(n: nat) -> (nat, bool)
    decreases n,
{
    if n == 0 {
        (0, true)
    } else {
        let (c, f) = clock_after((n - 1) as nat);
        let (c2, f2, _) = clock_step(c, f);
        (c2, f2)
    }
}

/// Counts control ticks between decisions of the policy.
pub struct PolicyClock {
    counter: usize,
    first: bool,
}

impl PolicyClock {
    /// Ticks since the last decision.
    pub closed spec fn counter(&self) -> nat {
        self.counter as nat
    }

    /// No tick has happened yet.
    pub closed spec fn is_first(&self) -> bool {
        self.first
    }

    /// The counter never passes the period.
    pub open spec fn wf(&self) -> bool {
        self.counter() <= DECISION_PERIOD
    }

    /// A clock before the first tick.
    pub fn new() -> (c: PolicyClock)
        ensures
            c.wf(),
            (c.counter(), c.is_first()) == clock_after(0),
    {
        PolicyClock { counter: 0, first: true }
    }

    /// One control tick.
    pub fn tick(&mut self) -> (t: PolicyTick)
        requires
            old(self).wf(),
        ensures
            final(self).wf(),
            (final(self).counter(), final(self).is_first(), t) == clock_step(
                old(self).counter(),
                old(self).is_first(),
            ),
            t.episode_start == old(self).is_first(),
            !final(self).is_first(),
            t.decide == (old(self).counter() == DECISION_PERIOD),
            t.decide ==> final(self).counter() == 0,
            !t.decide ==> final(self).counter() == old(self).counter() + 1,
    {
        let episode_start = self.first;
        self.first = false;
        if self.counter == DECISION_PERIOD {
            self.counter = 0;
            PolicyTick { episode_start, decide: true }
        } else {
            self.counter = self.counter + 1;
            PolicyTick { episode_start, decide: false }
        }
    }
}

/// After `n` ticks the counter is `n` modulo the period plus one, and only
/// a fresh clock is at its first tick; so tick number `n + 1` starts the
/// episode exactly when `n` is zero, and takes a decision exactly when
/// `n + 1` is a multiple of the period plus one.
pub proof fn lemma_clock_schedule(n: nat)
    ensures
        clock_after(n) == (n % (DECISION_PERIOD as nat + 1), n == 0),
        clock_step(clock_after(n).0, clock_after(n).1).2 == (PolicyTick {
            episode_start: n == 0,
            decide: (n + 1) % (DECISION_PERIOD as nat + 1) == 0,
        }),
    decreases n,
{
    if n > 0 {
        lemma_clock_schedule((n - 1) as nat);
    }
    assert(DECISION_PERIOD as nat + 1 == 2);
    assert((n % 2 == 1) <==> ((n + 1) % 2 == 0));
}

} // verus!
