//! The rendezvous barrier: the decisions of a reusable barrier for a fixed
//! number of parties. The caller holds it under a lock and blocks on a
//! condition variable while `update` says to wait.

use vstd::prelude::*;

verus! {

/// What the party that called `update` does next.
#[derive(Clone, Copy, PartialEq, Eq, Debug, Structural)]
pub enum BarrierStep {
    /// Block until the barrier's generation differs from this one.
    Wait(u64),
    /// This party completed the round: wake every waiting party and go on.
    Release,
}

/// The state of a barrier: the parties that arrived in this round, the
/// party count, and the number of completed rounds (wrapping).
pub struct BarrierState {
    pub value: i8,
    pub max_value: i8,
    pub generation: u64,
}

pub open spec fn next_generation(g: u64) -> u64 {
    if g == u64::MAX {
        0
    } else {
        (g + 1) as u64
    }
}

/// The generation after `n` more rounds.
pub open spec fn generation_after(g: u64, n: nat) -> u64
    decreases n,
{
    if n == 0 {
        g
    } else {
        next_generation(generation_after(g, (n - 1) as nat))
    }
}

/// One arrival: the count goes up; the party that brings it to the party
/// count resets it, starts a new generation and releases the others.
pub open spec fn arrival(s: BarrierState) -> (BarrierState, BarrierStep) {
    let v = if s.value < i8::MAX {
        (s.value + 1) as i8
    } else {
        s.value
    };
    if v < s.max_value {
        (BarrierState { value: v, ..s }, BarrierStep::Wait(s.generation))
    } else {
        (BarrierState { value: 0, generation: next_generation(s.generation), ..s }, BarrierStep::Release)
    }
}

/// The state after `k` arrivals.
pub open spec fn arrivals(s: BarrierState, k: nat) -> BarrierState
    decreases k,
{
    if k == 0 {
        s
    } else {
        arrival(arrivals(s, (k - 1) as nat)).0
    }
}

pub struct MutexCondition {
    value: i8,
    max_value: i8,
    generation: u64,
}

impl View for MutexCondition {
    type V = BarrierState;

    closed spec fn view(&self) -> BarrierState {
        BarrierState { value: self.value, max_value: self.max_value, generation: self.generation }
    }
}

impl MutexCondition {
    /// A barrier for `max_value` parties, at rest.
    pub fn new(max_value: i8) -> (r: Self)
        ensures
            r@ == (BarrierState { value: 0, max_value, generation: 0 }),
    {
        MutexCondition { value: 0, max_value, generation: 0 }
    }

    /// A party arrives.
    pub fn update(&mut self) -> (r: BarrierStep)
        ensures
            (final(self)@, r) == arrival(old(self)@),
    {
        if self.value < i8::MAX {
            self.value = self.value + 1;
        }
        if self.value < self.max_value {
            BarrierStep::Wait(self.generation)
        } else {
            self.value = 0;
            self.generation = self.generation.wrapping_add(1);
            BarrierStep::Release
        }
    }

    /// Forces an arrival that releases every waiting party, for shutdown:
    /// a party that waits for a partner that will not come goes on.
    pub fn release(&mut self)
        ensures
            final(self)@ == (BarrierState {
                value: if old(self)@.value < i8::MAX {
                    (old(self)@.value + 1) as i8
                } else {
                    old(self)@.value
                },
                generation: next_generation(old(self)@.generation),
                ..old(self)@
            }),
    {
        if self.value < i8::MAX {
            self.value = self.value + 1;
        }
        self.generation = self.generation.wrapping_add(1);
    }

    /// A party that waits in `generation` may go on.
    pub fn is_released(&self, generation: u64) -> (r: bool)
        ensures
            r == (self@.generation != generation),
    {
        self.generation != generation
    }

    pub fn generation(&self) -> (r: u64)
        ensures
            r == self@.generation,
    {
        self.generation
    }
}

/// Two parties at a barrier at rest, each arriving in turn: in every round
/// the first arrival waits in the current generation and the second
/// releases it by starting the next one, after which the barrier is at rest
/// again. After `n` rounds it is at rest with `n` more generations.
pub proof fn lemma_two_party_rounds(s: BarrierState, n: nat)
    requires
        s.max_value == 2,
        s.value == 0,
    ensures
        arrivals(s, 2 * n) == (BarrierState { generation: generation_after(s.generation, n), ..s }),
        forall|k: nat|
            k < n ==> #[trigger] arrival(arrivals(s, 2 * k)).1 == BarrierStep::Wait(
                generation_after(s.generation, k),
            ) && arrival(arrivals(s, 2 * k + 1)).1 == BarrierStep::Release && arrivals(
                s,
                2 * k + 2,
            ).generation != arrivals(s, 2 * k).generation,
    decreases n,
{
    if n > 0 {
        let m = (n - 1) as nat;
        lemma_two_party_rounds(s, m);
        assert(arrivals(s, 2 * m + 1) == arrival(arrivals(s, 2 * m)).0);
        assert(arrivals(s, 2 * m + 2) == arrival(arrivals(s, 2 * m + 1)).0);
        assert(2 * n == 2 * m + 2);
        assert forall|k: nat|
            k < n implies #[trigger] arrival(arrivals(s, 2 * k)).1 == BarrierStep::Wait(
                generation_after(s.generation, k),
            ) && arrival(arrivals(s, 2 * k + 1)).1 == BarrierStep::Release && arrivals(
                s,
                2 * k + 2,
            ).generation != arrivals(s, 2 * k).generation by {
            if k < m {
            } else {
                assert(k == m);
                assert(arrivals(s, 2 * k + 1) == arrival(arrivals(s, 2 * k)).0);
                assert(arrivals(s, 2 * k + 2) == arrival(arrivals(s, 2 * k + 1)).0);
            }
        }
    }
}

} // verus!
