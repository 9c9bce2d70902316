use vstd::prelude::*;
use rand::Rng;

verus! {

/// How many times a failed operation is tried again.
pub const MAX_RETRIES: u32 = 3;

/// `2^n`.
pub open spec fn pow2(n: nat) -> nat
    decreases n,
{
    if n == 0 {
        1
    } else {
        2 * pow2((n - 1) as nat)
    }
}

/// The pause before the next attempt once `failures` attempts have failed,
/// without its random part.
pub open spec fn backoff_floor_ms(failures: nat) -> nat {
    pow2(failures) * 100
}

/// After `failures` failed attempts the executor stops.
pub open spec fn exhausted(failures: nat) -> bool {
    failures > MAX_RETRIES
}

/// What the executor does after a failed attempt.
#[derive(Debug, Clone, Copy, PartialEq, Eq, Structural)]
pub enum RetryAction {
    /// Sleep this long, then invoke the operation again.
    Wait { delay_ms: u64 },
    /// Stop and report the last failure as exhausted.
    GiveUp,
}

/// Failure count of one retried operation.
#[derive(Debug, Clone, Copy, PartialEq, Eq, Structural)]
pub struct RetryState {
    pub failures: u32,
}

impl RetryState {
    /// Well-formed: the executor has not gone past giving up.
    pub open spec fn wf(&self) -> bool {
        self.failures <= MAX_RETRIES + 1
    }

    /// A fresh state, before the first attempt.
    pub fn new() -> (r: RetryState)
        ensures
            r.failures == 0,
            r.wf(),
    {
        RetryState { failures: 0 }
    }

    /// Records a failed attempt and decides what comes next. `jitter_ms` is
    /// the random part of the pause, below 100 ms.
    pub fn on_failure(&mut self, jitter_ms: u64) -> (r: RetryAction)
        requires
            old(self).wf(),
            !exhausted(old(self).failures as nat),
            jitter_ms < 100,
        ensures
            failure_step(*old(self), *final(self), jitter_ms, r),
            final(self).wf(),
    {
        self.failures = self.failures + 1;
        if self.failures > MAX_RETRIES {
            RetryAction::GiveUp
        } else {
            let mut p: u64 = 1;
            let mut k: u32 = 0;
            while k < self.failures
                invariant
                    k <= self.failures <= MAX_RETRIES,
                    p == pow2(k as nat),
                    p <= 8,
                decreases self.failures - k,
            {
                proof {
                    assert(pow2((k + 1) as nat) == 2 * pow2(k as nat));
                }
                k = k + 1;
                p = p * 2;
                proof {
                    if k == 1 {
                        assert(pow2(1) == 2) by {
                            reveal_with_fuel(pow2, 2);
                        }
                    } else if k == 2 {
                        assert(pow2(2) == 4) by {
                            reveal_with_fuel(pow2, 3);
                        }
                    } else if k == 3 {
                        assert(pow2(3) == 8) by {
                            reveal_with_fuel(pow2, 4);
                        }
                    }
                }
            }
            RetryAction::Wait { delay_ms: p * 100 + jitter_ms }
        }
    }
}

/// Relies on `rand::Rng::gen_range` over `0..100` with the thread-local
/// generator: a value drawn from that range, which is not empty.
#[verifier::external_body]
fn random_jitter_ms() -> (r: u64)
    ensures
        r < 100,
{
    rand::thread_rng().gen_range(0..100u64)
}

impl RetryState {
    /// Records a failed attempt and decides what comes next, with a random
    /// pause part below 100 ms.
    pub fn on_failure_jittered(&mut self) -> (r: RetryAction)
        requires
            old(self).wf(),
            !exhausted(old(self).failures as nat),
        ensures
            exists|j: u64| j < 100 && failure_step(*old(self), *final(self), j, r),
            final(self).wf(),
    {
        let j = random_jitter_ms();
        self.on_failure(j)
    }
}

/// One recorded failure, as `on_failure` performs it: the count goes up
/// by one; the executor gives up once the count passes the bound, and
/// otherwise waits the backoff for the new count plus the jitter.
pub open spec fn failure_step(before: RetryState, after: RetryState, jitter_ms: u64, r: RetryAction) -> bool {
    &&& !exhausted(before.failures as nat)
    &&& after.failures == before.failures + 1
    &&& exhausted(after.failures as nat) ==> r == RetryAction::GiveUp
    &&& !exhausted(after.failures as nat) ==> (r matches RetryAction::Wait { delay_ms }
        && delay_ms == backoff_floor_ms(after.failures as nat) + jitter_ms)
}

proof fn lemma_failure_counts(states: Seq<RetryState>, actions: Seq<RetryAction>, jitters: Seq<u64>, i: int)
    requires
        states.len() == actions.len() + 1,
        jitters.len() == actions.len(),
        states[0].failures == 0,
        forall|k: int| 0 <= k < actions.len() ==> failure_step(#[trigger] states[k], states[k + 1], jitters[k], actions[k]),
        0 <= i < states.len(),
    ensures
        states[i].failures == i,
    decreases i,
{
    if i > 0 {
        lemma_failure_counts(states, actions, jitters, i - 1);
        assert(failure_step(states[i - 1], states[i], jitters[i - 1], actions[i - 1]));
    }
}

/// The retry bound, over any run of `on_failure` from a fresh state: the
/// `k`-th failure (from one) is answered by a wait exactly when `k` is at
/// most `MAX_RETRIES`, and by giving up otherwise. A driver that invokes
/// the operation again only after a wait, and stops at the first success,
/// therefore invokes it at most `1 + MAX_RETRIES` times, and one that
/// first succeeds on attempt `k <= 1 + MAX_RETRIES` reaches that attempt
/// and makes no other.
pub proof fn retry_bound(states: Seq<RetryState>, actions: Seq<RetryAction>, jitters: Seq<u64>)
    requires
        states.len() == actions.len() + 1,
        jitters.len() == actions.len(),
        states[0].failures == 0,
        forall|k: int| 0 <= k < actions.len() ==> failure_step(#[trigger] states[k], states[k + 1], jitters[k], actions[k]),
    ensures
        actions.len() <= 1 + MAX_RETRIES,
        forall|k: int| 0 <= k < actions.len() ==> ((#[trigger] actions[k] is Wait) <==> k < MAX_RETRIES),
        forall|k: int| 0 <= k < actions.len() ==> ((#[trigger] actions[k] is GiveUp) <==> k == MAX_RETRIES),
{
    if actions.len() > 0 {
        let n = actions.len() - 1;
        lemma_failure_counts(states, actions, jitters, n);
        assert(failure_step(states[n], states[n + 1], jitters[n], actions[n]));
    }
    assert forall|k: int| 0 <= k < actions.len() implies ((#[trigger] actions[k] is Wait) <==> k < MAX_RETRIES) by {
        lemma_failure_counts(states, actions, jitters, k);
        lemma_failure_counts(states, actions, jitters, k + 1);
        assert(failure_step(states[k], states[k + 1], jitters[k], actions[k]));
    }
    assert forall|k: int| 0 <= k < actions.len() implies ((#[trigger] actions[k] is GiveUp) <==> k == MAX_RETRIES) by {
        lemma_failure_counts(states, actions, jitters, k);
        lemma_failure_counts(states, actions, jitters, k + 1);
        assert(failure_step(states[k], states[k + 1], jitters[k], actions[k]));
    }
}

} // verus!
