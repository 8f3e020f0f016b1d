//! When to try again to watch a folder whose watch has failed.

use vstd::prelude::*;

verus! {

/// A millisecond, in nanoseconds.
pub const MILLISECOND: u64 = 1_000_000;

/// A second, in nanoseconds.
pub const SECOND: u64 = 1_000_000_000;

/// How long after the failure the first attempt is made.
pub const RECOVERY_INITIAL_DELAY: u64 = 250_000_000;

/// The longest wait between two attempts.
pub const RECOVERY_MAX_DELAY: u64 = 10_000_000_000;

/// How often the wait doubles.
pub const RECOVERY_DOUBLINGS: u32 = 5;

/// A watch that is to be set up again.
#[derive(Clone, Copy, Debug, PartialEq, Eq, Structural)]
pub struct RecoveryState {
    pub attempts: u32,
    pub next_attempt: u64,
}

/// Two to the power of `n`.
pub open spec fn doublings(n: nat) -> nat
    decreases n,
{
    if n == 0 {
        1
    } else {
        2 * doublings((n - 1) as nat)
    }
}

/// How long to wait behind the `attempts`-th failed attempt: the first delay,
/// doubled for each attempt as often as it may be, and no more than the longest.
pub open spec fn delay_after(attempts: nat) -> nat {
    let exponent = if attempts < RECOVERY_DOUBLINGS {
        attempts
    } else {
        RECOVERY_DOUBLINGS as nat
    };
    let delay = RECOVERY_INITIAL_DELAY as nat * doublings(exponent);
    if delay < RECOVERY_MAX_DELAY {
        delay
    } else {
        RECOVERY_MAX_DELAY as nat
    }
}

/// Whether the clock is far enough from its end for a wait to be added.
pub open spec fn has_time_left(now: u64) -> bool {
    now + RECOVERY_MAX_DELAY <= u64::MAX
}

/// How much time lies between `then` and `now`.
pub open spec fn elapsed_since(then: u64, now: u64) -> int {
    if now >= then {
        now - then
    } else {
        0
    }
}

/// Measures the time between `then` and `now`.
pub fn elapsed(then: u64, now: u64) -> (time: u64)
    ensures
        time == elapsed_since(then, now),
{
    if now >= then {
        now - then
    } else {
        0
    }
}

/// Computes the wait behind a failed attempt.
pub fn delay(attempts: u32) -> (wait: u64)
    ensures
        wait == delay_after(attempts as nat),
        wait <= RECOVERY_MAX_DELAY,
{
    let exponent: u32 = if attempts < RECOVERY_DOUBLINGS {
        attempts
    } else {
        RECOVERY_DOUBLINGS
    };
    let mut factor: u64 = 1;
    let mut i: u32 = 0;
    while i < exponent
        invariant
            i <= exponent <= RECOVERY_DOUBLINGS,
            factor == doublings(i as nat),
            factor <= 32,
            factor * doublings((exponent - i) as nat) == doublings(exponent as nat),
            i == 0 ==> factor == 1,
            i == 1 ==> factor == 2,
            i == 2 ==> factor == 4,
            i == 3 ==> factor == 8,
            i == 4 ==> factor == 16,
            i == 5 ==> factor == 32,
        decreases exponent - i,
    {
        assert((2 * factor) * doublings((exponent - i - 1) as nat) == factor * (2 * doublings(
            (exponent - i - 1) as nat,
        ))) by (nonlinear_arith);
        factor = factor * 2;
        i += 1;
    }
    let wait: u64 = RECOVERY_INITIAL_DELAY * factor;
    if wait < RECOVERY_MAX_DELAY {
        wait
    } else {
        RECOVERY_MAX_DELAY
    }
}

impl RecoveryState {
    /// The state of a watch that has just failed.
    pub open spec fn failed_at(now: u64) -> RecoveryState {
        RecoveryState { attempts: 0, next_attempt: (now + RECOVERY_INITIAL_DELAY) as u64 }
    }

    /// The state behind one more failed attempt.
    pub open spec fn retried(self, now: u64) -> RecoveryState {
        let attempts = if self.attempts < u32::MAX {
            (self.attempts + 1) as u32
        } else {
            u32::MAX
        };
        RecoveryState { attempts, next_attempt: (now + delay_after(attempts as nat)) as u64 }
    }

    /// Starts the recovery of a watch.
    pub fn start(now: u64) -> (state: RecoveryState)
        requires
            has_time_left(now),
        ensures
            state == RecoveryState::failed_at(now),
    {
        RecoveryState { attempts: 0, next_attempt: now + RECOVERY_INITIAL_DELAY }
    }

    /// Notes that an attempt has failed.
    pub fn retry(&self, now: u64) -> (state: RecoveryState)
        requires
            has_time_left(now),
        ensures
            state == self.retried(now),
    {
        let attempts: u32 = if self.attempts < u32::MAX {
            self.attempts + 1
        } else {
            u32::MAX
        };
        RecoveryState { attempts, next_attempt: now + delay(attempts) }
    }
}

/// Attempts are never further apart than the longest wait, and never closer
/// than the first delay; and the wait never grows shorter.
pub proof fn waits_are_bounded_and_grow(fewer: nat, more: nat)
    requires
        fewer <= more,
    ensures
        RECOVERY_INITIAL_DELAY <= delay_after(fewer) <= RECOVERY_MAX_DELAY,
        delay_after(fewer) <= delay_after(more),
{
    reveal_with_fuel(doublings, 6);
    let a = if fewer < RECOVERY_DOUBLINGS { fewer } else { RECOVERY_DOUBLINGS as nat };
    let b = if more < RECOVERY_DOUBLINGS { more } else { RECOVERY_DOUBLINGS as nat };
    assert(a == 0 || a == 1 || a == 2 || a == 3 || a == 4 || a == 5);
    assert(b == 0 || b == 1 || b == 2 || b == 3 || b == 4 || b == 5);
}

} // verus!
