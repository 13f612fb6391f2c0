//! Decisions of the sandbox pre-spawn pool: adaptive spawn timeouts and when to give up.

use vstd::prelude::*;

verus! {

/// Nanoseconds per second.
pub const NANOS_PER_SEC: u64 = 1000000000;

/// The most consecutive failed spawns the pool tolerates.
pub const MAX_CONSECUTIVE_ERRORS: u64 = 10;

/// How one attempt to start a sandbox ended.
#[derive(Clone, Copy, Debug, PartialEq, Eq, Structural)]
pub enum SpawnOutcome {
    /// The sandbox became ready after this many nanoseconds.
    Ready(u64),
    /// Starting the sandbox failed.
    Failed,
    /// The sandbox was not ready in time.
    TimedOut,
}

/// What the pool does next.
#[derive(Clone, Copy, Debug, PartialEq, Eq, Structural)]
pub enum SpawnAction {
    /// Hand the ready sandbox out and start another one.
    Deliver,
    /// Try again.
    Retry,
    /// Stop the pool: too many consecutive errors.
    Abort,
}

/// The pool's bookkeeping, durations in nanoseconds.
#[derive(Clone, Copy, Debug, PartialEq, Eq, Structural)]
pub struct SpawnerState {
    pub total_errors: u64,
    pub total_spawned: u64,
    pub curr_errors: u64,
    pub min_timeout: u64,
    pub spawn_timeout: u64,
}

pub open spec fn sat(x: int) -> u64 {
    if x > u64::MAX {
        u64::MAX
    } else {
        x as u64
    }
}

/// `x · k`, or `u64::MAX` where that does not fit.
fn sat_mul(x: u64, k: u64) -> (r: u64)
    requires
        1 <= k <= 6,
    ensures
        r == sat(x * k),
{
    if x > u64::MAX / k {
        proof {
            assert(x * k > u64::MAX) by (nonlinear_arith)
                requires
                    x > u64::MAX / k,
                    1 <= k <= 6,
            ;
        }
        u64::MAX
    } else {
        proof {
            assert(x * k <= u64::MAX) by (nonlinear_arith)
                requires
                    x <= u64::MAX / k,
                    1 <= k <= 6,
            ;
        }
        x * k
    }
}

impl SpawnerState {
    /// A fresh pool: a spawn timeout of 120 s and a floor of 10 s.
    pub fn new() -> (r: SpawnerState)
        ensures
            r.total_errors == 0,
            r.total_spawned == 0,
            r.curr_errors == 0,
            r.min_timeout == 10 * NANOS_PER_SEC,
            r.spawn_timeout == 120 * NANOS_PER_SEC,
    {
        SpawnerState {
            total_errors: 0,
            total_spawned: 0,
            curr_errors: 0,
            min_timeout: 10 * NANOS_PER_SEC,
            spawn_timeout: 120 * NANOS_PER_SEC,
        }
    }

    /// How long the next attempt may take: twice the spawn timeout, at least the floor.
    pub fn wait_limit(&self) -> (r: u64)
        ensures
            r == if sat(2 * self.spawn_timeout) >= self.min_timeout {
                sat(2 * self.spawn_timeout)
            } else {
                self.min_timeout
            },
    {
        let doubled = sat_mul(self.spawn_timeout, 2);
        if doubled >= self.min_timeout {
            doubled
        } else {
            self.min_timeout
        }
    }

    /// Takes the outcome of one attempt into account and decides what follows.
    ///
    /// A success moves the timeout towards the observed time, (5·timeout + observed) / 6, and
    /// clears the run of errors; a timeout grows it by a fifth, 6·timeout / 5; each failure or
    /// timeout extends the run of errors, and a run longer than ten aborts the pool.
    pub fn step(&mut self, outcome: SpawnOutcome) -> (r: SpawnAction)
        ensures
            final(self).min_timeout == old(self).min_timeout,
            match outcome {
                SpawnOutcome::Ready(observed) => r == SpawnAction::Deliver && final(self).curr_errors
                    == 0 && final(self).total_spawned == sat(old(self).total_spawned + 1)
                    && final(self).total_errors == old(self).total_errors
                    && final(self).spawn_timeout == sat(
                    (sat(5 * old(self).spawn_timeout) + observed) / 6,
                ),
                SpawnOutcome::Failed => final(self).spawn_timeout == old(self).spawn_timeout
                    && final(self).curr_errors == sat(old(self).curr_errors + 1)
                    && final(self).total_errors == sat(old(self).total_errors + 1)
                    && final(self).total_spawned == old(self).total_spawned && (r
                    == SpawnAction::Abort <==> final(self).curr_errors > 10) && r
                    != SpawnAction::Deliver,
                SpawnOutcome::TimedOut => final(self).spawn_timeout == sat(6 * old(self).spawn_timeout)
                    / 5 && final(self).curr_errors == sat(old(self).curr_errors + 1)
                    && final(self).total_errors == sat(old(self).total_errors + 1)
                    && final(self).total_spawned == old(self).total_spawned && (r
                    == SpawnAction::Abort <==> final(self).curr_errors > 10) && r
                    != SpawnAction::Deliver,
            },
    {
        match outcome {
            SpawnOutcome::Ready(observed) => {
                let scaled = sat_mul(self.spawn_timeout, 5);
                let sum: u128 = scaled as u128 + observed as u128;
                let avg = sum / 6;
                self.spawn_timeout = if avg > u64::MAX as u128 {
                    u64::MAX
                } else {
                    avg as u64
                };
                self.total_spawned = self.total_spawned.saturating_add(1);
                self.curr_errors = 0;
                SpawnAction::Deliver
            },
            SpawnOutcome::Failed => {
                self.total_errors = self.total_errors.saturating_add(1);
                self.curr_errors = self.curr_errors.saturating_add(1);
                if self.curr_errors > MAX_CONSECUTIVE_ERRORS {
                    SpawnAction::Abort
                } else {
                    SpawnAction::Retry
                }
            },
            SpawnOutcome::TimedOut => {
                self.spawn_timeout = sat_mul(self.spawn_timeout, 6) / 5;
                self.total_errors = self.total_errors.saturating_add(1);
                self.curr_errors = self.curr_errors.saturating_add(1);
                if self.curr_errors > MAX_CONSECUTIVE_ERRORS {
                    SpawnAction::Abort
                } else {
                    SpawnAction::Retry
                }
            },
        }
    }
}

} // verus!
