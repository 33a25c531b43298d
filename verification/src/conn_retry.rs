//! Bounded retries with a fixed delay between attempts.

use vstd::prelude::*;

verus! {

/// What to do after an attempt has failed.
#[derive(Debug, Clone, Copy, PartialEq, Eq, Structural)]
pub enum RetryStep {
    /// No attempt is left: the failure is the result.
    GiveUp,
    /// Wait `millis` milliseconds and try again; `left` attempts are left,
    /// the next one included.
    Wait { millis: u64, left: usize },
}

/// The step that follows a failed attempt when `left` attempts were left
/// before it, the failed one included.
pub open spec fn step_after_failure(left: usize, delay_millis: u64) -> RetryStep {
    if left <= 1 {
        RetryStep::GiveUp
    } else {
        RetryStep::Wait { millis: delay_millis, left: (left - 1) as usize }
    }
}

/// The number of attempts that are made when every one of them fails and
/// `left` attempts were left before the first.
pub open spec fn attempts_when_failing(left: usize, delay_millis: u64) -> nat
    decreases left,
{
    match step_after_failure(left, delay_millis) {
        RetryStep::GiveUp => 1,
        RetryStep::Wait { left: rest, .. } => 1 + attempts_when_failing(rest, delay_millis),
    }
}

/// A policy of `tries` attempts makes exactly `tries` attempts before it
/// gives up, however long the delay.
pub proof fn lemma_attempts_bounded(tries: usize, delay_millis: u64)
    requires
        tries >= 1,
    ensures
        attempts_when_failing(tries, delay_millis) == tries,
    decreases tries,
{
    if tries > 1 {
        lemma_attempts_bounded((tries - 1) as usize, delay_millis);
    }
}

/// How often an operation is tried, and how long to wait between two
/// attempts. An operation is tried at least once.
#[derive(Debug, Clone, Copy)]
pub struct ConnRetry {
    tries: usize,
    delay_millis: u64,
}

impl ConnRetry {
    #[verifier::type_invariant]
    spec fn tries_once(self) -> bool {
        self.tries >= 1
    }

    /// The number of attempts.
    pub closed spec fn tries(self) -> usize {
        self.tries
    }

    /// The milliseconds between two attempts.
    pub closed spec fn delay_millis(self) -> u64 {
        self.delay_millis
    }

    /// A policy of `tries` attempts that are `delay_millis` apart.
    pub fn new(tries: usize, delay_millis: u64) -> (r: Self)
        requires
            tries >= 1,
        ensures
            r.tries() == tries,
            r.delay_millis() == delay_millis,
    {
        ConnRetry { tries, delay_millis }
    }

    /// The number of attempts that are left before the first one.
    pub fn attempts(&self) -> (r: usize)
        ensures
            r == self.tries(),
            r >= 1,
    {
        proof {
            use_type_invariant(self);
        }
        self.tries
    }

    /// The step that follows a failed attempt, where `left` attempts were
    /// left before it.
    pub fn after_failure(&self, left: usize) -> (r: RetryStep)
        ensures
            r == step_after_failure(left, self.delay_millis()),
    {
        if left <= 1 {
            RetryStep::GiveUp
        } else {
            RetryStep::Wait { millis: self.delay_millis, left: left - 1 }
        }
    }

    /// Calls `f` until it succeeds or the attempts are used up, and calls
    /// `pause` with the delay between two attempts. The result is that of
    /// the last call of `f`.
    pub fn execute_with_retries<F, P, T, E>(&self, f: F, pause: P) -> (r: Result<T, E>) where
        F: Fn() -> Result<T, E>,
        P: Fn(u64) -> (),

        requires
            f.requires(()),
            pause.requires((self.delay_millis(),)),
        ensures
            f.ensures((), r),
    {
        let mut left = self.attempts();
        loop
            invariant
                f.requires(()),
                pause.requires((self.delay_millis(),)),
                left >= 1,
            decreases left,
        {
            match f() {
                Ok(value) => {
                    return Ok(value);
                },
                Err(error) => match self.after_failure(left) {
                    RetryStep::GiveUp => {
                        return Err(error);
                    },
                    RetryStep::Wait { millis, left: rest } => {
                        pause(millis);
                        left = rest;
                    },
                },
            }
        }
    }
}

impl Default for ConnRetry {
    /// Three attempts, a quarter of a second apart.
    fn default() -> (r: Self)
        ensures
            r.tries() == 3,
            r.delay_millis() == 250,
    {
        ConnRetry { tries: 3, delay_millis: 250 }
    }
}

} // verus!
