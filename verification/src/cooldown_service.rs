//! Holds rejected reservations back before they are tried again.
use vstd::prelude::*;

verus! {

/// Waits until `retry_wait` milliseconds have passed since a rejected
/// reservation was handed over, then returns it to its scheduler.
pub struct CooldownService {
    retry_wait: u64,
}

/// How long (in milliseconds) a reservation handed over `elapsed`
/// milliseconds ago must still wait: what is left of `retry_wait`, or nothing.
pub open spec fn remaining_wait(retry_wait: nat, elapsed: nat) -> nat {
    if elapsed < retry_wait {
        (retry_wait - elapsed) as nat
    } else {
        0
    }
}

impl CooldownService {
    /// A cooldown of `retry_wait` milliseconds.
    pub fn new(retry_wait: u64) -> (c: CooldownService)
        ensures
            c.retry_wait() == retry_wait,
    {
        CooldownService { retry_wait }
    }

    /// The cooldown, in milliseconds.
    pub closed spec fn retry_wait(&self) -> u64 {
        self.retry_wait
    }

    /// The cooldown, in milliseconds.
    pub fn get_retry_wait(&self) -> (w: u64)
        ensures
            w == self.retry_wait(),
    {
        self.retry_wait
    }

    /// How long a reservation handed over `elapsed_millis` milliseconds ago
    /// must still wait before it is returned; never more than the cooldown.
    pub fn wait_millis(&self, elapsed_millis: u128) -> (wait: u64)
        ensures
            wait == remaining_wait(self.retry_wait() as nat, elapsed_millis as nat),
            wait <= self.retry_wait(),
    {
        let retry_wait = self.retry_wait;
        let mut wait: u64 = 0;
        if retry_wait as u128 > elapsed_millis {
            wait = retry_wait - elapsed_millis as u64;
        }
        if wait < retry_wait {
            wait
        } else {
            retry_wait
        }
    }
}

/// A rejected reservation waits out exactly the rest of the retry wait: when
/// it was handed over `elapsed` milliseconds ago and the cooldown is `c`, the
/// time already passed plus the wait still to come is the cooldown, unless the
/// cooldown is already over, and only then is there no wait; the wait never
/// exceeds the cooldown.
pub proof fn lemma_cooldown_waits_out_retry(c: CooldownService, elapsed: nat)
    ensures
        elapsed < c.retry_wait() ==> elapsed + remaining_wait(c.retry_wait() as nat, elapsed)
            == c.retry_wait(),
        remaining_wait(c.retry_wait() as nat, elapsed) == 0 <==> elapsed >= c.retry_wait(),
        remaining_wait(c.retry_wait() as nat, elapsed) <= c.retry_wait(),
{
}

} // verus!
