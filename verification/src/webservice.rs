//! The simulated web service of an airline or of the hotel: it accepts a
//! request with a given probability and answers after a random wait.
use crate::decision::Decision;
use crate::reservation::Reservation;
use crate::reservation_result::ReservationResult;
use crate::text::{decimal, push_decimal};
use crate::webservice_kind::WebserviceKind;
use rand::Rng;
use vstd::prelude::*;

verus! {

/// Draws a number uniformly from `low..high` with `rand::thread_rng()` and
/// `Rng::gen_range`; the crate documents the result as lying in the range,
/// and panics only on an empty range, which `requires` rules out.
#[verifier::external_body]
pub(crate) fn random_in_range(low: u32, high: u32) -> (n: u32)
    requires
        low < high,
    ensures
        low <= n < high,
{
    rand::thread_rng().gen_range(low..high)
}

/// Draws a random `i32` with `rand::random`; any value may come back.
#[verifier::external_body]
pub(crate) fn random_i32() -> i32 {
    rand::random::<i32>()
}

/// The decision for a draw `num` (from `0..100`) by a service that accepts
/// `success_rate` percent of requests: accepted when the draw is below the
/// rate, so that exactly `success_rate` of the hundred draws are accepted.
pub open spec fn decision_for(success_rate: u32, num: u32) -> Decision {
    if num < success_rate {
        Decision::Accepted
    } else {
        Decision::Rejected
    }
}

/// The wait, in milliseconds, for a random `i32`: the number read as a
/// 64-bit unsigned integer (two's complement), modulo 1000.
pub open spec fn wait_for_draw(i: i32) -> nat {
    if i >= 0 {
        (i as nat) % 1000
    } else {
        ((i as int + 0x1_0000_0000_0000_0000int) as nat) % 1000
    }
}

/// The acceptance rate of a service asked to accept `chance` percent of
/// requests: a chance above 100 counts as 100.
pub open spec fn capped_rate(chance: u32) -> u32 {
    if chance < 100 {
        chance
    } else {
        100
    }
}

/// How the web service is displayed: `WEBSERVICE <id>`.
pub open spec fn webservice_text(id: usize) -> Seq<char> {
    "WEBSERVICE <"@ + decimal(id as nat) + ">"@
}

/// A simulated web service.
pub struct Webservice {
    id: usize,
    success_rate: u32,
}

/// The wait, in milliseconds, that a draw `i` gives.
pub fn wait_for(i: i32) -> (ms: u64)
    ensures
        ms == wait_for_draw(i),
        ms < 1000,
{
    if i >= 0 {
        (i as u64) % 1000
    } else {
        let k: u64 = (-(i as i64) - 1) as u64;
        let v: u64 = u64::MAX - k;
        assert(v as int == i as int + 0x1_0000_0000_0000_0000int);
        v % 1000
    }
}

/// A random wait in milliseconds, below one second.
pub fn random_wait_millis() -> (ms: u64)
    ensures
        exists|i: i32| ms == wait_for_draw(i),
        ms < 1000,
{
    let i = random_i32();
    wait_for(i)
}

impl Webservice {
    /// A rate is a percentage.
    #[verifier::type_invariant]
    spec fn rate_is_percentage(self) -> bool {
        self.success_rate <= 100
    }

    /// The id of this service.
    pub closed spec fn service_id(&self) -> usize {
        self.id
    }

    /// The percentage of requests this service accepts.
    pub closed spec fn success_rate(&self) -> u32 {
        self.success_rate
    }

    /// A service with id `id` that accepts `success_chance` percent of
    /// requests; a chance above 100 counts as 100.
    pub fn new(id: usize, success_chance: u32) -> (w: Webservice)
        ensures
            w.service_id() == id,
            w.success_rate() == capped_rate(success_chance),
    {
        let success_rate = if success_chance < 100 {
            success_chance
        } else {
            100
        };
        Webservice { id, success_rate }
    }

    /// The percentage of requests this service accepts.
    pub fn get_success_rate(&self) -> (r: u32)
        ensures
            r == self.success_rate(),
            r <= 100,
    {
        proof {
            use_type_invariant(self);
        }
        self.success_rate
    }

    /// The decision for the draw `num`.
    pub fn decide_with_roll(&self, num: u32) -> (d: Decision)
        ensures
            d == decision_for(self.success_rate(), num),
    {
        if num < self.success_rate {
            Decision::Accepted
        } else {
            Decision::Rejected
        }
    }

    /// Decides on a request by drawing a number from `0..100`.
    pub fn decide(&self) -> (d: Decision)
        ensures
            exists|num: u32| num < 100 && d == decision_for(self.success_rate(), num),
            self.success_rate() == 0 ==> d == Decision::Rejected,
            self.success_rate() == 100 ==> d == Decision::Accepted,
    {
        let num = random_in_range(0, 100);
        self.decide_with_roll(num)
    }

    /// The answer to `req` given the decision `decision`, `elapsed` nanoseconds
    /// after the request was made, from a service of kind `creator`.
    pub fn process(
        &self,
        req: &Reservation,
        decision: Decision,
        elapsed: u64,
        creator: WebserviceKind,
    ) -> (r: ReservationResult)
        ensures
            r.reservation == *req,
            r.accepted == (decision == Decision::Accepted),
            r.time_to_process == elapsed,
            r.creator == creator,
    {
        ReservationResult::from_reservation_ref(req.clone(), decision.is_accepted(), elapsed, creator)
    }

    /// The display text of this service.
    pub fn to_string(&self) -> (s: String)
        ensures
            s@ == webservice_text(self.service_id()),
    {
        let mut out = String::new();
        out.append("WEBSERVICE <");
        push_decimal(&mut out, self.id as u64);
        out.append(">");
        assert(out@ =~= webservice_text(self.service_id()));
        out
    }
}

/// How many of the draws `0..n` a service accepting `success_rate` percent of
/// requests accepts.
pub open spec fn accepted_draws(success_rate: u32, n: nat) -> nat
    decreases n,
{
    if n == 0 {
        0
    } else {
        accepted_draws(success_rate, (n - 1) as nat) + if decision_for(
            success_rate,
            (n - 1) as u32,
        ) == Decision::Accepted {
            1nat
        } else {
            0nat
        }
    }
}

proof fn lemma_accepted_draws_count(success_rate: u32, n: nat)
    requires
        n <= 100,
    ensures
        accepted_draws(success_rate, n) == if (success_rate as nat) < n {
            success_rate as nat
        } else {
            n
        },
    decreases n,
{
    if n > 0 {
        lemma_accepted_draws_count(success_rate, (n - 1) as nat);
    }
}

/// A service's rate is the share of draws it accepts: of the hundred possible
/// draws `0..100`, a service created with `success_chance` accepts exactly
/// its (capped) rate of them, and those are the lowest draws. So a rate of 0
/// rejects every draw, a rate of 100 accepts every draw, and any rate in
/// between has both an accepted and a rejected draw.
pub proof fn lemma_rate_is_share_of_draws(w: Webservice)
    requires
        w.success_rate() <= 100,
    ensures
        accepted_draws(w.success_rate(), 100) == w.success_rate(),
        forall|num: u32|
            num < 100 ==> (#[trigger] decision_for(w.success_rate(), num) == Decision::Accepted
                <==> num < w.success_rate()),
        0 < w.success_rate() < 100 ==> decision_for(w.success_rate(), 0) == Decision::Accepted
            && decision_for(w.success_rate(), 99) == Decision::Rejected,
{
    lemma_accepted_draws_count(w.success_rate(), 100);
}

} // verus!
