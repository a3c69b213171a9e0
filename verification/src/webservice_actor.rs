//! A simpler web service that answers with a bare yes or no.
use crate::webservice::random_i32;
use vstd::prelude::*;

verus! {

/// Whether a service that accepts `success_rate` percent of requests
/// accepts the draw `i`: when the draw, taken modulo 100000 as a value in
/// `0..100000`, is below 1000 times the rate. Exactly `success_rate` thousand
/// of every hundred thousand consecutive draws are accepted, so a rate of 0
/// never accepts and a rate of 100 always does.
pub open spec fn accepts_draw(success_rate: usize, i: i32) -> bool {
    (i as int) % 100000 < success_rate * 1000
}

/// A web service that accepts a percentage of requests.
pub struct Webservice {
    success_rate: usize,
}

impl Webservice {
    /// A rate is a percentage.
    #[verifier::type_invariant]
    spec fn rate_is_percentage(self) -> bool {
        self.success_rate <= 100
    }

    /// The percentage of requests this service accepts.
    pub closed spec fn success_rate(&self) -> usize {
        self.success_rate
    }

    /// The percentage of requests this service accepts.
    pub fn get_success_rate(&self) -> (r: usize)
        ensures
            r == self.success_rate(),
            r <= 100,
    {
        proof {
            use_type_invariant(self);
        }
        self.success_rate
    }

    /// A service that accepts `success_chance` percent of requests; a chance
    /// above 100 counts as 100.
    pub fn new(success_chance: usize) -> (w: Webservice)
        ensures
            w.success_rate() == if success_chance < 100 {
                success_chance
            } else {
                100
            },
    {
        let success_rate = if success_chance < 100 {
            success_chance
        } else {
            100
        };
        Webservice { success_rate }
    }

    /// Whether the draw `i` is accepted.
    pub fn decide_with(&self, i: i32) -> (b: bool)
        ensures
            b == accepts_draw(self.success_rate(), i),
    {
        proof {
            use_type_invariant(self);
        }
        let wide: i64 = i as i64;
        let r: i64 = if wide >= 0 {
            wide % 100000
        } else {
            let m: i64 = (-wide) % 100000;
            if m == 0 {
                0
            } else {
                100000 - m
            }
        };
        proof {
            if wide < 0 {
                let m = (-(wide as int)) % 100000;
                assert((wide as int) % 100000 == if m == 0 { 0 } else { 100000 - m }) by (nonlinear_arith)
                    requires
                        m == (-(wide as int)) % 100000,
                        wide < 0,
                ;
            }
        }
        let limit: i64 = (self.success_rate * 1000) as i64;
        r < limit
    }

    /// Decides on a request with a random draw.
    pub fn decide(&self) -> (b: bool)
        ensures
            exists|i: i32| b == accepts_draw(self.success_rate(), i),
            self.success_rate() == 0 ==> !b,
    {
        let i = random_i32();
        self.decide_with(i)
    }
}

/// How many of the draws `0..n` a service accepting `success_rate` percent of
/// requests accepts.
pub open spec fn accepted_draws(success_rate: usize, n: nat) -> nat
    decreases n,
{
    if n == 0 {
        0
    } else {
        accepted_draws(success_rate, (n - 1) as nat) + if accepts_draw(
            success_rate,
            (n - 1) as i32,
        ) {
            1nat
        } else {
            0nat
        }
    }
}

proof fn lemma_accepted_draws_count(success_rate: usize, n: nat)
    requires
        n <= 100000,
    ensures
        accepted_draws(success_rate, n) == if success_rate * 1000 < n {
            (success_rate * 1000) as nat
        } else {
            n
        },
    decreases n,
{
    if n > 0 {
        lemma_accepted_draws_count(success_rate, (n - 1) as nat);
        let i = (n - 1) as int;
        assert(((i as i32) as int) % 100000 == i);
    }
}

/// A service's rate is the share of draws it accepts: of every hundred
/// thousand consecutive draws, exactly `1000 * rate` are accepted. The draws
/// `0..100000` show it, and any draw is accepted exactly when the draw
/// `100000` higher is. So a rate of 0 accepts no draw, a rate of 100 accepts
/// every draw, negative ones included, and a rate in between has both.
pub proof fn lemma_rate_is_share_of_draws(w: Webservice, i: i32)
    requires
        w.success_rate() <= 100,
    ensures
        accepted_draws(w.success_rate(), 100000) == w.success_rate() * 1000,
        i <= i32::MAX - 100000 ==> (accepts_draw(w.success_rate(), i) <==> accepts_draw(
            w.success_rate(),
            (i + 100000) as i32,
        )),
        w.success_rate() == 0 ==> !accepts_draw(w.success_rate(), i),
        w.success_rate() == 100 ==> accepts_draw(w.success_rate(), i),
        0 < w.success_rate() < 100 ==> accepts_draw(w.success_rate(), 0) && !accepts_draw(
            w.success_rate(),
            99999,
        ),
{
    lemma_accepted_draws_count(w.success_rate(), 100000);
    if i <= i32::MAX - 100000 {
        assert(((i + 100000) as int) % 100000 == (i as int) % 100000) by (nonlinear_arith);
    }
}

} // verus!
