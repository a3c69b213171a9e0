//! A web service that holds at most `rate_limit` pending requests and
//! answers them in the order they came. Callers that find it full wait
//! until a request has been taken out.
use std::collections::VecDeque;
use vstd::prelude::*;

verus! {

/// A flight request.
#[derive(Debug)]
pub struct Flight {
    pub origin: String,
    pub destination: String,
    pub airline: String,
}

/// The answer to a flight request.
#[derive(Debug)]
pub struct FlightResult {
    pub flight: Flight,
    pub accepted: bool,
}

/// The pending requests after `f` is offered to a service holding `q` with
/// room for `limit`: queued last if there is room, and refused otherwise.
pub open spec fn after_process(q: Seq<Flight>, limit: nat, f: Flight) -> Seq<Flight> {
    if q.len() < limit {
        q.push(f)
    } else {
        q
    }
}

/// The request taken out of a service holding `q`: the oldest, if any.
pub open spec fn next_request(q: Seq<Flight>) -> Option<Flight> {
    if q.len() == 0 {
        None
    } else {
        Some(q[0])
    }
}

/// The pending requests after one is taken out of `q`.
pub open spec fn after_take(q: Seq<Flight>) -> Seq<Flight> {
    if q.len() == 0 {
        q
    } else {
        q.drop_first()
    }
}

/// A rate-limited queue of flight requests.
pub struct Webservice {
    rate_limit: u32,
    requests: VecDeque<Flight>,
}

impl Webservice {
    /// Never more pending requests than the rate limit.
    #[verifier::type_invariant]
    spec fn within_limit(self) -> bool {
        self.requests@.len() <= self.rate_limit
    }

    /// The pending requests, oldest first.
    pub closed spec fn requests(&self) -> Seq<Flight> {
        self.requests@
    }

    /// The most requests that may be pending at once.
    pub closed spec fn rate_limit(&self) -> nat {
        self.rate_limit as nat
    }

    /// Never more pending requests than the rate limit.
    pub open spec fn inv(&self) -> bool {
        self.requests().len() <= self.rate_limit()
    }

    /// A service with no pending request that holds at most `rate_limit`.
    pub fn new(rate_limit: u32) -> (w: Webservice)
        ensures
            w.inv(),
            w.requests().len() == 0,
            w.rate_limit() == rate_limit,
    {
        Webservice { rate_limit, requests: VecDeque::new() }
    }

    /// The number of pending requests.
    pub fn pending(&self) -> (n: usize)
        ensures
            n == self.requests().len(),
    {
        self.requests.len()
    }

    /// Whether a request can be queued now.
    pub fn has_room(&self) -> (b: bool)
        ensures
            b == (self.requests().len() < self.rate_limit()),
    {
        (self.requests.len() as u64) < (self.rate_limit as u64)
    }

    /// Queues `reservation` behind the pending requests. When the service is
    /// full the request is handed back and nothing changes: the caller must
    /// wait for a request to be taken out.
    pub fn process(&mut self, reservation: Flight) -> (r: Result<(), Flight>)
        ensures
            final(self).inv(),
            final(self).rate_limit() == old(self).rate_limit(),
            final(self).requests() == after_process(
                old(self).requests(),
                old(self).rate_limit(),
                reservation,
            ),
            old(self).requests().len() < old(self).rate_limit() ==> r is Ok,
            old(self).requests().len() >= old(self).rate_limit() ==> r == Err::<(), Flight>(
                reservation,
            ),
    {
        proof {
            use_type_invariant(&*self);
        }
        if (self.requests.len() as u64) < (self.rate_limit as u64) {
            let mut requests = VecDeque::new();
            std::mem::swap(&mut requests, &mut self.requests);
            requests.push_back(reservation);
            self.requests = requests;
            Ok(())
        } else {
            Err(reservation)
        }
    }

    /// Takes out the oldest pending request, if any.
    pub fn take_request(&mut self) -> (r: Option<Flight>)
        ensures
            final(self).inv(),
            final(self).rate_limit() == old(self).rate_limit(),
            r == next_request(old(self).requests()),
            final(self).requests() == after_take(old(self).requests()),
    {
        proof {
            use_type_invariant(&*self);
        }
        let mut requests = VecDeque::new();
        std::mem::swap(&mut requests, &mut self.requests);
        let r = requests.pop_front();
        self.requests = requests;
        proof {
            if old(self).requests().len() > 0 {
                assert(old(self).requests().subrange(1, old(self).requests().len() as int)
                    =~= old(self).requests().drop_first());
            }
        }
        r
    }

    /// The answer to a request: every request is accepted.
    pub fn consume(&self, request: Flight) -> (r: FlightResult)
        ensures
            r.flight == request,
            r.accepted,
    {
        FlightResult { flight: request, accepted: true }
    }
}

/// Requests are answered in the order they were queued: offering a request
/// never changes which request comes out next, and two requests offered to an
/// empty service with room for both come out first and second.
pub proof fn lemma_requests_first_in_first_out(
    q: Seq<Flight>,
    limit: nat,
    a: Flight,
    b: Flight,
)
    ensures
        q.len() > 0 ==> next_request(after_process(q, limit, a)) == next_request(q),
        q.len() == 0 && limit >= 2 ==> {
            let both = after_process(after_process(q, limit, a), limit, b);
            &&& next_request(both) == Some(a)
            &&& next_request(after_take(both)) == Some(b)
            &&& after_take(after_take(both)).len() == 0
        },
{
    if q.len() == 0 && limit >= 2 {
        let both = after_process(after_process(q, limit, a), limit, b);
        assert(both =~= seq![a, b]);
        assert(after_take(both) =~= seq![b]);
    }
}

} // verus!
