//! One line of the route ranking.
use crate::text::{decimal, push_decimal};
use vstd::prelude::*;

verus! {

/// A route with its place in the ranking and its number of accepted requests.
#[derive(Debug)]
pub struct RankedRouteEntry {
    pub rank: usize,
    pub route: String,
    pub count: usize,
}

/// How a ranking entry is displayed: `rank. route with count requests`.
pub open spec fn ranked_route_text(e: RankedRouteEntry) -> Seq<char> {
    decimal(e.rank as nat) + ". "@ + e.route@ + " with "@ + decimal(e.count as nat)
        + " requests"@
}

impl RankedRouteEntry {
    /// The display text of this entry.
    pub fn to_string(&self) -> (s: String)
        ensures
            s@ == ranked_route_text(*self),
    {
        let mut out = String::new();
        push_decimal(&mut out, self.rank as u64);
        out.append(". ");
        out.append(self.route.as_str());
        out.append(" with ");
        push_decimal(&mut out, self.count as u64);
        out.append(" requests");
        assert(out@ =~= ranked_route_text(*self));
        out
    }
}

} // verus!
