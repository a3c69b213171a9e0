//! The service that collects final results and keeps their statistics.
use crate::ranked_route_entry::RankedRouteEntry;
use crate::reservation_result::ReservationResult;
use crate::stats_service::{summarizes, window_push, StatsService, StatsSummary};
use vstd::prelude::*;

verus! {

/// How many results the statistics are taken over.
pub const STATS_WINDOW: usize = 1000;

/// How many routes the ranking shows at most.
pub const TOP_ROUTES_SHOWN: usize = 10;

/// The ranking entries shown for `routes`: the first ten, ranked from 0.
pub open spec fn shown_entries(routes: Seq<(String, usize)>, entries: Seq<RankedRouteEntry>) -> bool {
    &&& entries.len() == if routes.len() < TOP_ROUTES_SHOWN {
        routes.len()
    } else {
        TOP_ROUTES_SHOWN as nat
    }
    &&& forall|i: int|
        0 <= i < entries.len() ==> #[trigger] entries[i].rank == i && entries[i].route@
            == routes[i].0@ && entries[i].count == routes[i].1
}

/// Collects the final results of all reservations.
pub struct ResultService {
    stats: StatsService,
}

impl ResultService {
    /// The statistics kept by this service.
    pub closed spec fn stats(&self) -> StatsService {
        self.stats
    }

    /// A result service that keeps statistics over the latest
    /// `STATS_WINDOW` results.
    pub fn new() -> (r: ResultService)
        ensures
            r.stats().inv(),
            r.stats().history().len() == 0,
            r.stats().window() == STATS_WINDOW,
    {
        ResultService { stats: StatsService::new(STATS_WINDOW) }
    }

    /// Records a final result; returns whether the scheduler that sent it
    /// must be told that the reservation is finished (it is, when accepted).
    pub fn handle(&mut self, result: ReservationResult) -> (finished: bool)
        ensures
            finished == result.accepted,
            final(self).stats().inv(),
            final(self).stats().window() == old(self).stats().window(),
            final(self).stats().history() == window_push(
                old(self).stats().history(),
                old(self).stats().window(),
                result,
            ),
    {
        let success = result.accepted;
        self.stats.process_result_stats(result);
        success
    }

    /// The display text of the result service.
    pub fn to_string(&self) -> (s: String)
        ensures
            s@ == "RESULT SERVICE"@,
    {
        String::from_str("RESULT SERVICE")
    }

    /// The processing times of the results in the window, newest first.
    pub fn latencies(&self) -> (l: Vec<u64>)
        ensures
            l@.len() == self.stats().history().len(),
            forall|i: int|
                0 <= i < l@.len() ==> l@[i] == #[trigger] self.stats().history()[i].time_to_process,
    {
        self.stats.latencies()
    }

    /// The statistics over the window.
    pub fn stats_summary(&self) -> (s: StatsSummary)
        ensures
            summarizes(s, self.stats().history()),
    {
        self.stats.calculate_stats()
    }

    /// The ranking entries shown in the report: the top routes, at most
    /// `TOP_ROUTES_SHOWN` of them, ranked from 0.
    pub fn ranked_routes(&self) -> (entries: Vec<RankedRouteEntry>)
        ensures
            exists|s: StatsSummary|
                summarizes(s, self.stats().history()) && shown_entries(s.top_routes@, entries@),
    {
        let summary = self.stats.calculate_stats();
        let routes = &summary.top_routes;
        let n = if routes.len() < TOP_ROUTES_SHOWN {
            routes.len()
        } else {
            TOP_ROUTES_SHOWN
        };
        let mut entries: Vec<RankedRouteEntry> = Vec::new();
        let mut i: usize = 0;
        while i < n
            invariant
                n <= routes@.len(),
                i <= n,
                entries@.len() == i,
                forall|k: int|
                    0 <= k < i ==> #[trigger] entries@[k].rank == k && entries@[k].route@
                        == routes@[k].0@ && entries@[k].count == routes@[k].1,
            decreases n - i,
        {
            entries.push(RankedRouteEntry { rank: i, route: routes[i].0.clone(), count: routes[i].1 });
            i += 1;
        }
        assert(shown_entries(summary.top_routes@, entries@));
        assert(summarizes(summary, self.stats().history()));
        entries
    }
}

} // verus!
