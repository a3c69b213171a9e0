//! Statistics over a moving window of the latest results.
use crate::reservation::Reservation;
use crate::reservation_result::ReservationResult;
use vstd::prelude::*;

verus! {

/// Route counts are listed from the most requested route down.
pub open spec fn sorted_by_count(s: Seq<(String, usize)>) -> bool {
    forall|i: int, j: int| 0 <= i < j < s.len() ==> s[i].1 >= s[j].1
}

/// `out` holds the items of `inp`, each once, in the order `p` gives:
/// `out[i]` is `inp[p[i]]`, and `inv` is the inverse of `p`.
pub open spec fn is_reordering<T>(out: Seq<T>, inp: Seq<T>, p: Seq<int>, inv: Seq<int>) -> bool {
    &&& out.len() == inp.len()
    &&& p.len() == out.len()
    &&& inv.len() == inp.len()
    &&& forall|i: int|
        0 <= i < out.len() ==> 0 <= #[trigger] p[i] < inp.len() && out[i] == inp[p[i]] && inv[p[i]]
            == i
    &&& forall|m: int| 0 <= m < inp.len() ==> 0 <= #[trigger] inv[m] < out.len() && p[inv[m]] == m
}

/// Routes with the same count keep their relative order: the reordering `p`
/// never swaps two of them.
pub open spec fn keeps_tie_order(out: Seq<(String, usize)>, p: Seq<int>) -> bool {
    forall|i: int, j: int| 0 <= i < j < out.len() && out[i].1 == out[j].1 ==> p[i] < p[j]
}

/// `out` is a stable reordering of the route counts `inp`.
pub open spec fn stably_reorders(out: Seq<(String, usize)>, inp: Seq<(String, usize)>) -> bool {
    exists|p: Seq<int>, inv: Seq<int>| is_reordering(out, inp, p, inv) && keeps_tie_order(out, p)
}

/// The sum of the counts in `s`.
pub open spec fn count_sum(s: Seq<(String, usize)>) -> nat
    decreases s.len(),
{
    if s.len() == 0 {
        0
    } else {
        count_sum(s.drop_last()) + s.last().1 as nat
    }
}

proof fn lemma_count_sum_insert(s: Seq<(String, usize)>, k: int, x: (String, usize))
    requires
        0 <= k <= s.len(),
    ensures
        count_sum(s.insert(k, x)) == count_sum(s) + x.1,
    decreases s.len(),
{
    if k == s.len() {
        assert(s.insert(k, x) =~= s.push(x));
        assert(s.push(x).drop_last() =~= s);
    } else {
        assert(s.insert(k, x).drop_last() =~= s.drop_last().insert(k, x));
        lemma_count_sum_insert(s.drop_last(), k, x);
    }
}

proof fn lemma_count_sum_first(s: Seq<(String, usize)>)
    requires
        s.len() > 0,
    ensures
        count_sum(s) == s[0].1 + count_sum(s.drop_first()),
    decreases s.len(),
{
    if s.len() == 1 {
        assert(s.drop_first().len() == 0);
        assert(s.drop_last().len() == 0);
        assert(count_sum(s.drop_last()) == 0);
        assert(count_sum(s.drop_first()) == 0);
    } else {
        assert(s.drop_first().drop_last() =~= s.drop_last().drop_first());
        assert(s.drop_last()[0] == s[0]);
        assert(s.drop_first().last() == s.last());
        lemma_count_sum_first(s.drop_last());
    }
}

proof fn lemma_count_sum_update(s: Seq<(String, usize)>, j: int, e: (String, usize))
    requires
        0 <= j < s.len(),
    ensures
        count_sum(s.update(j, e)) + s[j].1 == count_sum(s) + e.1,
    decreases s.len(),
{
    if j == s.len() - 1 {
        assert(s.update(j, e).drop_last() =~= s.drop_last());
    } else {
        assert(s.update(j, e).drop_last() =~= s.drop_last().update(j, e));
        lemma_count_sum_update(s.drop_last(), j, e);
    }
}

/// Ranks route counts from the most requested down. Routes with the same
/// count keep the order in which they were given.
pub fn get_airlines_ranking(counts: Vec<(String, usize)>) -> (ranking: Vec<(String, usize)>)
    ensures
        sorted_by_count(ranking@),
        stably_reorders(ranking@, counts@),
        count_sum(ranking@) == count_sum(counts@),
{
    let ghost orig = counts@;
    let total = counts.len();
    let mut rest = counts;
    let mut ranking: Vec<(String, usize)> = Vec::new();
    let ghost mut p: Seq<int> = Seq::empty();
    let ghost mut inv: Seq<int> = Seq::empty();
    let mut t: usize = 0;
    proof {
        assert(rest@ =~= orig.skip(0));
        assert(orig.take(0) =~= Seq::<(String, usize)>::empty());
    }
    while rest.len() > 0
        invariant
            t + rest@.len() == orig.len(),
            orig.len() == total,
            rest@ == orig.skip(t as int),
            is_reordering(ranking@, orig.take(t as int), p, inv),
            keeps_tie_order(ranking@, p),
            sorted_by_count(ranking@),
            count_sum(ranking@) + count_sum(rest@) == count_sum(orig),
        decreases rest@.len(),
    {
        proof {
            lemma_count_sum_first(rest@);
        }
        let ghost before = rest@;
        let x = rest.remove(0);
        proof {
            assert(rest@ =~= before.drop_first());
            assert(x == orig[t as int]);
            assert(rest@ =~= orig.skip(t + 1));
        }
        let mut k: usize = 0;
        while k < ranking.len() && ranking[k].1 >= x.1
            invariant
                k <= ranking@.len(),
                forall|i: int| 0 <= i < k ==> ranking@[i].1 >= x.1,
            decreases ranking@.len() - k,
        {
            k += 1;
        }
        let ghost old_ranking = ranking@;
        ranking.insert(k, x);
        proof {
            lemma_count_sum_insert(old_ranking, k as int, x);
            let kk = k as int;
            let tt = t as int;
            let new_p = p.insert(kk, tt);
            let new_inv = inv.map_values(|pos: int| if pos >= kk { pos + 1 } else { pos }).push(kk);
            let taken = orig.take(tt + 1);
            assert(taken =~= orig.take(tt).push(x));
            assert forall|i: int| 0 <= i < ranking@.len() implies 0 <= #[trigger] new_p[i]
                < taken.len() && ranking@[i] == taken[new_p[i]] && new_inv[new_p[i]] == i by {
                if i < kk {
                    assert(new_p[i] == p[i]);
                } else if i == kk {
                    assert(new_p[i] == tt);
                } else {
                    assert(new_p[i] == p[i - 1]);
                }
            }
            assert forall|m: int| 0 <= m < taken.len() implies 0 <= #[trigger] new_inv[m]
                < ranking@.len() && new_p[new_inv[m]] == m by {
                if m < tt {
                    let pos = inv[m];
                    if pos >= kk {
                        assert(new_p[pos + 1] == p[pos]);
                    } else {
                        assert(new_p[pos] == p[pos]);
                    }
                } else {
                    assert(new_p[kk] == tt);
                }
            }
            assert(is_reordering(ranking@, taken, new_p, new_inv));
            assert forall|i: int, j: int|
                0 <= i < j < ranking@.len() && ranking@[i].1 == ranking@[j].1 implies new_p[i]
                < new_p[j] by {
                if k < old_ranking.len() {
                    assert(old_ranking[kk].1 < x.1);
                }
                if i < kk && j == kk {
                    assert(p[i] < tt);
                } else if i == kk && j > kk {
                    assert(ranking@[j] == old_ranking[j - 1]);
                    assert(old_ranking[kk].1 >= old_ranking[j - 1].1);
                } else if i < kk && j > kk {
                    assert(new_p[j] == p[j - 1]);
                } else if i > kk {
                    assert(new_p[j] == p[j - 1]);
                    assert(new_p[i] == p[i - 1]);
                }
            }
            assert forall|i: int, j: int| 0 <= i < j < ranking@.len() implies ranking@[i].1
                >= ranking@[j].1 by {
                if k < old_ranking.len() {
                    assert(old_ranking[kk].1 < x.1);
                }
                if i < kk && j == kk {
                } else if i == kk && j > kk {
                    assert(ranking@[j] == old_ranking[j - 1]);
                    assert(old_ranking[kk].1 >= old_ranking[j - 1].1);
                } else if i < kk && j > kk {
                    assert(ranking@[j] == old_ranking[j - 1]);
                } else if i > kk {
                    assert(ranking@[j] == old_ranking[j - 1]);
                    assert(ranking@[i] == old_ranking[i - 1]);
                }
            }
            p = new_p;
            inv = new_inv;
        }
        t += 1;
    }
    proof {
        assert(orig.take(t as int) =~= orig);
    }
    ranking
}


/// The route of a reservation, as the statistics name it: `origin->destination`.
pub open spec fn route_key(r: Reservation) -> Seq<char> {
    r.origin@ + "->"@ + r.destination@
}

/// The route name of a reservation.
pub fn route_key_string(r: &Reservation) -> (s: String)
    ensures
        s@ == route_key(*r),
{
    let mut s = r.origin.clone();
    s.append("->");
    s.append(r.destination.as_str());
    s
}

/// How many results of `h` were accepted.
pub open spec fn accepted_count(h: Seq<ReservationResult>) -> nat
    decreases h.len(),
{
    if h.len() == 0 {
        0
    } else {
        accepted_count(h.drop_last()) + if h.last().accepted {
            1nat
        } else {
            0nat
        }
    }
}

/// The sum of the processing times of the results of `h`.
pub open spec fn total_latency(h: Seq<ReservationResult>) -> nat
    decreases h.len(),
{
    if h.len() == 0 {
        0
    } else {
        total_latency(h.drop_last()) + h.last().time_to_process as nat
    }
}

/// The longest processing time in `h`, or 0 if `h` is empty.
pub open spec fn max_latency(h: Seq<ReservationResult>) -> nat
    decreases h.len(),
{
    if h.len() == 0 {
        0
    } else {
        let m = max_latency(h.drop_last());
        if h.last().time_to_process > m {
            h.last().time_to_process as nat
        } else {
            m
        }
    }
}

/// The shortest processing time in `h`, or the largest `u64` if `h` is empty.
pub open spec fn min_latency(h: Seq<ReservationResult>) -> nat
    decreases h.len(),
{
    if h.len() == 0 {
        u64::MAX as nat
    } else {
        let m = min_latency(h.drop_last());
        if (h.last().time_to_process as nat) < m {
            h.last().time_to_process as nat
        } else {
            m
        }
    }
}

/// How many accepted results of `h` are for the route `key`.
pub open spec fn route_count(h: Seq<ReservationResult>, key: Seq<char>) -> nat
    decreases h.len(),
{
    if h.len() == 0 {
        0
    } else {
        route_count(h.drop_last(), key) + if h.last().accepted && route_key(h.last().reservation)
            == key {
            1nat
        } else {
            0nat
        }
    }
}

/// `routes` counts the accepted results of `h` by route: each route of an
/// accepted result appears exactly once, with its number of accepted results.
pub open spec fn counts_routes(routes: Seq<(String, usize)>, h: Seq<ReservationResult>) -> bool {
    &&& forall|i: int|
        0 <= i < routes.len() ==> #[trigger] routes[i].1 == route_count(h, routes[i].0@)
            && routes[i].1 > 0
    &&& forall|i: int, j: int| 0 <= i < j < routes.len() ==> routes[i].0@ != routes[j].0@
    &&& forall|m: int|
        0 <= m < h.len() && #[trigger] h[m].accepted ==> exists|i: int|
            0 <= i < routes.len() && routes[i].0@ == route_key(h[m].reservation)
}

/// A route that some accepted result is for.
pub proof fn lemma_route_count_witness(h: Seq<ReservationResult>, key: Seq<char>)
    requires
        route_count(h, key) > 0,
    ensures
        exists|m: int| 0 <= m < h.len() && #[trigger] h[m].accepted && route_key(h[m].reservation) == key,
    decreases h.len(),
{
    if h.len() > 0 {
        if !(h.last().accepted && route_key(h.last().reservation) == key) {
            lemma_route_count_witness(h.drop_last(), key);
            let m = choose|m: int|
                0 <= m < h.drop_last().len() && #[trigger] h.drop_last()[m].accepted && route_key(
                    h.drop_last()[m].reservation,
                ) == key;
            assert(h[m] == h.drop_last()[m]);
        } else {
            assert(h[h.len() - 1].accepted);
        }
    }
}

proof fn lemma_route_count_le(h: Seq<ReservationResult>, key: Seq<char>)
    ensures
        route_count(h, key) <= h.len(),
    decreases h.len(),
{
    if h.len() > 0 {
        lemma_route_count_le(h.drop_last(), key);
    }
}

proof fn lemma_accepted_count_le(h: Seq<ReservationResult>)
    ensures
        accepted_count(h) <= h.len(),
    decreases h.len(),
{
    if h.len() > 0 {
        lemma_accepted_count_le(h.drop_last());
    }
}

/// The integer figures behind the moving statistics.
///
/// `sample_size` is the number of accepted results in the window and
/// `history_len` the number of results in it. When nothing was accepted every
/// other figure is zero and no route is ranked; otherwise `total_latency`,
/// `highest_latency` and `lowest_latency` (in nanoseconds) are taken over all
/// results in the window, and `top_routes` ranks the routes of the accepted
/// ones from the most requested down.
#[derive(Debug)]
pub struct StatsSummary {
    pub sample_size: usize,
    pub history_len: usize,
    pub total_latency: u128,
    pub highest_latency: u64,
    pub lowest_latency: u64,
    pub top_routes: Vec<(String, usize)>,
}

/// `routes` ranks the routes of the accepted results of `h`.
pub open spec fn ranks_routes(routes: Seq<(String, usize)>, h: Seq<ReservationResult>) -> bool {
    sorted_by_count(routes) && counts_routes(routes, h)
}

/// `s` summarizes the window `h`.
pub open spec fn summarizes(s: StatsSummary, h: Seq<ReservationResult>) -> bool {
    &&& s.history_len == h.len()
    &&& s.sample_size == accepted_count(h)
    &&& count_sum(s.top_routes@) == s.sample_size
    &&& if accepted_count(h) == 0 {
        &&& s.total_latency == 0
        &&& s.highest_latency == 0
        &&& s.lowest_latency == 0
        &&& s.top_routes@.len() == 0
    } else {
        &&& s.total_latency == total_latency(h)
        &&& s.highest_latency == max_latency(h)
        &&& s.lowest_latency == min_latency(h)
        &&& ranks_routes(s.top_routes@, h)
    }
}

/// The window after `f` is recorded: `f` comes first, and when the window was
/// full its oldest result is dropped.
pub open spec fn window_push(
    h: Seq<ReservationResult>,
    window: nat,
    f: ReservationResult,
) -> Seq<ReservationResult> {
    seq![f] + if h.len() >= window && h.len() > 0 {
        h.drop_last()
    } else {
        h
    }
}

/// The window after the results `rs` are recorded in order, starting from `h`.
pub open spec fn window_after(
    h: Seq<ReservationResult>,
    window: nat,
    rs: Seq<ReservationResult>,
) -> Seq<ReservationResult>
    decreases rs.len(),
{
    if rs.len() == 0 {
        h
    } else {
        window_push(window_after(h, window, rs.drop_last()), window, rs.last())
    }
}

/// The newest `k` results of `rs`, newest first.
pub open spec fn newest(rs: Seq<ReservationResult>, k: nat) -> Seq<ReservationResult> {
    Seq::new(k, |i: int| rs[rs.len() - 1 - i])
}

/// Recording results one after the other into an empty window of size
/// `window` (at least 1) leaves exactly the newest `window` of them (all of
/// them, if fewer), newest first: older results have no effect on the
/// statistics.
pub proof fn lemma_window_keeps_newest(window: nat, rs: Seq<ReservationResult>)
    requires
        window >= 1,
    ensures
        window_after(Seq::empty(), window, rs) == newest(
            rs,
            if rs.len() < window {
                rs.len()
            } else {
                window
            },
        ),
    decreases rs.len(),
{
    if rs.len() > 0 {
        let prev = rs.drop_last();
        lemma_window_keeps_newest(window, prev);
        let k = if prev.len() < window {
            prev.len()
        } else {
            window
        };
        let p = newest(prev, k);
        let kk = if rs.len() < window {
            rs.len()
        } else {
            window
        };
        let out = window_push(p, window, rs.last());
        assert(out.len() == kk);
        assert forall|i: int| 0 <= i < kk implies out[i] == newest(rs, kk)[i] by {
            if i > 0 {
                assert(out[i] == p[i - 1]);
                assert(p[i - 1] == prev[prev.len() - 1 - (i - 1)]);
            }
        }
        assert(out =~= newest(rs, kk));
    } else {
        assert(newest(rs, 0) =~= Seq::<ReservationResult>::empty());
    }
}

/// Keeps the latest results, newest first, in a window of a fixed size.
pub struct StatsService {
    history: std::collections::VecDeque<ReservationResult>,
    window: usize,
}

impl StatsService {
    /// The window never holds more results than its size (and at least the
    /// latest one).
    #[verifier::type_invariant]
    spec fn window_respected(self) -> bool {
        self.history@.len() <= if self.window == 0 {
            1
        } else {
            self.window as nat
        }
    }

    /// The results in the window, newest first.
    pub closed spec fn history(&self) -> Seq<ReservationResult> {
        self.history@
    }

    /// The size of the window.
    pub closed spec fn window(&self) -> nat {
        self.window as nat
    }

    /// The window never holds more results than its size (and at least the
    /// latest one).
    pub open spec fn inv(&self) -> bool {
        self.history().len() <= if self.window() == 0 {
            1
        } else {
            self.window()
        }
    }

    /// An empty window of size `moving_avg`.
    pub fn new(moving_avg: usize) -> (s: StatsService)
        ensures
            s.inv(),
            s.history() == Seq::<ReservationResult>::empty(),
            s.window() == moving_avg,
    {
        StatsService { history: std::collections::VecDeque::with_capacity(moving_avg), window: moving_avg }
    }

    /// The number of results in the window.
    pub fn len(&self) -> (n: usize)
        ensures
            n == self.history().len(),
    {
        self.history.len()
    }

    /// The processing times of the results in the window, newest first.
    pub fn latencies(&self) -> (l: Vec<u64>)
        ensures
            l@.len() == self.history().len(),
            forall|i: int| 0 <= i < l@.len() ==> l@[i] == #[trigger] self.history()[i].time_to_process,
    {
        let mut l: Vec<u64> = Vec::new();
        let mut i: usize = 0;
        while i < self.history.len()
            invariant
                i <= self.history@.len(),
                l@.len() == i,
                forall|k: int| 0 <= k < i ==> l@[k] == #[trigger] self.history@[k].time_to_process,
            decreases self.history@.len() - i,
        {
            l.push(self.history[i].time_to_process);
            i += 1;
        }
        l
    }

    /// Records `f` as the newest result.
    pub fn process_result_stats(&mut self, f: ReservationResult)
        ensures
            final(self).inv(),
            final(self).window() == old(self).window(),
            final(self).history() == window_push(old(self).history(), old(self).window(), f),
    {
        proof {
            use_type_invariant(&*self);
        }
        let mut history = std::collections::VecDeque::new();
        std::mem::swap(&mut history, &mut self.history);
        if history.len() >= self.window {
            history.pop_back();
        }
        history.push_front(f);
        self.history = history;
        proof {
            let h = old(self).history();
            if h.len() >= old(self).window() && h.len() > 0 {
                assert(h.subrange(0, h.len() - 1) =~= h.drop_last());
            }
            assert(self.history() =~= window_push(h, old(self).window(), f));
        }
    }

    /// The statistics of the window.
    pub fn calculate_stats(&self) -> (s: StatsSummary)
        ensures
            summarizes(s, self.history()),
    {
        let ghost h = self.history@;
        let n = self.history.len();
        let mut sample_size: usize = 0;
        let mut total: u128 = 0;
        let mut highest: u64 = 0;
        let mut lowest: u64 = u64::MAX;
        let mut counts: Vec<(String, usize)> = Vec::new();
        let mut i: usize = 0;
        proof {
            assert(h.take(0) =~= Seq::<ReservationResult>::empty());
        }
        while i < n
            invariant
                n == h.len(),
                h == self.history@,
                i <= n,
                sample_size == accepted_count(h.take(i as int)),
                total == total_latency(h.take(i as int)),
                total <= i * 0xffff_ffff_ffff_ffffnat,
                highest == max_latency(h.take(i as int)),
                lowest == min_latency(h.take(i as int)),
                counts_routes(counts@, h.take(i as int)),
                count_sum(counts@) == sample_size,
            decreases n - i,
        {
            let val = &self.history[i];
            let ghost prev = h.take(i as int);
            let ghost next = h.take(i + 1);
            proof {
                assert(next.drop_last() =~= prev);
                assert(next.last() == *val);
                lemma_accepted_count_le(prev);
            }
            if val.accepted {
                let key = route_key_string(&val.reservation);
                let mut j: usize = 0;
                let mut found = false;
                while j < counts.len() && !found
                    invariant
                        j <= counts@.len(),
                        found ==> j < counts@.len() && counts@[j as int].0@ == key@,
                        forall|k: int| 0 <= k < j ==> counts@[k].0@ != key@,
                    decreases counts@.len() - j, if found { 0int } else { 1int },
                {
                    if counts[j].0 == key {
                        found = true;
                    } else {
                        j += 1;
                    }
                }
                if found {
                    let ghost old_counts = counts@;
                    proof {
                        lemma_route_count_le(prev, key@);
                    }
                    let c = counts[j].1 + 1;
                    let name = counts[j].0.clone();
                    counts.set(j, (name, c));
                    proof {
                        lemma_count_sum_update(old_counts, j as int, (name, c));
                        assert(counts@ =~= old_counts.update(j as int, (name, c)));
                        assert forall|k: int| 0 <= k < counts@.len() implies #[trigger] counts@[k].1
                            == route_count(next, counts@[k].0@) && counts@[k].1 > 0 by {
                            if k != j {
                                assert(old_counts[k].0@ != old_counts[j as int].0@);
                            }
                        }
                        assert forall|m: int|
                            0 <= m < next.len() && #[trigger] next[m].accepted implies exists|k: int|
                            0 <= k < counts@.len() && counts@[k].0@ == route_key(
                                next[m].reservation,
                            ) by {
                            if m < i {
                                assert(next[m] == prev[m]);
                                let k = choose|k: int|
                                    0 <= k < old_counts.len() && old_counts[k].0@ == route_key(
                                        prev[m].reservation,
                                    );
                                assert(counts@[k].0@ == old_counts[k].0@);
                            } else {
                                assert(counts@[j as int].0@ == key@);
                            }
                        }
                    }
                } else {
                    let ghost old_counts = counts@;
                    proof {
                        if route_count(prev, key@) > 0 {
                            lemma_route_count_witness(prev, key@);
                            let m = choose|m: int|
                                0 <= m < prev.len() && #[trigger] prev[m].accepted && route_key(
                                    prev[m].reservation,
                                ) == key@;
                            let k = choose|k: int|
                                0 <= k < old_counts.len() && old_counts[k].0@ == route_key(
                                    prev[m].reservation,
                                );
                            assert(false);
                        }
                    }
                    counts.push((key, 1));
                    proof {
                        assert(counts@.drop_last() =~= old_counts);
                        assert forall|k: int| 0 <= k < counts@.len() implies #[trigger] counts@[k].1
                            == route_count(next, counts@[k].0@) && counts@[k].1 > 0 by {
                            if k < old_counts.len() {
                                assert(counts@[k] == old_counts[k]);
                                assert(old_counts[k].0@ != key@);
                            }
                        }
                        assert forall|m: int|
                            0 <= m < next.len() && #[trigger] next[m].accepted implies exists|k: int|
                            0 <= k < counts@.len() && counts@[k].0@ == route_key(
                                next[m].reservation,
                            ) by {
                            if m < i {
                                assert(next[m] == prev[m]);
                                let k = choose|k: int|
                                    0 <= k < old_counts.len() && old_counts[k].0@ == route_key(
                                        prev[m].reservation,
                                    );
                                assert(counts@[k] == old_counts[k]);
                            } else {
                                assert(counts@[old_counts.len() as int].0@ == route_key(
                                    next[m].reservation,
                                ));
                            }
                        }
                    }
                }
                sample_size += 1;
            } else {
                proof {
                    assert forall|k: int| 0 <= k < counts@.len() implies #[trigger] counts@[k].1
                        == route_count(next, counts@[k].0@) && counts@[k].1 > 0 by {}
                    assert forall|m: int|
                        0 <= m < next.len() && #[trigger] next[m].accepted implies exists|k: int|
                        0 <= k < counts@.len() && counts@[k].0@ == route_key(next[m].reservation) by {
                        assert(m < i);
                        assert(next[m] == prev[m]);
                    }
                }
            }
            total = total + val.time_to_process as u128;
            if val.time_to_process > highest {
                highest = val.time_to_process;
            }
            if val.time_to_process < lowest {
                lowest = val.time_to_process;
            }
            i += 1;
        }
        proof {
            assert(h.take(n as int) =~= h);
        }
        if sample_size == 0 {
            return StatsSummary {
                sample_size: 0,
                history_len: n,
                total_latency: 0,
                highest_latency: 0,
                lowest_latency: 0,
                top_routes: Vec::new(),
            };
        }
        let ghost counted = counts@;
        let top_routes = get_airlines_ranking(counts);
        proof {
            let (p, inv) = choose|p: Seq<int>, inv: Seq<int>|
                is_reordering(top_routes@, counted, p, inv) && keeps_tie_order(top_routes@, p);
            assert forall|k: int| 0 <= k < top_routes@.len() implies #[trigger] top_routes@[k].1
                == route_count(h, top_routes@[k].0@) && top_routes@[k].1 > 0 by {
                assert(top_routes@[k] == counted[p[k]]);
            }
            assert forall|a: int, b: int| 0 <= a < b < top_routes@.len() implies top_routes@[a].0@
                != top_routes@[b].0@ by {
                assert(top_routes@[a] == counted[p[a]]);
                assert(top_routes@[b] == counted[p[b]]);
                assert(inv[p[a]] == a);
                assert(inv[p[b]] == b);
                if p[a] < p[b] {
                } else {
                }
            }
            assert forall|m: int| 0 <= m < h.len() && #[trigger] h[m].accepted implies exists|k: int|
                0 <= k < top_routes@.len() && top_routes@[k].0@ == route_key(h[m].reservation) by {
                let c = choose|c: int|
                    0 <= c < counted.len() && counted[c].0@ == route_key(h[m].reservation);
                assert(top_routes@[inv[c]] == counted[p[inv[c]]]);
            }
        }
        StatsSummary {
            sample_size,
            history_len: n,
            total_latency: total,
            highest_latency: highest,
            lowest_latency: lowest,
            top_routes,
        }
    }
}

proof fn lemma_max_latency_bounds(h: Seq<ReservationResult>)
    ensures
        forall|i: int| 0 <= i < h.len() ==> max_latency(h) >= (#[trigger] h[i]).time_to_process,
        h.len() > 0 ==> exists|i: int| 0 <= i < h.len() && max_latency(h) == (#[trigger] h[i]).time_to_process,
    decreases h.len(),
{
    if h.len() > 0 {
        let prev = h.drop_last();
        lemma_max_latency_bounds(prev);
        assert forall|i: int| 0 <= i < h.len() implies max_latency(h) >= (#[trigger] h[i]).time_to_process by {
            if i < prev.len() {
                assert(h[i] == prev[i]);
            }
        }
        if prev.len() > 0 && max_latency(h) == max_latency(prev) {
            let i = choose|i: int| 0 <= i < prev.len() && max_latency(prev) == (#[trigger] prev[i]).time_to_process;
            assert(h[i] == prev[i]);
        } else {
            assert(max_latency(h) == h[h.len() - 1].time_to_process);
        }
    }
}

proof fn lemma_min_latency_bounds(h: Seq<ReservationResult>)
    ensures
        forall|i: int| 0 <= i < h.len() ==> min_latency(h) <= (#[trigger] h[i]).time_to_process,
        h.len() > 0 ==> exists|i: int| 0 <= i < h.len() && min_latency(h) == (#[trigger] h[i]).time_to_process,
    decreases h.len(),
{
    if h.len() > 0 {
        let prev = h.drop_last();
        lemma_min_latency_bounds(prev);
        assert forall|i: int| 0 <= i < h.len() implies min_latency(h) <= (#[trigger] h[i]).time_to_process by {
            if i < prev.len() {
                assert(h[i] == prev[i]);
            }
        }
        if prev.len() > 0 && min_latency(h) == min_latency(prev) {
            let i = choose|i: int| 0 <= i < prev.len() && min_latency(prev) == (#[trigger] prev[i]).time_to_process;
            assert(h[i] == prev[i]);
        } else {
            assert(min_latency(h) == h[h.len() - 1].time_to_process);
        }
    }
}

/// When some result in the window was accepted, the highest and lowest
/// latencies are taken over every result in the window, accepted or
/// rejected: every processing time lies between them, and each of them is the
/// processing time of some result in the window.
pub proof fn lemma_latency_extremes_over_whole_window(s: StatsSummary, h: Seq<ReservationResult>)
    requires
        summarizes(s, h),
        s.sample_size > 0,
    ensures
        forall|i: int|
            0 <= i < h.len() ==> s.lowest_latency <= (#[trigger] h[i]).time_to_process
                <= s.highest_latency,
        exists|i: int| 0 <= i < h.len() && s.highest_latency == (#[trigger] h[i]).time_to_process,
        exists|i: int| 0 <= i < h.len() && s.lowest_latency == (#[trigger] h[i]).time_to_process,
        s.total_latency >= s.highest_latency,
{
    lemma_accepted_count_le(h);
    lemma_max_latency_bounds(h);
    lemma_min_latency_bounds(h);
    lemma_total_latency_ge(h);
}

proof fn lemma_total_latency_ge(h: Seq<ReservationResult>)
    ensures
        forall|i: int| 0 <= i < h.len() ==> total_latency(h) >= (#[trigger] h[i]).time_to_process,
    decreases h.len(),
{
    if h.len() > 0 {
        let prev = h.drop_last();
        lemma_total_latency_ge(prev);
        assert forall|i: int| 0 <= i < h.len() implies total_latency(h) >= (#[trigger] h[i]).time_to_process by {
            if i < prev.len() {
                assert(h[i] == prev[i]);
            }
        }
    }
}

} // verus!
