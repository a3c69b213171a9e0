//! The scheduler of one airline: it keeps at most `capacity` requests at the
//! airline's web service, queues the rest, asks the hotel for a room for
//! fresh package reservations, joins the airline and hotel answers of a
//! package, sends rejected reservations to the cooldown, and hands accepted
//! results on to the result service.
//!
//! Every handler here is a step from the scheduler's state and one incoming
//! message to its next state and the messages it sends out.
use crate::cooldown_service::CooldownService;
use crate::reservation::Reservation;
use crate::reservation_kind::ReservationKind;
use crate::reservation_result::ReservationResult;
use crate::text::{decimal, push_decimal};
use crate::webservice_kind::WebserviceKind;
use std::collections::{HashMap, VecDeque};
use vstd::prelude::*;

verus! {

broadcast use vstd::std_specs::hash::group_hash_axioms;

/// The longer of two processing times.
pub fn max_duration_between(d1: u64, d2: u64) -> (d: u64)
    ensures
        d == if d1 >= d2 {
            d1
        } else {
            d2
        },
{
    if d1 >= d2 {
        d1
    } else {
        d2
    }
}

/// The messages a scheduler sends when it receives a reservation.
#[derive(Debug)]
pub struct ReservationDispatch {
    /// The reservation, sent to the airline's web service.
    pub to_airline: Option<Reservation>,
    /// The reservation, sent to the hotel's web service.
    pub to_hotel: Option<Reservation>,
}

/// The messages a scheduler sends when it receives a result.
#[derive(Debug)]
pub struct ResultActions {
    /// A rejected reservation, sent to the cooldown to be tried again.
    pub cooldown: Option<Reservation>,
    /// A final result, sent to the result service.
    pub to_result_service: Option<ReservationResult>,
    /// The oldest queued reservation, sent by the scheduler to itself.
    pub resend: Option<Reservation>,
}

/// The state of a scheduler.
pub struct ScheduleState {
    /// The accepted answers to package reservations, by reservation id, kept
    /// to be joined with the other answer.
    pub results: Map<usize, ReservationResult>,
    /// The reservations waiting for room at the airline, newest first.
    pub queued: Seq<Reservation>,
    /// The number of requests at the airline's web service.
    pub amount_processing: nat,
    /// The most requests the airline's web service may hold at once.
    pub capacity: nat,
}

/// The answer kept for reservation `id`, if any.
pub open spec fn pending_result(results: Map<usize, ReservationResult>, id: usize) -> Option<
    ReservationResult,
> {
    if results.contains_key(id) {
        Some(results[id])
    } else {
        None
    }
}

/// The same reservation, marked as handed back by the scheduler.
pub open spec fn not_fresh(r: Reservation) -> Reservation {
    Reservation { fresh: false, ..r }
}

/// The joint result of the two answers to a package reservation.
pub open spec fn merged(r1: ReservationResult, r2: ReservationResult) -> ReservationResult {
    ReservationResult {
        reservation: r1.reservation,
        accepted: r1.accepted && r2.accepted,
        time_to_process: if r1.time_to_process >= r2.time_to_process {
            r1.time_to_process
        } else {
            r2.time_to_process
        },
        creator: WebserviceKind::Merge,
    }
}

/// The step of a scheduler in state `st` that receives the reservation `msg`:
/// it goes to the airline if there is room and is queued otherwise, and a
/// fresh package also goes to the hotel.
pub open spec fn on_reservation(st: ScheduleState, msg: Reservation) -> (
    ScheduleState,
    ReservationDispatch,
) {
    let room = st.amount_processing < st.capacity;
    let next = ScheduleState {
        queued: if room {
            st.queued
        } else {
            seq![msg].add(st.queued)
        },
        amount_processing: if room {
            st.amount_processing + 1
        } else {
            st.amount_processing
        },
        ..st
    };
    let out = ReservationDispatch {
        to_airline: if room {
            Some(msg)
        } else {
            None
        },
        to_hotel: if msg.kind == ReservationKind::Package && msg.fresh {
            Some(msg)
        } else {
            None
        },
    };
    (next, out)
}

/// The step of a scheduler in state `st` that receives the result `msg`.
///
/// An airline answer frees a place at the airline. A rejection goes to the
/// cooldown. An accepted flight goes to the result service; an accepted
/// package answer is kept until the other answer arrives, and then the two
/// are joined and the joint result goes to the result service. Whatever the
/// answer, the oldest queued reservation (if any) is sent again.
pub open spec fn on_result(st: ScheduleState, msg: ReservationResult) -> (
    ScheduleState,
    ResultActions,
) {
    let processing = if msg.creator == WebserviceKind::Airline {
        (st.amount_processing - 1) as nat
    } else {
        st.amount_processing
    };
    let is_package = msg.reservation.kind == ReservationKind::Package;
    let pending = pending_result(st.results, msg.reservation.id);
    let results = if msg.accepted && is_package && pending is None {
        st.results.insert(msg.reservation.id, msg)
    } else {
        st.results
    };
    let forward = if !msg.accepted {
        None
    } else if !is_package {
        Some(msg)
    } else {
        match pending {
            Some(r2) => Some(merged(msg, r2)),
            None => None,
        }
    };
    let queued = if st.queued.len() > 0 {
        st.queued.drop_last()
    } else {
        st.queued
    };
    let resend = if st.queued.len() > 0 {
        Some(not_fresh(st.queued.last()))
    } else {
        None
    };
    let next = ScheduleState { results, queued, amount_processing: processing, ..st };
    let out = ResultActions {
        cooldown: if msg.accepted {
            None
        } else {
            Some(not_fresh(msg.reservation))
        },
        to_result_service: forward,
        resend,
    };
    (next, out)
}

/// Whether a scheduler in state `st` reports that it has finished: nothing
/// is queued and nothing is at the airline.
pub open spec fn on_finished(st: ScheduleState) -> bool {
    st.queued.len() == 0 && st.amount_processing == 0
}

/// The invariant of a scheduler: the airline never holds more than its
/// capacity, and the answers kept are accepted package answers, at most one
/// per reservation id.
pub open spec fn schedule_inv(st: ScheduleState) -> bool {
    &&& st.amount_processing <= st.capacity
    &&& forall|id: usize| #[trigger]
        st.results.contains_key(id) ==> kept_answer_ok(st.results[id], id)
}

/// A kept answer is an accepted answer to the package reservation `id`.
pub open spec fn kept_answer_ok(r: ReservationResult, id: usize) -> bool {
    &&& r.accepted
    &&& r.reservation.kind == ReservationKind::Package
    &&& r.reservation.id == id
}

/// What a result message needs of the state that receives it: an airline
/// answer only comes for a request the airline holds.
pub open spec fn result_allowed(st: ScheduleState, msg: ReservationResult) -> bool {
    msg.creator == WebserviceKind::Airline ==> st.amount_processing > 0
}

/// How a scheduler is displayed.
pub open spec fn schedule_text(id: usize, amount_processing: usize) -> Seq<char> {
    "SCHEUDLER <"@ + decimal(id as nat) + ">(procesing <"@ + decimal(amount_processing as nat)
        + ">)"@
}

/// The scheduler of one airline.
pub struct ScheduleService {
    results: HashMap<usize, ReservationResult>,
    queued_reservations: VecDeque<Reservation>,
    cooldown_service: CooldownService,
    amount_processing: usize,
    capacity: usize,
    pub id: usize,
}

impl View for ScheduleService {
    type V = ScheduleState;

    closed spec fn view(&self) -> ScheduleState {
        ScheduleState {
            results: self.results@,
            queued: self.queued_reservations@,
            amount_processing: self.amount_processing as nat,
            capacity: self.capacity as nat,
        }
    }
}

impl ScheduleService {
    /// The id of this scheduler.
    pub closed spec fn service_id(&self) -> usize {
        self.id
    }

    /// The cooldown this scheduler sends rejected reservations to.
    pub closed spec fn cooldown(&self) -> CooldownService {
        self.cooldown_service
    }

    /// A scheduler with id `id`, a capacity of `params.0` requests at the
    /// airline, and a cooldown of `params.1` milliseconds.
    pub fn new(params: (usize, u64), id: usize) -> (s: ScheduleService)
        ensures
            s@.results == Map::<usize, ReservationResult>::empty(),
            s@.queued.len() == 0,
            s@.amount_processing == 0,
            s@.capacity == params.0,
            s.cooldown().retry_wait() == params.1,
            s.service_id() == id,
            schedule_inv(s@),
    {
        ScheduleService {
            results: HashMap::new(),
            queued_reservations: VecDeque::new(),
            cooldown_service: CooldownService::new(params.1),
            amount_processing: 0,
            capacity: params.0,
            id,
        }
    }

    /// The cooldown this scheduler sends rejected reservations to.
    pub fn cooldown_service(&self) -> (c: &CooldownService)
        ensures
            *c == self.cooldown(),
    {
        &self.cooldown_service
    }

    /// The number of requests at the airline's web service.
    pub fn amount_processing(&self) -> (n: usize)
        ensures
            n == self@.amount_processing,
    {
        self.amount_processing
    }

    /// The number of queued reservations.
    pub fn queued_len(&self) -> (n: usize)
        ensures
            n == self@.queued.len(),
    {
        self.queued_reservations.len()
    }

    /// Handles a reservation sent to this scheduler.
    pub fn handle_reservation(&mut self, msg: Reservation) -> (out: ReservationDispatch)
        ensures
            (final(self)@, out) == on_reservation(old(self)@, msg),
            final(self).service_id() == old(self).service_id(),
            final(self).cooldown() == old(self).cooldown(),
            schedule_inv(old(self)@) ==> schedule_inv(final(self)@),
    {
        let mut to_airline = None;
        if self.amount_processing < self.capacity {
            to_airline = Some(msg.clone());
            self.amount_processing += 1;
        } else {
            self.queued_reservations.push_front(msg.clone());
        }
        let mut to_hotel = None;
        if let ReservationKind::Package = msg.kind {
            if msg.fresh {
                to_hotel = Some(msg);
            }
        }
        let out = ReservationDispatch { to_airline, to_hotel };
        proof {
            let (st, o) = on_reservation(old(self)@, msg);
            assert(self@.queued =~= st.queued);
            if schedule_inv(old(self)@) {
                lemma_reservation_keeps_invariant(old(self)@, msg);
            }
        }
        out
    }

    /// Handles a result sent to this scheduler by a web service.
    pub fn handle_result(&mut self, msg: ReservationResult) -> (out: ResultActions)
        requires
            result_allowed(old(self)@, msg),
        ensures
            (final(self)@, out) == on_result(old(self)@, msg),
            final(self).service_id() == old(self).service_id(),
            final(self).cooldown() == old(self).cooldown(),
            schedule_inv(old(self)@) ==> schedule_inv(final(self)@),
    {
        if let WebserviceKind::Airline = msg.creator {
            self.amount_processing -= 1;
        }
        let mut cooldown = None;
        let mut to_result_service = None;
        if !msg.accepted {
            let mut reservation = msg.reservation;
            reservation.fresh = false;
            cooldown = Some(reservation);
        } else {
            let is_package = match msg.reservation.kind {
                ReservationKind::Package => true,
                ReservationKind::Flight => false,
            };
            if is_package {
                match self.results.get(&msg.reservation.id) {
                    Some(r2) => {
                        let accepted = msg.accepted && r2.accepted;
                        let delay = max_duration_between(msg.time_to_process, r2.time_to_process);
                        to_result_service = Some(
                            ReservationResult::from_reservation_ref(
                                msg.reservation,
                                accepted,
                                delay,
                                WebserviceKind::Merge,
                            ),
                        );
                    },
                    None => {
                        self.results.insert(msg.reservation.id, msg);
                    },
                }
            } else {
                to_result_service = Some(msg);
            }
        }
        let mut resend = None;
        if self.queued_reservations.len() > 0 {
            match self.queued_reservations.pop_back() {
                Some(mut queued) => {
                    queued.fresh = false;
                    resend = Some(queued);
                },
                None => {},
            }
        }
        let out = ResultActions { cooldown, to_result_service, resend };
        proof {
            let (st, o) = on_result(old(self)@, msg);
            let q = old(self)@.queued;
            if q.len() > 0 {
                assert(q.subrange(0, q.len() - 1) =~= q.drop_last());
            }
            assert(self@.queued =~= st.queued);
            assert(self@.results =~= st.results);
            if schedule_inv(old(self)@) {
                lemma_result_keeps_invariant(old(self)@, msg);
            }
        }
        out
    }

    /// Whether this scheduler reports, on a finished notice, that it has
    /// finished: nothing queued and nothing at the airline.
    pub fn handle_finished(&self) -> (done: bool)
        ensures
            done == on_finished(self@),
    {
        self.queued_reservations.len() == 0 && self.amount_processing == 0
    }

    /// The display text of this scheduler.
    pub fn to_string(&self) -> (s: String)
        ensures
            s@ == schedule_text(self.service_id(), self@.amount_processing as usize),
    {
        let mut out = String::new();
        out.append("SCHEUDLER <");
        push_decimal(&mut out, self.id as u64);
        out.append(">(procesing <");
        push_decimal(&mut out, self.amount_processing as u64);
        out.append(">)");
        assert(out@ =~= schedule_text(self.id, self.amount_processing));
        out
    }
}


/// Receiving a reservation keeps the scheduler's invariant: in particular
/// the airline is never given more requests than its capacity.
pub proof fn lemma_reservation_keeps_invariant(st: ScheduleState, msg: Reservation)
    requires
        schedule_inv(st),
    ensures
        schedule_inv(on_reservation(st, msg).0),
{
}

/// Receiving a result keeps the scheduler's invariant: in particular the
/// answers kept are accepted package answers, each under its own
/// reservation id.
pub proof fn lemma_result_keeps_invariant(st: ScheduleState, msg: ReservationResult)
    requires
        schedule_inv(st),
        result_allowed(st, msg),
    ensures
        schedule_inv(on_result(st, msg).0),
{
    let next = on_result(st, msg).0;
    assert forall|id: usize| #[trigger] next.results.contains_key(id) implies kept_answer_ok(
        next.results[id],
        id,
    ) by {
        if st.results.contains_key(id) {
            assert(kept_answer_ok(st.results[id], id));
        }
    }
}

/// A message that a scheduler receives.
pub enum ScheduleEvent {
    /// A reservation arrives.
    Arrives(Reservation),
    /// A web service answers.
    Answered(ReservationResult),
}

/// The state after one message.
pub open spec fn step(st: ScheduleState, e: ScheduleEvent) -> ScheduleState {
    match e {
        ScheduleEvent::Arrives(r) => on_reservation(st, r).0,
        ScheduleEvent::Answered(r) => on_result(st, r).0,
    }
}

/// The state after the messages `evs`, in order.
pub open spec fn run_events(st: ScheduleState, evs: Seq<ScheduleEvent>) -> ScheduleState
    decreases evs.len(),
{
    if evs.len() == 0 {
        st
    } else {
        step(run_events(st, evs.drop_last()), evs.last())
    }
}

/// How many of the reservations in `evs` the scheduler sends to the airline.
pub open spec fn airline_sends(st: ScheduleState, evs: Seq<ScheduleEvent>) -> nat
    decreases evs.len(),
{
    if evs.len() == 0 {
        0
    } else {
        airline_sends(st, evs.drop_last()) + match evs.last() {
            ScheduleEvent::Arrives(r) => if on_reservation(
                run_events(st, evs.drop_last()),
                r,
            ).1.to_airline is Some {
                1nat
            } else {
                0nat
            },
            ScheduleEvent::Answered(_) => 0nat,
        }
    }
}

/// How many of the answers in `evs` come from the airline.
pub open spec fn airline_answers(evs: Seq<ScheduleEvent>) -> nat
    decreases evs.len(),
{
    if evs.len() == 0 {
        0
    } else {
        airline_answers(evs.drop_last()) + match evs.last() {
            ScheduleEvent::Answered(r) => if r.creator == WebserviceKind::Airline {
                1nat
            } else {
                0nat
            },
            ScheduleEvent::Arrives(_) => 0nat,
        }
    }
}

/// Every airline answer in `evs` comes while the airline holds a request.
pub open spec fn events_allowed(st: ScheduleState, evs: Seq<ScheduleEvent>) -> bool
    decreases evs.len(),
{
    if evs.len() == 0 {
        true
    } else {
        events_allowed(st, evs.drop_last()) && match evs.last() {
            ScheduleEvent::Answered(r) => result_allowed(run_events(st, evs.drop_last()), r),
            ScheduleEvent::Arrives(_) => true,
        }
    }
}

/// Over any run of messages, the requests at the airline are exactly those
/// sent to it and not yet answered, and they never exceed its capacity.
pub proof fn lemma_in_flight_requests(st: ScheduleState, evs: Seq<ScheduleEvent>)
    requires
        schedule_inv(st),
        events_allowed(st, evs),
    ensures
        schedule_inv(run_events(st, evs)),
        run_events(st, evs).capacity == st.capacity,
        run_events(st, evs).amount_processing + airline_answers(evs) == st.amount_processing
            + airline_sends(st, evs),
        run_events(st, evs).amount_processing <= st.capacity,
    decreases evs.len(),
{
    if evs.len() > 0 {
        let prev = evs.drop_last();
        lemma_in_flight_requests(st, prev);
        match evs.last() {
            ScheduleEvent::Arrives(r) => {
                lemma_reservation_keeps_invariant(run_events(st, prev), r);
            },
            ScheduleEvent::Answered(r) => {
                lemma_result_keeps_invariant(run_events(st, prev), r);
            },
        }
    }
}

/// A rejected answer is never reported: the reservation, with the same id,
/// goes to the cooldown to be tried again.
pub proof fn lemma_rejection_is_retried(st: ScheduleState, msg: ReservationResult)
    requires
        !msg.accepted,
    ensures
        on_result(st, msg).1.to_result_service is None,
        on_result(st, msg).1.cooldown == Some(not_fresh(msg.reservation)),
        on_result(st, msg).1.cooldown.unwrap().id == msg.reservation.id,
        on_result(st, msg).0.results == st.results,
{
}

/// A package is reported only once both of its answers are in: the first
/// accepted answer is kept and nothing is reported, and the second accepted
/// answer for the same reservation is reported joined with the first, as
/// accepted, taking the longer of the two processing times.
pub proof fn lemma_package_reported_after_both_answers(
    st: ScheduleState,
    first: ReservationResult,
    second: ReservationResult,
)
    requires
        pending_result(st.results, first.reservation.id) is None,
        first.accepted,
        second.accepted,
        first.reservation.kind == ReservationKind::Package,
        second.reservation.kind == ReservationKind::Package,
        second.reservation.id == first.reservation.id,
        result_allowed(st, first),
        result_allowed(on_result(st, first).0, second),
    ensures
        on_result(st, first).1.to_result_service is None,
        on_result(st, first).0.results == st.results.insert(first.reservation.id, first),
        on_result(on_result(st, first).0, second).1.to_result_service == Some(
            merged(second, first),
        ),
        merged(second, first).accepted,
        merged(second, first).reservation == second.reservation,
        merged(second, first).creator == WebserviceKind::Merge,
        merged(second, first).time_to_process >= first.time_to_process,
        merged(second, first).time_to_process >= second.time_to_process,
{
    assert(on_result(st, first).0.results.contains_key(first.reservation.id));
}

/// Queued reservations are sent again in the order they arrived: two
/// reservations that find the airline full are sent again, oldest first, on
/// the next two results, each marked as no longer fresh.
pub proof fn lemma_queue_is_first_in_first_out(
    st: ScheduleState,
    m1: Reservation,
    m2: Reservation,
    r1: ReservationResult,
    r2: ReservationResult,
)
    requires
        st.amount_processing >= st.capacity,
        st.queued.len() == 0,
        result_allowed(on_reservation(on_reservation(st, m1).0, m2).0, r1),
        result_allowed(on_result(on_reservation(on_reservation(st, m1).0, m2).0, r1).0, r2),
    ensures
        on_reservation(st, m1).1.to_airline is None,
        on_reservation(on_reservation(st, m1).0, m2).1.to_airline is None,
        on_result(on_reservation(on_reservation(st, m1).0, m2).0, r1).1.resend == Some(
            not_fresh(m1),
        ),
        on_result(on_result(on_reservation(on_reservation(st, m1).0, m2).0, r1).0, r2).1.resend
            == Some(not_fresh(m2)),
{
    let s1 = on_reservation(st, m1).0;
    let s2 = on_reservation(s1, m2).0;
    assert(s1.queued =~= seq![m1]);
    assert(s2.queued =~= seq![m2, m1]);
    let s3 = on_result(s2, r1).0;
    assert(s3.queued =~= seq![m2]);
}

/// A scheduler reports that it has finished exactly when nothing is queued
/// and nothing is at the airline; receiving a reservation always leaves it
/// unfinished.
pub proof fn lemma_not_finished_after_reservation(st: ScheduleState, msg: Reservation)
    ensures
        !on_finished(on_reservation(st, msg).0),
{
}

/// The state after the reservations `ms` arrive, in order.
pub open spec fn after_arrivals(st: ScheduleState, ms: Seq<Reservation>) -> ScheduleState
    decreases ms.len(),
{
    if ms.len() == 0 {
        st
    } else {
        on_reservation(after_arrivals(st, ms.drop_last()), ms.last()).0
    }
}

/// The state after the answers `rs` arrive, in order.
pub open spec fn after_answers(st: ScheduleState, rs: Seq<ReservationResult>) -> ScheduleState
    decreases rs.len(),
{
    if rs.len() == 0 {
        st
    } else {
        on_result(after_answers(st, rs.drop_last()), rs.last()).0
    }
}

/// While the airline is full, arriving reservations go to no one and wait
/// behind everything that already waits: the queue then holds the new
/// arrivals, newest first, in front of the reservations that waited before.
proof fn lemma_arrivals_while_full(st: ScheduleState, ms: Seq<Reservation>)
    requires
        st.amount_processing >= st.capacity,
    ensures
        after_arrivals(st, ms).amount_processing == st.amount_processing,
        after_arrivals(st, ms).capacity == st.capacity,
        after_arrivals(st, ms).queued.len() == ms.len() + st.queued.len(),
        forall|i: int|
            0 <= i < ms.len() + st.queued.len() ==> #[trigger] after_arrivals(st, ms).queued[i] == if i
                < ms.len() {
                ms[ms.len() - 1 - i]
            } else {
                st.queued[i - ms.len()]
            },
        forall|j: int|
            0 <= j < ms.len() ==> (#[trigger] on_reservation(after_arrivals(st, ms.take(j)), ms[j])).1.to_airline
                is None,
    decreases ms.len(),
{
    if ms.len() > 0 {
        let prev = ms.drop_last();
        lemma_arrivals_while_full(st, prev);
        let before = after_arrivals(st, prev);
        let now = after_arrivals(st, ms);
        assert(now.queued == seq![ms.last()].add(before.queued));
        assert forall|i: int| 0 <= i < ms.len() + st.queued.len() implies #[trigger] now.queued[i]
            == if i < ms.len() {
            ms[ms.len() - 1 - i]
        } else {
            st.queued[i - ms.len()]
        } by {
            if i > 0 {
                assert(now.queued[i] == before.queued[i - 1]);
            }
        }
        assert forall|j: int| 0 <= j < ms.len() implies (#[trigger] on_reservation(
            after_arrivals(st, ms.take(j)),
            ms[j],
        )).1.to_airline is None by {
            if j < prev.len() {
                assert(ms.take(j) =~= prev.take(j));
                assert(ms[j] == prev[j]);
            } else {
                assert(ms.take(j) =~= prev);
            }
        }
    }
}

/// Each answer takes the oldest waiting reservation out of the queue, whatever
/// the answer says.
proof fn lemma_answers_take_oldest(st: ScheduleState, rs: Seq<ReservationResult>, j: int)
    requires
        0 <= j <= rs.len(),
        j <= st.queued.len(),
    ensures
        after_answers(st, rs.take(j)).queued == st.queued.subrange(0, st.queued.len() - j),
    decreases j,
{
    if j > 0 {
        lemma_answers_take_oldest(st, rs, j - 1);
        assert(rs.take(j).drop_last() =~= rs.take(j - 1));
        let q = st.queued.subrange(0, st.queued.len() - (j - 1));
        assert(q.drop_last() =~= st.queued.subrange(0, st.queued.len() - j));
    } else {
        assert(rs.take(0) =~= Seq::<ReservationResult>::empty());
        assert(st.queued.subrange(0, st.queued.len() as int) =~= st.queued);
    }
}

/// Waiting reservations are sent again in the order they arrived, for any
/// number of them: when the airline is full and `ms` arrive after the
/// reservations `st.queued` already waiting, the answers that follow (whatever
/// they are) send again first the reservations that waited before, oldest
/// first, and then those of `ms`, in the order of `ms`, each marked as no
/// longer fresh; none of `ms` goes to the airline on arrival.
pub proof fn lemma_queue_served_in_arrival_order(
    st: ScheduleState,
    ms: Seq<Reservation>,
    rs: Seq<ReservationResult>,
)
    requires
        st.amount_processing >= st.capacity,
        rs.len() == st.queued.len() + ms.len(),
    ensures
        forall|j: int|
            0 <= j < ms.len() ==> (#[trigger] on_reservation(after_arrivals(st, ms.take(j)), ms[j])).1.to_airline
                is None,
        forall|j: int|
            0 <= j < st.queued.len() ==> (#[trigger] on_result(
                after_answers(after_arrivals(st, ms), rs.take(j)),
                rs[j],
            )).1.resend == Some(not_fresh(st.queued[st.queued.len() - 1 - j])),
        forall|j: int|
            st.queued.len() <= j < rs.len() ==> (#[trigger] on_result(
                after_answers(after_arrivals(st, ms), rs.take(j)),
                rs[j],
            )).1.resend == Some(not_fresh(ms[j - st.queued.len()])),
{
    lemma_arrivals_while_full(st, ms);
    let full = after_arrivals(st, ms);
    let n = rs.len() as int;
    let k = ms.len() as int;
    let n0 = st.queued.len() as int;
    assert forall|j: int| 0 <= j < n implies (#[trigger] on_result(
        after_answers(full, rs.take(j)),
        rs[j],
    )).1.resend == Some(not_fresh(full.queued[n - 1 - j])) by {
        lemma_answers_take_oldest(full, rs, j);
        let q = full.queued.subrange(0, n - j);
        assert(q.last() == full.queued[n - 1 - j]);
    }
    assert forall|j: int| 0 <= j < n0 implies (#[trigger] on_result(
        after_answers(full, rs.take(j)),
        rs[j],
    )).1.resend == Some(not_fresh(st.queued[n0 - 1 - j])) by {
        assert(full.queued[n - 1 - j] == st.queued[n - 1 - j - k]);
    }
    assert forall|j: int| n0 <= j < n implies (#[trigger] on_result(
        after_answers(full, rs.take(j)),
        rs[j],
    )).1.resend == Some(not_fresh(ms[j - n0])) by {
        assert(full.queued[n - 1 - j] == ms[k - 1 - (n - 1 - j)]);
    }
}

} // verus!
