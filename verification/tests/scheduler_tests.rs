use alglobo::cooldown_service::CooldownService;
use alglobo::reservation::Reservation;
use alglobo::reservation_kind::ReservationKind;
use alglobo::reservation_result::ReservationResult;
use alglobo::schedule_service::{max_duration_between, ScheduleService};
use alglobo::webservice_kind::WebserviceKind;

fn reservation(id: usize, kind: ReservationKind) -> Reservation {
    Reservation {
        id,
        origin: "aa".to_string(),
        destination: "bb".to_string(),
        airline: "american".to_string(),
        kind,
        fresh: true,
    }
}

fn answer(r: &Reservation, accepted: bool, nanos: u64, creator: WebserviceKind) -> ReservationResult {
    ReservationResult { reservation: r.clone(), accepted, time_to_process: nanos, creator }
}

#[test]
fn max_duration() {
    assert_eq!(max_duration_between(3, 7), 7);
    assert_eq!(max_duration_between(7, 3), 7);
    assert_eq!(max_duration_between(4, 4), 4);
}

#[test]
fn cooldown_waits_what_is_left() {
    let c = CooldownService::new(100);
    assert_eq!(c.get_retry_wait(), 100);
    assert_eq!(c.wait_millis(0), 100);
    assert_eq!(c.wait_millis(30), 70);
    assert_eq!(c.wait_millis(100), 0);
    assert_eq!(c.wait_millis(5000), 0);
    assert_eq!(CooldownService::new(0).wait_millis(0), 0);
}

#[test]
fn new_scheduler_is_idle() {
    let s = ScheduleService::new((2, 50), 7);
    assert_eq!(s.id, 7);
    assert_eq!(s.amount_processing(), 0);
    assert_eq!(s.queued_len(), 0);
    assert_eq!(s.cooldown_service().get_retry_wait(), 50);
    assert!(s.handle_finished());
    assert_eq!(s.to_string(), "SCHEUDLER <7>(procesing <0>)");
}

#[test]
fn flight_goes_to_airline_and_is_reported() {
    let mut s = ScheduleService::new((1, 0), 1);
    let r = reservation(0, ReservationKind::Flight);
    let out = s.handle_reservation(r.clone());
    assert_eq!(out.to_airline.as_ref().map(|x| x.id), Some(0));
    assert!(out.to_hotel.is_none());
    assert_eq!(s.amount_processing(), 1);
    assert!(!s.handle_finished());
    let actions = s.handle_result(answer(&r, true, 10, WebserviceKind::Airline));
    assert!(actions.cooldown.is_none());
    assert!(actions.resend.is_none());
    let reported = actions.to_result_service.expect("flight result is reported");
    assert_eq!(reported.reservation.id, 0);
    assert!(reported.accepted);
    assert_eq!(reported.creator, WebserviceKind::Airline);
    assert_eq!(s.amount_processing(), 0);
    assert!(s.handle_finished());
}

#[test]
fn full_airline_queues_and_resends_oldest_first() {
    let mut s = ScheduleService::new((1, 0), 1);
    let r0 = reservation(0, ReservationKind::Flight);
    let r1 = reservation(1, ReservationKind::Flight);
    let r2 = reservation(2, ReservationKind::Flight);
    assert!(s.handle_reservation(r0.clone()).to_airline.is_some());
    assert!(s.handle_reservation(r1.clone()).to_airline.is_none());
    assert!(s.handle_reservation(r2.clone()).to_airline.is_none());
    assert_eq!(s.queued_len(), 2);
    assert_eq!(s.to_string(), "SCHEUDLER <1>(procesing <1>)");
    let a = s.handle_result(answer(&r0, true, 1, WebserviceKind::Airline));
    let resent = a.resend.expect("oldest queued reservation is sent again");
    assert_eq!(resent.id, 1);
    assert!(!resent.fresh);
    assert_eq!(s.queued_len(), 1);
    assert!(s.handle_reservation(resent).to_airline.is_some());
    let b = s.handle_result(answer(&r1, true, 1, WebserviceKind::Airline));
    assert_eq!(b.resend.map(|x| x.id), Some(2));
    assert_eq!(s.queued_len(), 0);
}

#[test]
fn rejection_goes_to_cooldown_as_a_retry() {
    let mut s = ScheduleService::new((2, 10), 1);
    let r = reservation(4, ReservationKind::Flight);
    s.handle_reservation(r.clone());
    let a = s.handle_result(answer(&r, false, 10, WebserviceKind::Airline));
    assert!(a.to_result_service.is_none());
    let retry = a.cooldown.expect("rejected reservation is retried");
    assert_eq!(retry.id, 4);
    assert!(!retry.fresh);
    assert_eq!(s.amount_processing(), 0);
    let out = s.handle_reservation(retry);
    assert!(out.to_airline.is_some());
    assert!(out.to_hotel.is_none());
}

#[test]
fn package_is_reported_once_both_answers_are_in() {
    let mut s = ScheduleService::new((2, 0), 1);
    let p = reservation(3, ReservationKind::Package);
    let out = s.handle_reservation(p.clone());
    assert!(out.to_airline.is_some());
    assert_eq!(out.to_hotel.as_ref().map(|x| x.id), Some(3));
    let first = s.handle_result(answer(&p, true, 40, WebserviceKind::Hotel));
    assert!(first.to_result_service.is_none());
    assert_eq!(s.amount_processing(), 1);
    let second = s.handle_result(answer(&p, true, 25, WebserviceKind::Airline));
    let joined = second.to_result_service.expect("package reported after both answers");
    assert_eq!(joined.reservation.id, 3);
    assert!(joined.accepted);
    assert_eq!(joined.time_to_process, 40);
    assert_eq!(joined.creator, WebserviceKind::Merge);
    assert_eq!(s.amount_processing(), 0);
}

#[test]
fn queued_package_does_not_ask_the_hotel_twice() {
    let mut s = ScheduleService::new((0, 0), 1);
    let p = reservation(8, ReservationKind::Package);
    let out = s.handle_reservation(p.clone());
    assert!(out.to_airline.is_none());
    assert!(out.to_hotel.is_some());
    let hotel_answer = s.handle_result(answer(&p, true, 5, WebserviceKind::Hotel));
    let resent = hotel_answer.resend.expect("queued package sent again");
    let again = s.handle_reservation(resent);
    assert!(again.to_hotel.is_none());
}
