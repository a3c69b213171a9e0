use alglobo::decision::Decision;
use alglobo::rate_limited_webservice::{Flight, Webservice as RateLimitedWebservice};
use alglobo::reservation::Reservation;
use alglobo::reservation_kind::ReservationKind;
use alglobo::webservice::{random_wait_millis, wait_for, Webservice};
use alglobo::webservice_actor::Webservice as ActorWebservice;
use alglobo::webservice_kind::WebserviceKind;

#[test]
fn unit_tests_should_execute() {
    let w = Webservice::new(1, 1);
    let f = Reservation {
        id: 0,
        origin: "a".to_string(),
        destination: "b".to_string(),
        airline: "c".to_string(),
        kind: ReservationKind::Flight,
        fresh: true,
    };
    let decision = w.decide();
    assert_eq!(w.process(&f, decision, 0, WebserviceKind::Airline).reservation.airline, f.airline);
}

#[test]
fn success_chance_is_capped_at_one_hundred() {
    assert_eq!(Webservice::new(1, 250).get_success_rate(), 100);
    assert_eq!(Webservice::new(1, 40).get_success_rate(), 40);
    assert_eq!(ActorWebservice::new(500).get_success_rate(), 100);
    assert_eq!(ActorWebservice::new(7).get_success_rate(), 7);
}

#[test]
fn decision_by_draw() {
    let w = Webservice::new(2, 30);
    assert_eq!(w.decide_with_roll(0), Decision::Accepted);
    assert_eq!(w.decide_with_roll(29), Decision::Accepted);
    assert_eq!(w.decide_with_roll(30), Decision::Rejected);
    assert_eq!(w.decide_with_roll(99), Decision::Rejected);
    let accepted = (0..100).filter(|n| w.decide_with_roll(*n) == Decision::Accepted).count();
    assert_eq!(accepted, 30);
    let never = Webservice::new(2, 0);
    assert_eq!(never.decide_with_roll(0), Decision::Rejected);
    assert_eq!(never.decide_with_roll(1), Decision::Rejected);
    let always = Webservice::new(2, 100);
    assert_eq!(always.decide_with_roll(99), Decision::Accepted);
    let almost = Webservice::new(2, 99);
    assert_eq!(almost.decide_with_roll(99), Decision::Rejected);
}

#[test]
fn full_rate_always_accepts() {
    let w = Webservice::new(3, 100);
    for _ in 0..200 {
        assert_eq!(w.decide(), Decision::Accepted);
    }
}

#[test]
fn zero_rate_never_accepts() {
    let w = Webservice::new(3, 0);
    for _ in 0..2000 {
        assert_eq!(w.decide(), Decision::Rejected);
    }
}

#[test]
fn low_rate_mostly_rejects() {
    let w = Webservice::new(3, 5);
    let accepted = (0..2000).filter(|_| w.decide() == Decision::Accepted).count();
    assert!(accepted > 0 && accepted < 400);
}

#[test]
fn process_builds_the_answer() {
    let w = Webservice::new(5, 50);
    let f = Reservation {
        id: 11,
        origin: "x".to_string(),
        destination: "y".to_string(),
        airline: "z".to_string(),
        kind: ReservationKind::Package,
        fresh: true,
    };
    let r = w.process(&f, Decision::Rejected, 77, WebserviceKind::Hotel);
    assert_eq!(r.reservation.id, 11);
    assert!(!r.accepted);
    assert_eq!(r.time_to_process, 77);
    assert_eq!(r.creator, WebserviceKind::Hotel);
    assert_eq!(w.to_string(), "WEBSERVICE <5>");
}

#[test]
fn waits_are_below_a_second() {
    assert_eq!(wait_for(0), 0);
    assert_eq!(wait_for(1234), 234);
    assert_eq!(wait_for(-1), (-1i32 as u64) % 1000);
    assert_eq!(wait_for(i32::MIN), (i32::MIN as u64) % 1000);
    for _ in 0..100 {
        assert!(random_wait_millis() < 1000);
    }
}

#[test]
fn actor_webservice_decisions() {
    let w = ActorWebservice::new(10);
    assert!(w.decide_with(0));
    assert!(w.decide_with(9999));
    assert!(!w.decide_with(10000));
    assert!(w.decide_with(109999));
    assert!(!w.decide_with(110000));
    assert!(!w.decide_with(99999));
    assert!(!w.decide_with(-5));
    assert!(w.decide_with(-99999));
    assert!(!w.decide_with(i32::MIN));
    let accepted = (-100000..100000).filter(|i| w.decide_with(*i)).count();
    assert_eq!(accepted, 20000);
    let never = ActorWebservice::new(0);
    assert!(!never.decide_with(0));
    assert!(!never.decide_with(-3));
    for _ in 0..50 {
        assert!(!never.decide());
    }
    let always = ActorWebservice::new(100);
    assert!(always.decide_with(i32::MIN));
    assert!(always.decide_with(-1));
    assert!(always.decide_with(99999));
}

fn flight(n: &str) -> Flight {
    Flight { origin: n.to_string(), destination: "d".to_string(), airline: "a".to_string() }
}

#[test]
fn rate_limited_webservice_queues_up_to_its_limit() {
    let mut w = RateLimitedWebservice::new(2);
    assert!(w.has_room());
    assert!(w.process(flight("1")).is_ok());
    assert!(w.process(flight("2")).is_ok());
    assert!(!w.has_room());
    let refused = w.process(flight("3")).unwrap_err();
    assert_eq!(refused.origin, "3");
    assert_eq!(w.pending(), 2);
    let first = w.take_request().unwrap();
    assert_eq!(first.origin, "1");
    let answer = w.consume(first);
    assert!(answer.accepted);
    assert_eq!(answer.flight.origin, "1");
    assert_eq!(w.take_request().unwrap().origin, "2");
    assert!(w.take_request().is_none());
    let mut none = RateLimitedWebservice::new(0);
    assert!(none.process(flight("x")).is_err());
}
