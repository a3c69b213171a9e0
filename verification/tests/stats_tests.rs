use alglobo::reservation::Reservation;
use alglobo::reservation_kind::ReservationKind;
use alglobo::reservation_result::ReservationResult;
use alglobo::resultservice::{ResultService, STATS_WINDOW};
use alglobo::stats_service::{get_airlines_ranking, route_key_string, StatsService};
use alglobo::webservice::Webservice;
use alglobo::webservice_kind::WebserviceKind;

fn result(id: usize, origin: &str, destination: &str, accepted: bool, nanos: u64) -> ReservationResult {
    ReservationResult {
        reservation: Reservation {
            id,
            origin: origin.to_string(),
            destination: destination.to_string(),
            airline: "american".to_string(),
            kind: ReservationKind::Flight,
            fresh: true,
        },
        accepted,
        time_to_process: nanos,
        creator: WebserviceKind::Airline,
    }
}

#[test]
fn route_key_joins_origin_and_destination() {
    assert_eq!(route_key_string(&result(0, "aa", "bb", true, 0).reservation), "aa->bb");
}

#[test]
fn empty_window_gives_zero_stats() {
    let s = StatsService::new(4);
    let stats = s.calculate_stats();
    assert_eq!(stats.sample_size, 0);
    assert_eq!(stats.history_len, 0);
    assert_eq!(stats.total_latency, 0);
    assert_eq!(stats.highest_latency, 0);
    assert_eq!(stats.lowest_latency, 0);
    assert!(stats.top_routes.is_empty());
}

#[test]
fn only_rejections_give_zero_stats() {
    let mut s = StatsService::new(4);
    s.process_result_stats(result(0, "aa", "bb", false, 10));
    s.process_result_stats(result(1, "aa", "bb", false, 20));
    let stats = s.calculate_stats();
    assert_eq!(stats.sample_size, 0);
    assert_eq!(stats.history_len, 2);
    assert_eq!(stats.total_latency, 0);
    assert_eq!(stats.highest_latency, 0);
    assert_eq!(stats.lowest_latency, 0);
    assert!(stats.top_routes.is_empty());
}

#[test]
fn stats_over_the_window() {
    let mut s = StatsService::new(10);
    s.process_result_stats(result(0, "aa", "bb", true, 30));
    s.process_result_stats(result(1, "cc", "dd", false, 5));
    s.process_result_stats(result(2, "aa", "bb", true, 70));
    s.process_result_stats(result(3, "cc", "dd", true, 10));
    let stats = s.calculate_stats();
    assert_eq!(stats.sample_size, 3);
    assert_eq!(stats.history_len, 4);
    assert_eq!(stats.total_latency, 115);
    assert_eq!(stats.highest_latency, 70);
    assert_eq!(stats.lowest_latency, 5);
    assert_eq!(stats.top_routes, vec![("aa->bb".to_string(), 2), ("cc->dd".to_string(), 1)]);
}

#[test]
fn window_drops_the_oldest() {
    let mut s = StatsService::new(2);
    s.process_result_stats(result(0, "aa", "bb", true, 100));
    s.process_result_stats(result(1, "cc", "dd", true, 1));
    s.process_result_stats(result(2, "cc", "dd", true, 2));
    assert_eq!(s.len(), 2);
    let stats = s.calculate_stats();
    assert_eq!(stats.sample_size, 2);
    assert_eq!(stats.highest_latency, 2);
    assert_eq!(stats.lowest_latency, 1);
    assert_eq!(stats.top_routes, vec![("cc->dd".to_string(), 2)]);
}

#[test]
fn zero_window_keeps_the_latest_result() {
    let mut s = StatsService::new(0);
    s.process_result_stats(result(0, "aa", "bb", true, 4));
    s.process_result_stats(result(1, "cc", "dd", false, 9));
    assert_eq!(s.len(), 1);
    let stats = s.calculate_stats();
    assert_eq!(stats.sample_size, 0);
    assert_eq!(stats.history_len, 1);
}

#[test]
fn ranking_is_by_count_and_stable() {
    let ranking = get_airlines_ranking(vec![
        ("a".to_string(), 1),
        ("b".to_string(), 5),
        ("c".to_string(), 3),
        ("d".to_string(), 5),
        ("e".to_string(), 1),
    ]);
    assert_eq!(
        ranking,
        vec![
            ("b".to_string(), 5),
            ("d".to_string(), 5),
            ("c".to_string(), 3),
            ("a".to_string(), 1),
            ("e".to_string(), 1),
        ]
    );
    assert!(get_airlines_ranking(vec![]).is_empty());
}

#[test]
fn result_service_records_and_reports() {
    let mut r = ResultService::new();
    assert!(r.handle(result(0, "aa", "bb", true, 3)));
    assert!(!r.handle(result(1, "aa", "bb", false, 3)));
    for i in 0..12 {
        let origin = format!("o{}", i);
        for _ in 0..=i {
            assert!(r.handle(result(2, &origin, "x", true, 1)));
        }
    }
    let stats = r.stats_summary();
    assert_eq!(stats.sample_size, 1 + (1..=12).sum::<usize>());
    assert_eq!(stats.history_len, 2 + (1..=12).sum::<usize>());
    let entries = r.ranked_routes();
    assert_eq!(entries.len(), 10);
    assert_eq!(entries[0].to_string(), "0. o11->x with 12 requests");
    assert_eq!(entries[9].to_string(), "9. o2->x with 3 requests");
    assert_eq!(STATS_WINDOW, 1000);
}

#[test]
fn unit_tests_should_execute_stats_service() {
    let mut s = StatsService::new(1);
    let w = Webservice::new(1, 1);
    let f = result(0, "a", "b", true, 0).reservation;
    let decision = w.decide();
    s.process_result_stats(w.process(&f, decision, 0, WebserviceKind::Airline));
    assert_eq!(s.len(), 1);
}

#[test]
fn unit_tests_should_execute_result_service() {
    let w = Webservice::new(1, 1);
    let mut r = ResultService::new();
    let f = result(0, "a", "b", true, 0).reservation;
    let decision = w.decide();
    let finished = r.handle(w.process(&f, decision, 0, WebserviceKind::Airline));
    assert_eq!(finished, decision.is_accepted());
    assert_eq!(r.stats_summary().history_len, 1);
}

#[test]
fn latencies_newest_first() {
    let mut r = ResultService::new();
    r.handle(result(0, "a", "b", true, 5));
    r.handle(result(1, "a", "b", false, 7));
    assert_eq!(r.latencies(), vec![7, 5]);
}
