use alglobo::logger::Logger;
use alglobo::program::{hotel_webservice, parse_airline_line, AirlineConfig, Program};
use alglobo::reservation_kind::ReservationKind;

#[test]
fn airline_line_parses() {
    let c = parse_airline_line("american,10,100,250").unwrap();
    assert_eq!(c.name, "american");
    assert_eq!(c.capacity, 10);
    assert_eq!(c.acceptance_rate, 100);
    assert_eq!(c.retry_wait, 250);
    let c = parse_airline_line("italian,+1,0,0,ignored").unwrap();
    assert_eq!(c.capacity, 1);
}

#[test]
fn three_field_airline_line_has_no_retry_wait() {
    let c = parse_airline_line("american,10,100").unwrap();
    assert_eq!(c.name, "american");
    assert_eq!(c.capacity, 10);
    assert_eq!(c.acceptance_rate, 100);
    assert_eq!(c.retry_wait, 0);
    let c = parse_airline_line("american,4,0").unwrap();
    assert_eq!(c.capacity, 4);
    assert_eq!(c.acceptance_rate, 0);
}

#[test]
fn airline_line_rejections() {
    assert!(parse_airline_line("american,10").is_none());
    assert!(parse_airline_line("american,x,100,1").is_none());
    assert!(parse_airline_line("american,10,-1,1").is_none());
    assert!(parse_airline_line("american,4294967296,1,1").is_none());
    assert!(parse_airline_line("american,1,1,").is_none());
    assert!(parse_airline_line("").is_none());
}

fn config(name: &str, capacity: u32, rate: u32, wait: u64) -> AirlineConfig {
    AirlineConfig { name: name.to_string(), capacity, acceptance_rate: rate, retry_wait: wait }
}

#[test]
fn services_get_increasing_ids() {
    let mut p = Program::new("log.txt".to_string());
    assert_eq!(p.logger().log_file_name(), "log.txt");
    assert_eq!(p.next_service_id(), 1);
    let (w1, s1) = p.load_service(&config("american", 4, 120, 30));
    assert_eq!(w1.get_success_rate(), 100);
    assert_eq!(w1.to_string(), "WEBSERVICE <1>");
    assert_eq!(s1.id, 1);
    assert_eq!(s1.cooldown_service().get_retry_wait(), 30);
    let (_, s2) = p.load_service(&config("italian", 1, 50, 0));
    assert_eq!(s2.id, 2);
    assert_eq!(p.scheduler_for(&"american".to_string()), Some(1));
    assert_eq!(p.scheduler_for(&"italian".to_string()), Some(2));
    assert_eq!(p.scheduler_for(&"french".to_string()), None);
    let (_, s3) = p.load_service(&config("american", 2, 10, 0));
    assert_eq!(s3.id, 3);
    assert_eq!(p.scheduler_for(&"american".to_string()), Some(3));
    assert_eq!(p.scheduler_for(&"italian".to_string()), Some(2));
    assert_eq!(p.to_string(), "PROGRAM");
}

#[test]
fn reservations_are_routed_by_airline() {
    let mut p = Program::new("log.txt".to_string());
    p.load_service(&config("american", 4, 100, 0));
    let (r, id) = p.route_reservation("aa,bb,american,package".to_string());
    assert_eq!(r.id, 0);
    assert_eq!(id, Some(1));
    assert_eq!(r.kind, ReservationKind::Package);
    let (r, id) = p.route_reservation("aa,bb,italian,flight".to_string());
    assert_eq!(id, None);
    assert_eq!(r.id, 1);
    assert_eq!(r.airline, "italian");
    assert_eq!(p.requests(), 1);
    let (r, id) = p.route_reservation("cc,dd,american,flight".to_string());
    assert_eq!(id, Some(1));
    assert_eq!(r.id, 1);
    assert_eq!(r.kind, ReservationKind::Flight);
    assert_eq!(p.requests(), 2);
}

#[test]
fn hotel_accepts_everything() {
    let h = hotel_webservice();
    assert_eq!(h.get_success_rate(), 100);
    assert_eq!(h.to_string(), "WEBSERVICE <0>");
}

#[test]
fn log_entries() {
    let l = Logger::new("stats_results.txt".to_string());
    assert_eq!(l.entry("PROGRAM", "parsed reservation", "<0>(a|b-c|Flight)"), "PROGRAM: parsed reservation <0>(a|b-c|Flight)");
    assert_eq!(l.entry("", "--- STATS ---", ""), ": --- STATS --- ");
    assert_eq!(l.entry_extra("WEBSERVICE <1>", "received reservation", "<0>", "Accepted"), "WEBSERVICE <1>: received reservation <0> --- Accepted");
}

#[test]
fn load_services_registers_every_line_in_order() {
    let mut p = Program::new("log.txt".to_string());
    let configs = vec![
        parse_airline_line("american,10,100,5").unwrap(),
        parse_airline_line("italian,1,50,0").unwrap(),
        parse_airline_line("american,3,20,7").unwrap(),
    ];
    let services = p.load_services(&configs);
    assert_eq!(services.len(), 3);
    assert_eq!(services[0].1.id, 1);
    assert_eq!(services[1].0.to_string(), "WEBSERVICE <2>");
    assert_eq!(services[2].1.cooldown_service().get_retry_wait(), 7);
    assert_eq!(services[2].0.get_success_rate(), 20);
    assert_eq!(p.next_service_id(), 4);
    assert_eq!(p.scheduler_for(&"american".to_string()), Some(3));
    assert_eq!(p.scheduler_for(&"italian".to_string()), Some(2));
}

#[test]
fn every_load_numbers_its_lines_from_one() {
    let mut p = Program::new("log.txt".to_string());
    let first = p.load_services(&vec![
        parse_airline_line("american,10,100,5").unwrap(),
        parse_airline_line("italian,1,50,0").unwrap(),
    ]);
    assert_eq!(first[1].1.id, 2);
    let second = p.load_services(&vec![parse_airline_line("french,2,30,1").unwrap()]);
    assert_eq!(second[0].0.to_string(), "WEBSERVICE <1>");
    assert_eq!(second[0].1.id, 1);
    assert_eq!(p.scheduler_for(&"french".to_string()), Some(1));
    assert_eq!(p.scheduler_for(&"italian".to_string()), Some(2));
    assert_eq!(p.next_service_id(), 2);
    p.restart_service_ids();
    assert_eq!(p.next_service_id(), 1);
}

#[test]
fn completion_is_counted_against_routed_reservations() {
    let mut p = Program::new("log.txt".to_string());
    assert!(p.all_completed(0));
    p.load_service(&parse_airline_line("american,1,100").unwrap());
    p.route_reservation("aa,bb,american,flight".to_string());
    p.route_reservation("aa,bb,french,flight".to_string());
    assert!(!p.all_completed(0));
    assert!(p.all_completed(1));
}
