//! Runs the whole reservation flow synchronously: the program routes each
//! reservation to its airline's scheduler, and the messages between the
//! schedulers, the web services, the cooldowns and the result service are
//! delivered one at a time in the order they were sent. Web service draws
//! come from a fixed list instead of a random generator.
use alglobo::program::{hotel_webservice, parse_airline_line, Program};
use alglobo::reservation::Reservation;
use alglobo::reservation_result::ReservationResult;
use alglobo::resultservice::ResultService;
use alglobo::schedule_service::ScheduleService;
use alglobo::stats_service::StatsSummary;
use alglobo::webservice::Webservice;
use alglobo::webservice_kind::WebserviceKind;
use std::collections::{HashMap, VecDeque};

enum Event {
    ToScheduler(usize, Reservation),
    ToAirline(usize, Reservation),
    ToHotel(usize, Reservation),
    ToScheduleResult(usize, ReservationResult),
    ToResultService(usize, ReservationResult),
}

struct System {
    program: Program,
    schedulers: HashMap<usize, ScheduleService>,
    airlines: HashMap<usize, Webservice>,
    hotel: Webservice,
    results: ResultService,
    events: VecDeque<Event>,
    rolls: Vec<u32>,
    next_roll: usize,
    finished: usize,
    max_in_flight: usize,
}

impl System {
    fn new(lines: &[&str], rolls: Vec<u32>) -> System {
        let mut program = Program::new("stats_results.txt".to_string());
        let mut schedulers = HashMap::new();
        let mut airlines = HashMap::new();
        for line in lines {
            let config = parse_airline_line(line).expect("valid airline line");
            let (w, s) = program.load_service(&config);
            airlines.insert(s.id, w);
            schedulers.insert(s.id, s);
        }
        System {
            program,
            schedulers,
            airlines,
            hotel: hotel_webservice(),
            results: ResultService::new(),
            events: VecDeque::new(),
            rolls,
            next_roll: 0,
            finished: 0,
            max_in_flight: 0,
        }
    }

    fn roll(&mut self) -> u32 {
        let r = self.rolls[self.next_roll % self.rolls.len()];
        self.next_roll += 1;
        r
    }

    fn submit(&mut self, line: &str) {
        if let (reservation, Some(id)) = self.program.route_reservation(line.to_string()) {
            self.events.push_back(Event::ToScheduler(id, reservation));
        }
    }

    fn run(&mut self, max_steps: usize) -> StatsSummary {
        let mut steps = 0;
        while let Some(event) = self.events.pop_front() {
            if steps == max_steps {
                break;
            }
            steps += 1;
            match event {
                Event::ToScheduler(id, r) => {
                    let s = self.schedulers.get_mut(&id).unwrap();
                    let out = s.handle_reservation(r);
                    self.max_in_flight = self.max_in_flight.max(s.amount_processing());
                    if let Some(r) = out.to_airline {
                        self.events.push_back(Event::ToAirline(id, r));
                    }
                    if let Some(r) = out.to_hotel {
                        self.events.push_back(Event::ToHotel(id, r));
                    }
                }
                Event::ToAirline(id, r) => {
                    let roll = self.roll();
                    let w = &self.airlines[&id];
                    let result = w.process(&r, w.decide_with_roll(roll), 1, WebserviceKind::Airline);
                    self.events.push_back(Event::ToScheduleResult(id, result));
                }
                Event::ToHotel(id, r) => {
                    let roll = self.roll();
                    let result =
                        self.hotel.process(&r, self.hotel.decide_with_roll(roll), 2, WebserviceKind::Hotel);
                    self.events.push_back(Event::ToScheduleResult(id, result));
                }
                Event::ToScheduleResult(id, result) => {
                    let s = self.schedulers.get_mut(&id).unwrap();
                    let actions = s.handle_result(result);
                    if let Some(r) = actions.cooldown {
                        let wait = s.cooldown_service().wait_millis(0);
                        assert_eq!(wait, 0);
                        self.events.push_back(Event::ToScheduler(id, r));
                    }
                    if let Some(r) = actions.to_result_service {
                        self.events.push_back(Event::ToResultService(id, r));
                    }
                    if let Some(r) = actions.resend {
                        self.events.push_back(Event::ToScheduler(id, r));
                    }
                }
                Event::ToResultService(id, result) => {
                    if self.results.handle(result) && self.schedulers[&id].handle_finished() {
                        self.finished += 1;
                    }
                }
            }
        }
        self.results.stats_summary()
    }
}

#[test]
fn test_run_program_with_3mixed_reqs_2webservices_100success_rate() {
    let mut system = System::new(&["american,10,100", "italian,10,100"], (0..100).collect());
    for line in ["aa,bb,american,package", "aa,bb,italian,flight", "aa,bb,american,flight"] {
        system.submit(line);
    }
    assert_eq!(system.run(10_000).sample_size, 3);
}

#[test]
fn test_run_program_test_webservice_always_fails() {
    let mut system = System::new(&["american,4,0", "italian,1,0"], (0..100).collect());
    for line in ["aa,bb,american,package"] {
        system.submit(line);
    }
    assert_eq!(system.run(2_000).sample_size, 0);
}

#[test]
fn test_run_program_for_bottleneck() {
    let mut system = System::new(&["american,1,1"], (0..100).collect());
    for _ in 0..6 {
        system.submit("aa,bb,american,package");
    }
    assert_ne!(system.run(300).sample_size, 6);
    assert_eq!(system.max_in_flight, 1);
}

#[test]
fn test_run_program_incorrect_airlines() {
    let mut system = System::new(&["american,1,100"], (0..100).collect());
    for line in ["aa,bb,italian,package"] {
        system.submit(line);
    }
    assert_ne!(system.run(1_000).sample_size, 1);
}

#[test]
fn retried_reservations_are_eventually_accepted() {
    let mut system = System::new(&["american,2,50"], vec![90, 10, 99, 20, 0]);
    for line in ["aa,bb,american,flight", "cc,dd,american,flight", "ee,ff,american,package"] {
        system.submit(line);
    }
    let stats = system.run(10_000);
    assert_eq!(stats.sample_size, 3);
    assert!(system.finished >= 1);
    let american = system.schedulers.values().next().unwrap();
    assert_eq!(american.amount_processing(), 0);
    assert_eq!(american.queued_len(), 0);
    assert!(american.handle_finished());
}

#[test]
fn capacity_limits_requests_at_the_airline() {
    let mut system = System::new(&["american,2,100"], (0..100).collect());
    for _ in 0..7 {
        system.submit("aa,bb,american,flight");
    }
    let stats = system.run(10_000);
    assert_eq!(system.max_in_flight, 2);
    assert_eq!(stats.sample_size, 7);
}
