//! The set-up and routing of the program: reading the airline
//! configuration, building each airline's services, and sending each
//! reservation to the scheduler of its airline.
use crate::logger::Logger;
use crate::reservation::{is_reservation_line, kind_of_field, Reservation};
use crate::reservation_result::ReservationResult;
use crate::schedule_service::{schedule_inv, ScheduleService};
use crate::text::{parse_unsigned, parse_unsigned_decimal, split_fields, split_on_commas, string_views};
use crate::webservice::{capped_rate, Webservice};
use vstd::prelude::*;

verus! {

/// One line of the airline configuration: the airline's name, how many
/// requests its web service holds at once, the percentage of requests it
/// accepts, and how long (in milliseconds) a rejected request waits before it
/// is tried again.
#[derive(Debug)]
pub struct AirlineConfig {
    pub name: String,
    pub capacity: u32,
    pub acceptance_rate: u32,
    pub retry_wait: u64,
}

/// The configuration that the line `line` describes, as
/// `(name, capacity, acceptance rate, retry wait)`. A line has the fields
/// `name,capacity,acceptance_rate` and optionally `,retry_wait` (no wait
/// when it is left out); fields after the fourth are ignored. `None` when it
/// has fewer than three fields or a number does not parse.
pub open spec fn airline_line(line: Seq<char>) -> Option<(Seq<char>, nat, nat, nat)> {
    let f = split_on_commas(line);
    if f.len() < 3 {
        None
    } else {
        let wait = if f.len() == 3 {
            Some(0nat)
        } else {
            parse_unsigned(f[3], u64::MAX as nat)
        };
        match (parse_unsigned(f[1], u32::MAX as nat), parse_unsigned(f[2], u32::MAX as nat), wait) {
            (Some(c), Some(a), Some(w)) => Some((f[0], c, a, w)),
            _ => None,
        }
    }
}

/// Reads one line `name,capacity,acceptance_rate[,retry_wait]` of the
/// airline configuration.
pub fn parse_airline_line(line: &str) -> (r: Option<AirlineConfig>)
    ensures
        match r {
            Some(c) => airline_line(line@) == Some(
                (c.name@, c.capacity as nat, c.acceptance_rate as nat, c.retry_wait as nat),
            ),
            None => airline_line(line@) is None,
        },
{
    let fields = split_fields(line);
    proof {
        assert(string_views(fields@).len() == fields@.len());
    }
    if fields.len() < 3 {
        return None;
    }
    proof {
        assert(fields@[0]@ == string_views(fields@)[0]);
        assert(fields@[1]@ == string_views(fields@)[1]);
        assert(fields@[2]@ == string_views(fields@)[2]);
        if fields@.len() > 3 {
            assert(fields@[3]@ == string_views(fields@)[3]);
        }
    }
    let capacity = parse_unsigned_decimal(fields[1].as_str(), u32::MAX as u64);
    let acceptance_rate = parse_unsigned_decimal(fields[2].as_str(), u32::MAX as u64);
    let retry_wait = if fields.len() == 3 {
        Some(0)
    } else {
        parse_unsigned_decimal(fields[3].as_str(), u64::MAX)
    };
    match (capacity, acceptance_rate, retry_wait) {
        (Some(c), Some(a), Some(w)) => Some(
            AirlineConfig {
                name: fields[0].clone(),
                capacity: c as u32,
                acceptance_rate: a as u32,
                retry_wait: w,
            },
        ),
        _ => None,
    }
}

/// The service id registered for `name` in `airlines`, if any.
pub open spec fn registered(airlines: Seq<(String, usize)>, name: Seq<char>) -> Option<usize>
    decreases airlines.len(),
{
    if airlines.len() == 0 {
        None
    } else if airlines[0].0@ == name {
        Some(airlines[0].1)
    } else {
        registered(airlines.drop_first(), name)
    }
}

proof fn lemma_registered_none(airlines: Seq<(String, usize)>, name: Seq<char>)
    ensures
        registered(airlines, name) is None <==> forall|i: int|
            0 <= i < airlines.len() ==> #[trigger] airlines[i].0@ != name,
    decreases airlines.len(),
{
    if airlines.len() > 0 {
        lemma_registered_none(airlines.drop_first(), name);
        if registered(airlines, name) is None {
            assert forall|i: int| 0 <= i < airlines.len() implies #[trigger] airlines[i].0@ != name by {
                if i > 0 {
                    assert(airlines[i] == airlines.drop_first()[i - 1]);
                }
            }
        } else if airlines[0].0@ != name {
            let i = choose|i: int|
                0 <= i < airlines.drop_first().len() && #[trigger] airlines.drop_first()[i].0@ == name;
            assert(airlines[i + 1] == airlines.drop_first()[i]);
        }
    }
}

proof fn lemma_registered_push(airlines: Seq<(String, usize)>, e: (String, usize), name: Seq<char>)
    requires
        registered(airlines, e.0@) is None,
    ensures
        registered(airlines.push(e), name) == if name == e.0@ {
            Some(e.1)
        } else {
            registered(airlines, name)
        },
    decreases airlines.len(),
{
    if airlines.len() > 0 {
        assert(airlines.push(e)[0] == airlines[0]);
        assert(airlines[0].0@ != e.0@);
        assert(airlines.push(e).drop_first() =~= airlines.drop_first().push(e));
        lemma_registered_push(airlines.drop_first(), e, name);
        assert(registered(airlines.push(e), name) == if airlines[0].0@ == name {
            Some(airlines[0].1)
        } else {
            registered(airlines.drop_first().push(e), name)
        });
    } else {
        assert(airlines.push(e)[0] == e);
        assert(airlines.push(e).drop_first().len() == 0);
        assert(registered(airlines.push(e).drop_first(), name) is None);
    }
}

proof fn lemma_registered_update(
    airlines: Seq<(String, usize)>,
    j: int,
    e: (String, usize),
    name: Seq<char>,
)
    requires
        0 <= j < airlines.len(),
        airlines[j].0@ == e.0@,
        forall|i: int| 0 <= i < j ==> #[trigger] airlines[i].0@ != e.0@,
    ensures
        registered(airlines.update(j, e), name) == if name == e.0@ {
            Some(e.1)
        } else {
            registered(airlines, name)
        },
    decreases airlines.len(),
{
    if j > 0 {
        assert(airlines.update(j, e).drop_first() =~= airlines.drop_first().update(j - 1, e));
        assert forall|i: int| 0 <= i < j - 1 implies #[trigger] airlines.drop_first()[i].0@ != e.0@ by {
            assert(airlines.drop_first()[i] == airlines[i + 1]);
        }
        lemma_registered_update(airlines.drop_first(), j - 1, e, name);
    } else {
        assert(airlines.update(j, e).drop_first() =~= airlines.drop_first());
    }
}

/// The index of the last configuration in `configs` for the airline `name`.
pub open spec fn last_config_named(configs: Seq<AirlineConfig>, name: Seq<char>) -> Option<int>
    decreases configs.len(),
{
    if configs.len() == 0 {
        None
    } else if configs.last().name@ == name {
        Some(configs.len() - 1)
    } else {
        last_config_named(configs.drop_last(), name)
    }
}

/// The hotel's web service: id 0, and it accepts every request.
pub fn hotel_webservice() -> (w: Webservice)
    ensures
        w.service_id() == 0,
        w.success_rate() == 100,
{
    Webservice::new(0, 100)
}

/// Routes reservations to the schedulers of their airlines.
pub struct Program {
    web_services: Vec<(String, usize)>,
    logger: Logger,
    next_service_id: usize,
    requests: usize,
}

impl Program {
    /// The registered airlines, each with the id of its services.
    pub closed spec fn airlines(&self) -> Seq<(String, usize)> {
        self.web_services@
    }

    /// The service id of the airline `name`, if it is registered.
    pub open spec fn lookup(&self, name: Seq<char>) -> Option<usize> {
        registered(self.airlines(), name)
    }

    /// The id that the next registered airline gets.
    pub closed spec fn next_id(&self) -> usize {
        self.next_service_id
    }

    /// How many reservations have been routed so far.
    pub closed spec fn routed(&self) -> usize {
        self.requests
    }

    /// The program's logger.
    pub closed spec fn log(&self) -> Logger {
        self.logger
    }

    /// A program with no airline yet that logs to `log_file_name`.
    pub fn new(log_file_name: String) -> (p: Program)
        ensures
            p.airlines().len() == 0,
            forall|name: Seq<char>| p.lookup(name) is None,
            p.next_id() == 1,
            p.routed() == 0,
            p.log().file_name() == log_file_name@,
    {
        Program {
            web_services: Vec::new(),
            logger: Logger::new(log_file_name),
            next_service_id: 1,
            requests: 0,
        }
    }

    /// The program's logger.
    pub fn logger(&self) -> (l: &Logger)
        ensures
            *l == self.log(),
    {
        &self.logger
    }

    /// The id that the next registered airline gets.
    pub fn next_service_id(&self) -> (id: usize)
        ensures
            id == self.next_id(),
    {
        self.next_service_id
    }

    /// How many reservations have been routed so far; the next one routed
    /// gets this number as its id.
    pub fn requests(&self) -> (n: usize)
        ensures
            n == self.routed(),
    {
        self.requests
    }

    fn find(&self, name: &String) -> (r: Option<usize>)
        ensures
            match r {
                Some(j) => j < self.airlines().len() && self.airlines()[j as int].0@ == name@
                    && forall|i: int| 0 <= i < j ==> #[trigger] self.airlines()[i].0@ != name@,
                None => forall|i: int|
                    0 <= i < self.airlines().len() ==> #[trigger] self.airlines()[i].0@ != name@,
            },
    {
        let mut j: usize = 0;
        while j < self.web_services.len()
            invariant
                j <= self.airlines().len(),
                self.airlines() == self.web_services@,
                forall|i: int| 0 <= i < j ==> #[trigger] self.airlines()[i].0@ != name@,
            decreases self.web_services@.len() - j,
        {
            if self.web_services[j].0 == *name {
                return Some(j);
            }
            j += 1;
        }
        None
    }

    /// The id of the services of the airline `name`, if it is registered.
    pub fn scheduler_for(&self, name: &String) -> (id: Option<usize>)
        ensures
            id == self.lookup(name@),
    {
        match self.find(name) {
            Some(j) => {
                proof {
                    lemma_registered_update(
                        self.airlines(),
                        j as int,
                        self.airlines()[j as int],
                        name@,
                    );
                    assert(self.airlines().update(j as int, self.airlines()[j as int])
                        =~= self.airlines());
                }
                Some(self.web_services[j].1)
            },
            None => {
                proof {
                    lemma_registered_none(self.airlines(), name@);
                }
                None
            },
        }
    }

    /// Registers the airline of `config` under the next service id and builds
    /// its web service and its scheduler. An airline registered again keeps
    /// only its newest services.
    pub fn load_service(&mut self, config: &AirlineConfig) -> (services: (Webservice, ScheduleService))
        requires
            old(self).next_id() < usize::MAX,
        ensures
            final(self).next_id() == old(self).next_id() + 1,
            final(self).routed() == old(self).routed(),
            final(self).log() == old(self).log(),
            forall|name: Seq<char>|
                #[trigger] final(self).lookup(name) == if name == config.name@ {
                    Some(old(self).next_id())
                } else {
                    old(self).lookup(name)
                },
            services.0.service_id() == old(self).next_id(),
            services.0.success_rate() == capped_rate(config.acceptance_rate),
            services.1.service_id() == old(self).next_id(),
            services.1@.capacity == config.capacity,
            services.1@.amount_processing == 0,
            services.1@.queued.len() == 0,
            services.1@.results == Map::<usize, ReservationResult>::empty(),
            services.1.cooldown().retry_wait() == config.retry_wait,
            schedule_inv(services.1@),
    {
        let id = self.next_service_id;
        let entry = (config.name.clone(), id);
        let ghost old_airlines = self.web_services@;
        match self.find(&config.name) {
            Some(j) => {
                self.web_services.set(j, entry);
                proof {
                    assert forall|name: Seq<char>|
                        #[trigger] registered(self.web_services@, name) == if name == config.name@ {
                            Some(id)
                        } else {
                            registered(old_airlines, name)
                        } by {
                        lemma_registered_update(old_airlines, j as int, entry, name);
                    }
                }
            },
            None => {
                proof {
                    lemma_registered_none(old_airlines, config.name@);
                }
                self.web_services.push(entry);
                proof {
                    assert forall|name: Seq<char>|
                        #[trigger] registered(self.web_services@, name) == if name == config.name@ {
                            Some(id)
                        } else {
                            registered(old_airlines, name)
                        } by {
                        lemma_registered_push(old_airlines, entry, name);
                    }
                }
            },
        }
        self.next_service_id = id + 1;
        let webservice = Webservice::new(id, config.acceptance_rate);
        let scheduler = ScheduleService::new((config.capacity as usize, config.retry_wait), id);
        (webservice, scheduler)
    }

    /// Numbers the airlines registered from now on from 1 again, as every
    /// load of the configuration does. Airlines registered earlier stay
    /// registered under their ids.
    pub fn restart_service_ids(&mut self)
        ensures
            final(self).next_id() == 1,
            final(self).airlines() == old(self).airlines(),
            final(self).routed() == old(self).routed(),
            final(self).log() == old(self).log(),
    {
        self.next_service_id = 1;
    }

    /// Registers the airlines of `configs` in order, the line at index `k`
    /// under the service id `k + 1` (every load numbers its lines from 1), and
    /// builds their services. An airline named more than once keeps the
    /// services of its last line; airlines not named keep their entries.
    pub fn load_services(&mut self, configs: &Vec<AirlineConfig>) -> (services: Vec<
        (Webservice, ScheduleService),
    >)
        requires
            configs@.len() + 1 < usize::MAX,
        ensures
            final(self).next_id() == configs@.len() + 1,
            final(self).routed() == old(self).routed(),
            final(self).log() == old(self).log(),
            services@.len() == configs@.len(),
            forall|k: int|
                0 <= k < configs@.len() ==> (#[trigger] services@[k]).0.service_id() == k + 1
                    && services@[k].1.service_id() == k + 1 && services@[k].1@.capacity == configs@[k].capacity
                    && services@[k].0.success_rate() == capped_rate(
                        configs@[k].acceptance_rate,
                    ) && services@[k].1.cooldown().retry_wait() == configs@[k].retry_wait
                    && schedule_inv(services@[k].1@) && services@[k].1@.amount_processing == 0
                    && services@[k].1@.queued.len() == 0 && services@[k].1@.results
                    == Map::<usize, ReservationResult>::empty(),
            forall|name: Seq<char>|
                #[trigger] final(self).lookup(name) == match last_config_named(configs@, name) {
                    Some(k) => Some((k + 1) as usize),
                    None => old(self).lookup(name),
                },
    {
        self.restart_service_ids();
        let mut services: Vec<(Webservice, ScheduleService)> = Vec::new();
        let mut i: usize = 0;
        let ghost start = self.next_service_id;
        let ghost before = *self;
        while i < configs.len()
            invariant
                i <= configs@.len(),
                start + configs@.len() < usize::MAX,
                start == before.next_id(),
                start == 1,
                before.airlines() == old(self).airlines(),
                self.next_id() == start + i,
                self.routed() == before.routed(),
                self.log() == before.log(),
                services@.len() == i,
                forall|k: int|
                    0 <= k < i ==> (#[trigger] services@[k]).0.service_id() == start + k
                        && services@[k].1.service_id() == start + k && services@[k].1@.capacity
                        == configs@[k].capacity && services@[k].0.success_rate() == capped_rate(
                        configs@[k].acceptance_rate,
                    ) && services@[k].1.cooldown().retry_wait() == configs@[k].retry_wait
                        && schedule_inv(services@[k].1@) && services@[k].1@.amount_processing == 0
                        && services@[k].1@.queued.len() == 0 && services@[k].1@.results
                        == Map::<usize, ReservationResult>::empty(),
                forall|name: Seq<char>|
                    #[trigger] self.lookup(name) == match last_config_named(
                        configs@.take(i as int),
                        name,
                    ) {
                        Some(k) => Some((start + k) as usize),
                        None => before.lookup(name),
                    },
            decreases configs@.len() - i,
        {
            let ghost mid = *self;
            let pair = self.load_service(&configs[i]);
            services.push(pair);
            proof {
                let taken = configs@.take(i + 1);
                assert(taken.drop_last() =~= configs@.take(i as int));
                assert(taken.last() == configs@[i as int]);
                assert forall|name: Seq<char>|
                    #[trigger] self.lookup(name) == match last_config_named(taken, name) {
                        Some(k) => Some((start + k) as usize),
                        None => before.lookup(name),
                    } by {
                    assert(mid.lookup(name) == match last_config_named(
                        configs@.take(i as int),
                        name,
                    ) {
                        Some(k) => Some((start + k) as usize),
                        None => before.lookup(name),
                    });
                }
            }
            i += 1;
        }
        proof {
            assert(configs@.take(i as int) =~= configs@);
        }
        services
    }

    /// Reads the reservation on `line` and finds the scheduler of its
    /// airline. The reservation gets the number of reservations routed so far
    /// as its id. A reservation for an airline that is not registered gets no
    /// scheduler, and does not count.
    pub fn route_reservation(&mut self, line: String) -> (r: (Reservation, Option<usize>))
        requires
            is_reservation_line(line@),
            old(self).routed() < usize::MAX,
        ensures
            final(self).airlines() == old(self).airlines(),
            final(self).next_id() == old(self).next_id(),
            final(self).log() == old(self).log(),
            r.0.id == old(self).routed(),
            r.0.origin@ == split_on_commas(line@)[0],
            r.0.destination@ == split_on_commas(line@)[1],
            r.0.airline@ == split_on_commas(line@)[2],
            r.0.kind == kind_of_field(split_on_commas(line@)[3]),
            r.0.fresh,
            r.1 == old(self).lookup(split_on_commas(line@)[2]),
            final(self).routed() == if r.1 is Some {
                old(self).routed() + 1
            } else {
                old(self).routed() as int
            },
    {
        let reservation = Reservation::from_line(line, self.requests);
        let scheduler = self.scheduler_for(&reservation.airline);
        if scheduler.is_some() {
            self.requests += 1;
        }
        (reservation, scheduler)
    }

    /// Whether every routed reservation is complete, once `completed` of them
    /// have been.
    pub fn all_completed(&self, completed: usize) -> (done: bool)
        ensures
            done == (completed >= self.routed()),
    {
        completed >= self.requests
    }

    /// The display text of the program.
    pub fn to_string(&self) -> (s: String)
        ensures
            s@ == "PROGRAM"@,
    {
        String::from_str("PROGRAM")
    }
}

} // verus!
