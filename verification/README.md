# alglobo

A reservation system for AlGlobo.com. Reservations (`origin,destination,airline,kind`)
are read from `reservations.txt` and airlines (`name,capacity,acceptance_rate[,retry_wait]`,
where the acceptance rate is the percentage of requests accepted and the retry wait, in
milliseconds, defaults to none)
from `valid_airlines.txt`. Each airline gets a scheduler, a simulated web service and a
cooldown; package reservations also ask a hotel. Every step is logged, and the final
statistics are written to `stats_results.txt`.

## Layout

- `src/` is the verified library (Verus). It holds the logic of every service as plain
  state and step functions with contracts:
  - `text`: splitting lines on commas, decimal rendering and parsing;
  - `reservation`, `reservation_result`, `reservation_kind`, `webservice_kind`,
    `decision`, `ranked_route_entry`, `messages`: the data and how it is displayed;
  - `schedule_service`: the scheduler of an airline as a state machine, with its laws
    (capacity, packages reported after both answers, rejections retried, queue order);
  - `stats_service`, `resultservice`: the moving window of results and its statistics;
  - `webservice`, `webservice_actor`, `rate_limited_webservice`, `cooldown_service`:
    the simulated services;
  - `program`, `logger`: configuration, routing and log entries.
- `app/` is the executable: actix actors that hold the library's state, and the file
  reads, sleeps, threads and message sends.
- `tests/` exercises the library, including a synchronous run of the whole flow.
