pub mod cooldown_service;
pub mod decision;
pub mod flight;
pub mod logger;
pub mod messages;
pub mod program;
pub mod ranked_route_entry;
pub mod rate_limited_webservice;
pub mod reservation;
pub mod reservation_kind;
pub mod reservation_result;
pub mod resultservice;
pub mod schedule_service;
pub mod stats_service;
pub mod text;
pub mod webservice;
pub mod webservice_actor;
pub mod webservice_kind;
