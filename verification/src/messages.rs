//! The messages exchanged by the services, and the types they carry.
pub use crate::ranked_route_entry::RankedRouteEntry as RankedRoutEntry;
pub use crate::reservation::Reservation;
pub use crate::reservation_kind::ReservationKind;
pub use crate::reservation_result::ReservationResult;
use vstd::prelude::*;

verus! {

/// Tells a service that a reservation, or all of its work, is finished.
#[derive(Clone, Copy, Debug)]
pub struct Finished {}

/// Asks the result service to report its statistics.
#[derive(Clone, Copy, Debug)]
pub struct Stats {}

/// Starts the program.
#[derive(Clone, Copy, Debug)]
pub struct Run {}

} // verus!
