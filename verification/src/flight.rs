//! A flight request together with the service that collects its result.
use crate::resultservice::ResultService;
use std::sync::Arc;
use vstd::prelude::*;

verus! {

/// A flight request and the result service that its answer goes to.
pub struct Flight {
    pub origin: String,
    pub destination: String,
    pub airline: String,
    pub result_service: Arc<ResultService>,
}

/// The answer to a flight request, by request id.
pub struct FlightResult {
    pub id: String,
    pub accepted: bool,
}

} // verus!
