//! The outcome of processing one reservation.
use crate::reservation::Reservation;
use crate::reservation_kind::kind_text;
use crate::text::{bool_text, decimal, push_bool, push_decimal};
use crate::webservice_kind::{webservice_kind_text, WebserviceKind};
use vstd::prelude::*;

verus! {

/// The answer to a reservation: whether it was accepted, how long it took
/// from the request to the answer (in nanoseconds), and which service gave it.
#[derive(Debug)]
pub struct ReservationResult {
    pub reservation: Reservation,
    pub accepted: bool,
    pub time_to_process: u64,
    pub creator: WebserviceKind,
}

/// How a result is displayed:
/// `<id>(airline|origin-destination|kind|accepted|creator)`.
pub open spec fn result_text(r: ReservationResult) -> Seq<char> {
    "<"@ + decimal(r.reservation.id as nat) + ">("@ + r.reservation.airline@ + "|"@
        + r.reservation.origin@ + "-"@ + r.reservation.destination@ + "|"@ + kind_text(
        r.reservation.kind,
    ) + "|"@ + bool_text(r.accepted) + "|"@ + webservice_kind_text(r.creator) + ")"@
}

impl Clone for ReservationResult {
    fn clone(&self) -> (r: Self)
        ensures
            r == *self,
    {
        ReservationResult {
            reservation: self.reservation.clone(),
            accepted: self.accepted,
            time_to_process: self.time_to_process,
            creator: self.creator,
        }
    }
}

impl ReservationResult {
    /// A result for `reservation`.
    pub fn from_reservation_ref(
        reservation: Reservation,
        accepted: bool,
        delay: u64,
        creator: WebserviceKind,
    ) -> (r: ReservationResult)
        ensures
            r.reservation == reservation,
            r.accepted == accepted,
            r.time_to_process == delay,
            r.creator == creator,
    {
        ReservationResult { reservation, accepted, time_to_process: delay, creator }
    }

    /// The display text of this result.
    pub fn to_string(&self) -> (s: String)
        ensures
            s@ == result_text(*self),
    {
        let mut out = String::new();
        out.append("<");
        push_decimal(&mut out, self.reservation.id as u64);
        out.append(">(");
        out.append(self.reservation.airline.as_str());
        out.append("|");
        out.append(self.reservation.origin.as_str());
        out.append("-");
        out.append(self.reservation.destination.as_str());
        out.append("|");
        self.reservation.kind.push_text(&mut out);
        out.append("|");
        push_bool(&mut out, self.accepted);
        out.append("|");
        self.creator.push_text(&mut out);
        out.append(")");
        assert(out@ =~= result_text(*self));
        out
    }
}

} // verus!
