//! A reservation request as read from the reservations file.
use crate::reservation_kind::{kind_text, ReservationKind};
use crate::text::{decimal, push_decimal, split_fields, split_on_commas, string_views};
use vstd::prelude::*;

verus! {

/// One reservation request.
///
/// `fresh` is true while the request has not yet been handed back to a
/// scheduler by the scheduler itself (from its waiting queue or after a
/// rejection); only a fresh package request asks the hotel for a room.
#[derive(Debug)]
pub struct Reservation {
    pub id: usize,
    pub origin: String,
    pub destination: String,
    pub airline: String,
    pub kind: ReservationKind,
    pub fresh: bool,
}

/// The kind named by the fourth field of a reservation line: `flight` means a
/// flight alone, anything else a package.
pub open spec fn kind_of_field(field: Seq<char>) -> ReservationKind {
    if field == "flight"@ {
        ReservationKind::Flight
    } else {
        ReservationKind::Package
    }
}

/// `line` has the four fields that a reservation line needs:
/// origin, destination, airline and kind.
pub open spec fn is_reservation_line(line: Seq<char>) -> bool {
    split_on_commas(line).len() >= 4
}

/// How a reservation is displayed: `<id>(airline|origin-destination|kind)`.
pub open spec fn reservation_text(r: Reservation) -> Seq<char> {
    "<"@ + decimal(r.id as nat) + ">("@ + r.airline@ + "|"@ + r.origin@ + "-"@ + r.destination@
        + "|"@ + kind_text(r.kind) + ")"@
}

impl Clone for Reservation {
    /// A copy that keeps the same id, so that results can be matched to it.
    fn clone(&self) -> (r: Self)
        ensures
            r == *self,
    {
        Reservation {
            id: self.id,
            origin: self.origin.clone(),
            destination: self.destination.clone(),
            airline: self.airline.clone(),
            kind: self.kind,
            fresh: self.fresh,
        }
    }
}

impl Reservation {
    /// Whether `line` has enough fields to be read as a reservation.
    pub fn is_reservation_line(line: &str) -> (b: bool)
        ensures
            b == is_reservation_line(line@),
    {
        let fields = split_fields(line);
        proof {
            assert(string_views(fields@).len() == fields@.len());
        }
        fields.len() >= 4
    }

    /// Reads a reservation from a line `origin,destination,airline,kind`
    /// and gives it the id `id`. Fields after the fourth are ignored.
    pub fn from_line(line: String, id: usize) -> (r: Reservation)
        requires
            is_reservation_line(line@),
        ensures
            r.id == id,
            r.origin@ == split_on_commas(line@)[0],
            r.destination@ == split_on_commas(line@)[1],
            r.airline@ == split_on_commas(line@)[2],
            r.kind == kind_of_field(split_on_commas(line@)[3]),
            r.fresh,
    {
        let fields = split_fields(line.as_str());
        proof {
            assert(string_views(fields@).len() == fields@.len());
            assert(fields@[0]@ == string_views(fields@)[0]);
            assert(fields@[1]@ == string_views(fields@)[1]);
            assert(fields@[2]@ == string_views(fields@)[2]);
            assert(fields@[3]@ == string_views(fields@)[3]);
        }
        let flight = String::from_str("flight");
        let kind = if fields[3] == flight {
            ReservationKind::Flight
        } else {
            ReservationKind::Package
        };
        Reservation {
            id,
            origin: fields[0].clone(),
            destination: fields[1].clone(),
            airline: fields[2].clone(),
            kind,
            fresh: true,
        }
    }

    /// The display text of this reservation.
    pub fn to_string(&self) -> (s: String)
        ensures
            s@ == reservation_text(*self),
    {
        let mut s = String::new();
        self.push_text(&mut s);
        assert(s@ =~= reservation_text(*self));
        s
    }

    /// Appends the display text of this reservation to `out`.
    pub fn push_text(&self, out: &mut String)
        ensures
            final(out)@ == old(out)@ + reservation_text(*self),
    {
        out.append("<");
        push_decimal(out, self.id as u64);
        out.append(">(");
        out.append(self.airline.as_str());
        out.append("|");
        out.append(self.origin.as_str());
        out.append("-");
        out.append(self.destination.as_str());
        out.append("|");
        self.kind.push_text(out);
        out.append(")");
        assert(out@ =~= old(out)@ + reservation_text(*self));
    }
}

} // verus!
