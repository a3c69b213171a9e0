//! Whether a reservation is for a flight alone or for a flight and a hotel.
use vstd::prelude::*;

verus! {

/// The two kinds of reservation: a flight alone, or a package of a flight
/// and a hotel stay.
#[derive(Clone, Copy, PartialEq, Eq, Structural, Debug)]
pub enum ReservationKind {
    Flight,
    Package,
}

/// How a reservation kind is displayed.
pub open spec fn kind_text(kind: ReservationKind) -> Seq<char> {
    match kind {
        ReservationKind::Flight => "Flight"@,
        ReservationKind::Package => "Package"@,
    }
}

impl ReservationKind {
    /// The display text of this kind.
    pub fn to_string(&self) -> (s: String)
        ensures
            s@ == kind_text(*self),
    {
        match self {
            ReservationKind::Flight => String::from_str("Flight"),
            ReservationKind::Package => String::from_str("Package"),
        }
    }

    /// Appends the display text of this kind to `out`.
    pub fn push_text(&self, out: &mut String)
        ensures
            final(out)@ == old(out)@ + kind_text(*self),
    {
        match self {
            ReservationKind::Flight => out.append("Flight"),
            ReservationKind::Package => out.append("Package"),
        }
    }
}

} // verus!
