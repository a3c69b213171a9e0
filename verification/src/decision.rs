//! The answer of a web service to one request.
use vstd::prelude::*;

verus! {

/// Whether a web service accepted or rejected a request.
#[derive(Clone, Copy, PartialEq, Eq, Structural, Debug)]
pub enum Decision {
    Accepted,
    Rejected,
}

/// How a decision is displayed.
pub open spec fn decision_text(d: Decision) -> Seq<char> {
    match d {
        Decision::Accepted => "Accepted"@,
        Decision::Rejected => "Rejected"@,
    }
}

impl Decision {
    /// Whether this is an acceptance.
    pub fn is_accepted(&self) -> (b: bool)
        ensures
            b == (*self == Decision::Accepted),
    {
        match self {
            Decision::Accepted => true,
            Decision::Rejected => false,
        }
    }

    /// The display text of this decision.
    pub fn to_string(&self) -> (s: String)
        ensures
            s@ == decision_text(*self),
    {
        match self {
            Decision::Accepted => String::from_str("Accepted"),
            Decision::Rejected => String::from_str("Rejected"),
        }
    }
}

} // verus!
