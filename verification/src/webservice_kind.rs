//! Which kind of service produced a reservation result.
use vstd::prelude::*;

verus! {

/// The service that produced a result: an airline, the hotel, or the
/// scheduler that merged an airline result with a hotel result.
#[derive(Clone, Copy, PartialEq, Eq, Structural, Debug)]
pub enum WebserviceKind {
    Airline,
    Hotel,
    Merge,
}

/// How a service kind is displayed.
pub open spec fn webservice_kind_text(kind: WebserviceKind) -> Seq<char> {
    match kind {
        WebserviceKind::Airline => "Airline"@,
        WebserviceKind::Hotel => "Hotel"@,
        WebserviceKind::Merge => "Merge"@,
    }
}

impl WebserviceKind {
    /// The display text of this kind.
    pub fn to_string(&self) -> (s: String)
        ensures
            s@ == webservice_kind_text(*self),
    {
        let mut s = String::new();
        self.push_text(&mut s);
        assert(s@ =~= webservice_kind_text(*self));
        s
    }

    /// Appends the display text of this kind to `out`.
    pub fn push_text(&self, out: &mut String)
        ensures
            final(out)@ == old(out)@ + webservice_kind_text(*self),
    {
        match self {
            WebserviceKind::Airline => out.append("Airline"),
            WebserviceKind::Hotel => out.append("Hotel"),
            WebserviceKind::Merge => out.append("Merge"),
        }
    }
}

} // verus!
