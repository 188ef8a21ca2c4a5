//! The ordered registry of endpoint matchers, first match wins.
use vstd::prelude::*;
use crate::error::ResolveError;
use crate::parse_628::Parse628;
use crate::parse_643::Parse643;
use crate::parse_663::Parse663;
use crate::parse_handler::{parts_view, ParseHandler};
use crate::query::QueryParams;

verus! {

/// One of the known legacy endpoints.
#[derive(Clone, Copy, Debug, PartialEq, Eq, Structural)]
pub enum Endpoint {
    Beneficiary,
    SuspectedActualControl,
    InvestmentThrough,
}

impl Endpoint {
    /// Whether this endpoint claims the decoded path `path`.
    pub open spec fn claims(self, path: Seq<char>) -> bool {
        match self {
            Endpoint::Beneficiary => Parse628.claims(path),
            Endpoint::SuspectedActualControl => Parse643.claims(path),
            Endpoint::InvestmentThrough => Parse663.claims(path),
        }
    }

    /// Identifying values and filename that this endpoint reads from `q`.
    pub open spec fn parts(self, q: Seq<(Seq<char>, Seq<char>)>) -> Result<(Seq<Seq<char>>, Seq<char>), ResolveError> {
        match self {
            Endpoint::Beneficiary => Parse628.parts(q),
            Endpoint::SuspectedActualControl => Parse643.parts(q),
            Endpoint::InvestmentThrough => Parse663.parts(q),
        }
    }

    /// Whether this endpoint claims the decoded path `path`.
    pub fn is_match(&self, path: &str) -> (r: bool)
        ensures
            r == self.claims(path@),
    {
        match self {
            Endpoint::Beneficiary => Parse628.is_match(path),
            Endpoint::SuspectedActualControl => Parse643.is_match(path),
            Endpoint::InvestmentThrough => Parse663.is_match(path),
        }
    }

    /// Identifying values and filename that this endpoint reads from `params`.
    pub fn parse(&self, params: &QueryParams) -> (r: Result<(Vec<String>, String), ResolveError>)
        ensures
            parts_view(r) == self.parts(params@),
    {
        match self {
            Endpoint::Beneficiary => Parse628.parse(params),
            Endpoint::SuspectedActualControl => Parse643.parse(params),
            Endpoint::InvestmentThrough => Parse663.parse(params),
        }
    }
}

/// The first endpoint of `eps`, in order, that claims `path`.
pub open spec fn first_claim(eps: Seq<Endpoint>, path: Seq<char>) -> Option<Endpoint>
    decreases eps.len(),
{
    if eps.len() == 0 {
        None
    } else if eps[0].claims(path) {
        Some(eps[0])
    } else {
        first_claim(eps.drop_first(), path)
    }
}

/// The first endpoint of `eps`, in order, that claims `path`.
pub fn find_endpoint(eps: &Vec<Endpoint>, path: &str) -> (r: Option<Endpoint>)
    ensures
        r == first_claim(eps@, path@),
{
    let mut i: usize = 0;
    assert(eps@.subrange(0, eps@.len() as int) =~= eps@);
    while i < eps.len()
        invariant
            i <= eps@.len(),
            first_claim(eps@, path@) == first_claim(eps@.subrange(i as int, eps@.len() as int), path@),
        decreases eps.len() - i,
    {
        let ghost rest = eps@.subrange(i as int, eps@.len() as int);
        if eps[i].is_match(path) {
            return Some(eps[i]);
        }
        assert(rest.drop_first() =~= eps@.subrange(i + 1, eps@.len() as int));
        i += 1;
    }
    None
}

} // verus!
