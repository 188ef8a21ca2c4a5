//! The capability each legacy endpoint provides: recognising its path and
//! reading its parameters.
use vstd::prelude::*;
use crate::error::ResolveError;
use crate::query::QueryParams;
use crate::segment::string_views;

verus! {

/// Identifying values and filename as texts.
pub open spec fn parts_view(r: Result<(Vec<String>, String), ResolveError>) -> Result<
    (Seq<Seq<char>>, Seq<char>),
    ResolveError,
> {
    match r {
        Ok((v, f)) => Ok((string_views(v@), f@)),
        Err(e) => Err(e),
    }
}

/// A matcher for one endpoint.
pub trait ParseHandler {
    /// Whether the endpoint claims a request whose decoded path is `path`.
    spec fn claims(&self, path: Seq<char>) -> bool;

    /// The identifying values and the filename for the query `q`.
    spec fn parts(&self, q: Seq<(Seq<char>, Seq<char>)>) -> Result<(Seq<Seq<char>>, Seq<char>), ResolveError>;

    /// Whether the endpoint claims the decoded path `path`.
    fn is_match(&self, path: &str) -> (r: bool)
        ensures
            r == self.claims(path@),
    ;

    /// The identifying values and the filename for `params`.
    fn parse(&self, params: &QueryParams) -> (r: Result<(Vec<String>, String), ResolveError>)
        ensures
            parts_view(r) == self.parts(params@),
    ;
}

/// `a`, `_`, `b`, `.json`.
pub open spec fn page_file(a: Seq<char>, b: Seq<char>) -> Seq<char> {
    a + "_"@ + b + ".json"@
}

/// Builds `a_b.json`.
pub fn page_file_name(a: &str, b: &str) -> (r: String)
    ensures
        r@ == page_file(a@, b@),
{
    let mut f = String::new();
    f.append(a);
    f.append("_");
    f.append(b);
    f.append(".json");
    f
}

} // verus!
