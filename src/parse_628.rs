//! The beneficiary endpoint.
use vstd::prelude::*;
use vstd::string::*;
use crate::error::ResolveError;
use crate::parse_handler::{page_file, page_file_name, ParseHandler};
use crate::query::{lookup, lookup_or, QueryParams};
use crate::text::{contains_text, find_text};

verus! {

/// Claims paths holding `Beneficiary/GetBeneficiary`; needs `companyName`,
/// and pages default to index 1 and size 1.
pub struct Parse628;

impl ParseHandler for Parse628 {
    open spec fn claims(&self, path: Seq<char>) -> bool {
        contains_text(path, "Beneficiary/GetBeneficiary"@)
    }

    open spec fn parts(&self, q: Seq<(Seq<char>, Seq<char>)>) -> Result<(Seq<Seq<char>>, Seq<char>), ResolveError> {
        match lookup(q, "companyName"@) {
            Some(c) => Ok(
                (
                    seq![c],
                    page_file(lookup_or(q, "pageIndex"@, "1"@), lookup_or(q, "pageSize"@, "1"@)),
                ),
            ),
            None => Err(ResolveError::MissingRequiredParameter),
        }
    }

    fn is_match(&self, path: &str) -> (r: bool) {
        find_text(path, "Beneficiary/GetBeneficiary")
    }

    fn parse(&self, params: &QueryParams) -> (r: Result<(Vec<String>, String), ResolveError>) {
        let company = match params.get("companyName") {
            Some(c) => c.as_str(),
            None => {
                return Err(ResolveError::MissingRequiredParameter);
            },
        };
        let index = match params.get("pageIndex") {
            Some(v) => v.as_str(),
            None => "1",
        };
        let size = match params.get("pageSize") {
            Some(v) => v.as_str(),
            None => "1",
        };
        let values = vec![company.to_owned()];
        let r = (values, page_file_name(index, size));
        assert(crate::segment::string_views(r.0@) =~= seq![company@]);
        Ok(r)
    }
}

} // verus!
