//! The investment-through endpoint.
use vstd::prelude::*;
use vstd::string::*;
use crate::error::ResolveError;
use crate::parse_handler::{page_file, page_file_name, ParseHandler};
use crate::query::{lookup, lookup_or, QueryParams};
use crate::text::{contains_text, find_text};

verus! {

/// Claims paths holding `ECIInvestmentThrough/GetInfo`; needs `searchKey`,
/// and pages default to index 1 and size 10.
pub struct Parse663;

impl ParseHandler for Parse663 {
    open spec fn claims(&self, path: Seq<char>) -> bool {
        contains_text(path, "ECIInvestmentThrough/GetInfo"@)
    }

    open spec fn parts(&self, q: Seq<(Seq<char>, Seq<char>)>) -> Result<(Seq<Seq<char>>, Seq<char>), ResolveError> {
        match lookup(q, "searchKey"@) {
            Some(c) => Ok(
                (
                    seq![c],
                    page_file(lookup_or(q, "pageIndex"@, "1"@), lookup_or(q, "pageSize"@, "10"@)),
                ),
            ),
            None => Err(ResolveError::MissingRequiredParameter),
        }
    }

    fn is_match(&self, path: &str) -> (r: bool) {
        find_text(path, "ECIInvestmentThrough/GetInfo")
    }

    fn parse(&self, params: &QueryParams) -> (r: Result<(Vec<String>, String), ResolveError>) {
        let key = match params.get("searchKey") {
            Some(k) => k.as_str(),
            None => {
                return Err(ResolveError::MissingRequiredParameter);
            },
        };
        let index = match params.get("pageIndex") {
            Some(v) => v.as_str(),
            None => "1",
        };
        let size = match params.get("pageSize") {
            Some(v) => v.as_str(),
            None => "10",
        };
        let values = vec![key.to_owned()];
        let r = (values, page_file_name(index, size));
        assert(crate::segment::string_views(r.0@) =~= seq![key@]);
        Ok(r)
    }
}

} // verus!
