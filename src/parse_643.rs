//! The suspected-actual-control endpoint.
use vstd::prelude::*;
use vstd::string::*;
use crate::error::ResolveError;
use crate::parse_handler::ParseHandler;
use crate::query::{lookup, QueryParams};
use crate::text::{contains_text, find_text};

verus! {

/// Claims paths holding `ActualControl/SuspectedActualControl`; needs
/// `keyWord`, which names the file, with no identifying values.
pub struct Parse643;

impl ParseHandler for Parse643 {
    open spec fn claims(&self, path: Seq<char>) -> bool {
        contains_text(path, "ActualControl/SuspectedActualControl"@)
    }

    open spec fn parts(&self, q: Seq<(Seq<char>, Seq<char>)>) -> Result<(Seq<Seq<char>>, Seq<char>), ResolveError> {
        match lookup(q, "keyWord"@) {
            Some(k) => Ok((Seq::empty(), k + ".json"@)),
            None => Err(ResolveError::MissingRequiredParameter),
        }
    }

    fn is_match(&self, path: &str) -> (r: bool) {
        find_text(path, "ActualControl/SuspectedActualControl")
    }

    fn parse(&self, params: &QueryParams) -> (r: Result<(Vec<String>, String), ResolveError>) {
        let key_word = match params.get("keyWord") {
            Some(k) => k.as_str(),
            None => {
                return Err(ResolveError::MissingRequiredParameter);
            },
        };
        let mut file = key_word.to_owned();
        file.append(".json");
        let values: Vec<String> = Vec::new();
        assert(crate::segment::string_views(values@) =~= Seq::empty());
        Ok((values, file))
    }
}

} // verus!
