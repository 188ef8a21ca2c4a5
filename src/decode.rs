//! Percent-decoding of path and query text.
use vstd::prelude::*;

verus! {

/// The text that percent-decoding `s` and reading the bytes as UTF-8 gives,
/// or `None` where those bytes are not UTF-8.
pub uninterp spec fn percent_decoded(s: Seq<char>) -> Option<Seq<char>>;

/// Relies on `percent_encoding::percent_decode_str(s).decode_utf8()`: the
/// result depends on `s` alone, and text holding no `%` comes back unchanged.
#[verifier::external_body]
pub(crate) fn percent_decode(s: &str) -> (r: Option<String>)
    ensures
        match r {
            Some(d) => percent_decoded(s@) == Some(d@),
            None => percent_decoded(s@) is None,
        },
        !s@.contains('%') ==> r is Some && r->0@ == s@,
{
    match percent_encoding::percent_decode_str(s).decode_utf8() {
        Ok(d) => Some(d.into_owned()),
        Err(_) => None,
    }
}

} // verus!
