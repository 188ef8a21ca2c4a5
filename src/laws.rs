//! Properties that relate the pieces of resolution to each other.
use vstd::prelude::*;
use crate::canon::{decode_all, generic_spec, kept_values, subdir_of};
use crate::decode::percent_decoded;
use crate::error::ResolveError;
use crate::parse_handler::page_file;
use crate::query::lookup;
use crate::resolve::{KeyView, Resolver};
use crate::segment::{parent_token, path_segments};
use crate::sort::{lemma_sorted_unique, sorted_texts};
use crate::text::{code_point_order, decimal_text, lemma_code_point_order_total};

verus! {

/// The generic subdirectory depends only on which decoded values occur and
/// how often, not on the order in which the request gave them.
pub proof fn lemma_subdir_order_free(v1: Seq<Seq<char>>, v2: Seq<Seq<char>>)
    requires
        v1.to_multiset() == v2.to_multiset(),
    ensures
        subdir_of(v1) == subdir_of(v2),
{
    broadcast use vstd::seq_lib::group_to_multiset_ensures;

    lemma_code_point_order_total();
    v1.lemma_sort_by_ensures(code_point_order());
    v2.lemma_sort_by_ensures(code_point_order());
    lemma_sorted_unique(sorted_texts(v1), sorted_texts(v2));
    assert(v1.len() == v1.to_multiset().len());
    assert(v2.len() == v2.to_multiset().len());
}

/// Two queries with the same pagination parameters whose remaining decoded
/// values are the same multiset get the same subdirectory and filename from
/// the generic canonicalizer.
pub proof fn lemma_generic_order_free(
    q1: Seq<(Seq<char>, Seq<char>)>,
    q2: Seq<(Seq<char>, Seq<char>)>,
    reserved: Seq<Seq<char>>,
    default_index: u64,
    default_size: u64,
    v1: Seq<Seq<char>>,
    v2: Seq<Seq<char>>,
)
    requires
        lookup(q1, "pageIndex"@) == lookup(q2, "pageIndex"@),
        lookup(q1, "pageSize"@) == lookup(q2, "pageSize"@),
        decode_all(kept_values(q1, reserved)) == Some(v1),
        decode_all(kept_values(q2, reserved)) == Some(v2),
        v1.to_multiset() == v2.to_multiset(),
    ensures
        generic_spec(q1, reserved, default_index, default_size) == generic_spec(
            q2,
            reserved,
            default_index,
            default_size,
        ),
{
    lemma_subdir_order_free(v1, v2);
}

/// A path with a segment that is exactly the parent-traversal token is
/// rejected, whatever the query, and no key is produced.
pub proof fn lemma_traversal_rejected(
    r: Resolver,
    path: Seq<char>,
    decoded: Seq<char>,
    q: Seq<(Seq<char>, Seq<char>)>,
)
    requires
        percent_decoded(path) == Some(decoded),
        path_segments(decoded).contains(parent_token()),
    ensures
        r.resolution(path, q) == Err::<KeyView, ResolveError>(ResolveError::TraversalRejected),
{
}

/// Without `pageIndex` and `pageSize`, the generic canonicalizer with
/// defaults 1 and 10 names the file `1_10.json`.
pub proof fn lemma_default_page_file(
    q: Seq<(Seq<char>, Seq<char>)>,
    reserved: Seq<Seq<char>>,
    subdir: Option<Seq<char>>,
    file: Seq<char>,
)
    requires
        lookup(q, "pageIndex"@) is None,
        lookup(q, "pageSize"@) is None,
        generic_spec(q, reserved, 1, 10) == Ok::<(Option<Seq<char>>, Seq<char>), ResolveError>(
            (subdir, file),
        ),
    ensures
        file == "1_10.json"@,
{
    reveal_strlit("_");
    reveal_strlit(".json");
    reveal_strlit("1_10.json");
    assert(decimal_text(1) == seq!['1']);
    assert(decimal_text(10) == seq!['1', '0']);
    assert(page_file(decimal_text(1), decimal_text(10)) =~= "1_10.json"@);
}

/// Resolution is a function of the configuration, the path and the query
/// alone: two resolutions of the same request give the same outcome.
pub proof fn lemma_resolution_repeatable(
    r: Resolver,
    path: Seq<char>,
    q: Seq<(Seq<char>, Seq<char>)>,
    first: Result<KeyView, ResolveError>,
    second: Result<KeyView, ResolveError>,
)
    requires
        first == r.resolution(path, q),
        second == r.resolution(path, q),
    ensures
        first == second,
{
}

} // verus!
