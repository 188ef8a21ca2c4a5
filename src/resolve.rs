//! The resolution pipeline: decode, guard, match or canonicalize, build the
//! key and confirm that it stays under the data root.
use vstd::prelude::*;
use vstd::string::*;
use crate::canon::{generic_parts, generic_spec, generic_view};
use crate::decode::{percent_decode, percent_decoded};
use crate::endpoint::{find_endpoint, first_claim, Endpoint};
use crate::error::ResolveError;
use crate::query::QueryParams;
use crate::segment::{guarded_segments, parent_token, path_segments, string_views};
use crate::text::join_texts;

verus! {

/// The relative location of a document under the data root: the request's
/// path segments, an optional subdirectory derived from the parameters, and
/// a filename.
pub struct CanonicalKey {
    pub path: Vec<String>,
    pub subdir: Option<String>,
    pub filename: String,
}

/// A key as texts: path segments, subdirectory, filename.
pub type KeyView = (Seq<Seq<char>>, Option<Seq<char>>, Seq<char>);

impl View for CanonicalKey {
    type V = KeyView;

    open spec fn view(&self) -> KeyView {
        (
            string_views(self.path@),
            match self.subdir {
                Some(s) => Some(s@),
                None => None,
            },
            self.filename@,
        )
    }
}

/// Whether the key piece `p` stays where it is put: it does not start at the
/// filesystem root and none of its slash-separated parts is the
/// parent-traversal token.
pub open spec fn piece_safe(p: Seq<char>) -> bool {
    !(p.len() > 0 && p[0] == '/') && !path_segments(p).contains(parent_token())
}

/// Whether every piece of the key stays under the data root.
pub open spec fn key_contained(k: KeyView) -> bool {
    &&& forall|i: int| 0 <= i < k.0.len() ==> piece_safe(#[trigger] k.0[i])
    &&& (k.1 is Some ==> piece_safe(k.1->0))
    &&& piece_safe(k.2)
}

/// Subdirectory for the identifying values that an endpoint gives.
pub open spec fn values_subdir(vals: Seq<Seq<char>>) -> Option<Seq<char>> {
    if vals.len() > 0 {
        Some(join_texts(vals, '_'))
    } else {
        None
    }
}

/// Whether the key piece `p` stays where it is put.
pub fn piece_is_safe(p: &str) -> (r: bool)
    ensures
        r == piece_safe(p@),
{
    if p.unicode_len() > 0 && p.get_char(0) == '/' {
        return false;
    }
    guarded_segments(p).is_ok()
}

/// The identifying values joined with `_`.
fn join_values(vals: &Vec<String>) -> (r: String)
    ensures
        r@ == join_texts(string_views(vals@), '_'),
{
    let mut s = String::new();
    let mut i: usize = 0;
    assert(string_views(vals@).subrange(0, 0) =~= Seq::<Seq<char>>::empty());
    while i < vals.len()
        invariant
            i <= vals@.len(),
            s@ == join_texts(string_views(vals@).subrange(0, i as int), '_'),
        decreases vals.len() - i,
    {
        let ghost pre = string_views(vals@).subrange(0, i as int);
        let ghost next = string_views(vals@).subrange(0, i + 1);
        assert(next.drop_last() =~= pre);
        if i > 0 {
            s.append("_");
            proof {
                reveal_strlit("_");
            }
        }
        s.append(vals[i].as_str());
        if i == 0 {
            assert(s@ =~= next[0]);
        } else {
            assert(s@ =~= join_texts(pre, '_').push('_') + next.last());
        }
        i += 1;
    }
    assert(string_views(vals@).subrange(0, vals@.len() as int) =~= string_views(vals@));
    s
}

/// Whether every piece of `key` stays under the data root.
pub fn verify_containment(key: &CanonicalKey) -> (r: bool)
    ensures
        r == key_contained(key@),
{
    let mut i: usize = 0;
    while i < key.path.len()
        invariant
            i <= key.path@.len(),
            forall|k: int| 0 <= k < i ==> piece_safe(#[trigger] key@.0[k]),
        decreases key.path.len() - i,
    {
        if !piece_is_safe(key.path[i].as_str()) {
            assert(!piece_safe(key@.0[i as int]));
            return false;
        }
        i += 1;
    }
    match &key.subdir {
        Some(s) => {
            if !piece_is_safe(s.as_str()) {
                return false;
            }
        },
        None => {},
    }
    piece_is_safe(key.filename.as_str())
}

/// What resolution needs to know: the endpoints in the order they are
/// tried, the reserved control parameters, whether the generic
/// canonicalizer handles unclaimed requests, and its default page index and
/// page size.
pub struct Resolver {
    pub endpoints: Vec<Endpoint>,
    pub reserved: Vec<String>,
    pub generic_fallback: bool,
    pub default_page_index: u64,
    pub default_page_size: u64,
}

impl Resolver {
    /// The deployed configuration: all three endpoints, `key` reserved, the
    /// generic canonicalizer with page 1 of size 10.
    pub fn standard() -> (r: Resolver)
        ensures
            r.endpoints@ == seq![
                Endpoint::Beneficiary,
                Endpoint::SuspectedActualControl,
                Endpoint::InvestmentThrough,
            ],
            string_views(r.reserved@) == seq!["key"@],
            r.generic_fallback,
            r.default_page_index == 1,
            r.default_page_size == 10,
    {
        let reserved = vec!["key".to_owned()];
        assert(string_views(reserved@) =~= seq!["key"@]);
        Resolver {
            endpoints: vec![
                Endpoint::Beneficiary,
                Endpoint::SuspectedActualControl,
                Endpoint::InvestmentThrough,
            ],
            reserved,
            generic_fallback: true,
            default_page_index: 1,
            default_page_size: 10,
        }
    }

    /// Subdirectory and filename once the path is decoded and guarded: the
    /// first endpoint that claims `decoded` reads them from `q`; with none,
    /// the generic canonicalizer does, or resolution fails with `NoMatch`.
    pub open spec fn tail_spec(&self, decoded: Seq<char>, q: Seq<(Seq<char>, Seq<char>)>) -> Result<(Option<Seq<char>>, Seq<char>), ResolveError> {
        match first_claim(self.endpoints@, decoded) {
            Some(e) => match e.parts(q) {
                Ok((vals, f)) => Ok((values_subdir(vals), f)),
                Err(err) => Err(err),
            },
            None => if self.generic_fallback {
                generic_spec(q, string_views(self.reserved@), self.default_page_index, self.default_page_size)
            } else {
                Err(ResolveError::NoMatch)
            },
        }
    }

    /// The outcome of resolving the raw `path` with the raw query `q`.
    pub open spec fn resolution(&self, path: Seq<char>, q: Seq<(Seq<char>, Seq<char>)>) -> Result<KeyView, ResolveError> {
        match percent_decoded(path) {
            None => Err(ResolveError::EncodingError),
            Some(d) => if path_segments(d).contains(parent_token()) {
                Err(ResolveError::TraversalRejected)
            } else {
                match self.tail_spec(d, q) {
                    Err(e) => Err(e),
                    Ok((sub, f)) => if key_contained((path_segments(d), sub, f)) {
                        Ok((path_segments(d), sub, f))
                    } else {
                        Err(ResolveError::AccessDenied)
                    },
                }
            },
        }
    }

    /// Subdirectory and filename for the decoded path `decoded`.
    pub fn resolve_tail(&self, decoded: &str, params: &QueryParams) -> (r: Result<(Option<String>, String), ResolveError>)
        ensures
            generic_view(r) == self.tail_spec(decoded@, params@),
    {
        match find_endpoint(&self.endpoints, decoded) {
            Some(e) => {
                let (vals, file) = e.parse(params)?;
                if vals.len() > 0 {
                    Ok((Some(join_values(&vals)), file))
                } else {
                    Ok((None, file))
                }
            },
            None => {
                if self.generic_fallback {
                    generic_parts(params, &self.reserved, self.default_page_index, self.default_page_size)
                } else {
                    Err(ResolveError::NoMatch)
                }
            },
        }
    }

    /// Resolves the raw, percent-encoded `path` and the query `params` into
    /// the key of the document to read.
    pub fn resolve(&self, path: &str, params: &QueryParams) -> (r: Result<CanonicalKey, ResolveError>)
        ensures
            match r {
                Ok(k) => self.resolution(path@, params@) == Ok::<KeyView, ResolveError>(k@),
                Err(e) => self.resolution(path@, params@) == Err::<KeyView, ResolveError>(e),
            },
    {
        let decoded = match percent_decode(path) {
            Some(d) => d,
            None => {
                return Err(ResolveError::EncodingError);
            },
        };
        let segments = guarded_segments(decoded.as_str())?;
        let (subdir, filename) = self.resolve_tail(decoded.as_str(), params)?;
        let key = CanonicalKey { path: segments, subdir, filename };
        if !verify_containment(&key) {
            return Err(ResolveError::AccessDenied);
        }
        Ok(key)
    }
}

} // verus!
