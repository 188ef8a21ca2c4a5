//! The ways a resolution can fail.
use vstd::prelude::*;

verus! {

/// A terminal failure of one resolution.
#[derive(Clone, Copy, Debug, PartialEq, Eq, Structural)]
pub enum ResolveError {
    /// The path or a query value is not valid percent-encoded text.
    EncodingError,
    /// A path segment is exactly the parent-traversal token.
    TraversalRejected,
    /// The assembled key would leave the data root.
    AccessDenied,
    /// `pageIndex` or `pageSize` is present but not a number.
    InvalidPagination,
    /// An endpoint claimed the request but a parameter it needs is absent.
    MissingRequiredParameter,
    /// No endpoint claimed the request and there is no generic fallback.
    NoMatch,
}

} // verus!
