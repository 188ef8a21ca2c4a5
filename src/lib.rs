//! Resolution of an HTTP request path and query into the relative key of a
//! pre-generated JSON document.
pub mod text;
pub mod sort;
pub mod error;
pub mod decode;
pub mod query;
pub mod segment;
pub mod parse_handler;
pub mod parse_628;
pub mod parse_643;
pub mod parse_663;
pub mod endpoint;
pub mod canon;
pub mod resolve;
pub mod not_found;
pub mod laws;
