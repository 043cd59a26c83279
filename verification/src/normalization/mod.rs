//! Request normalization: paths, query strings and HTTP/2 headers.
pub mod headers;
pub mod pairs;
pub mod path;
pub mod query;
pub mod query_laws;
pub mod segments;
pub mod types;
