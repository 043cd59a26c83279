//! The request context: hydration of a request into its canonical form.
pub mod error;
pub mod request;
pub mod sni;
