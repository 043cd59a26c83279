//! Runtime reload: how a configuration change is classified and handled.
pub mod diff;
pub mod routers;
pub mod types;
pub mod upstream;
