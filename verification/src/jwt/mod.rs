//! JWT bearer-token authentication (HS256): token checks, configuration
//! parsing and the request decision of the auth device.
pub mod claims;
pub mod config;
pub mod crypto;
pub mod device;
pub mod error;
pub mod token;
