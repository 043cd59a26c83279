//! Verified core of the Snakeway L7 reverse proxy.
#![allow(unused_imports)]

pub mod text;
pub mod ctx;
pub mod device;
pub mod enrichment;
pub mod normalization;
pub mod route;
pub mod traffic;
pub mod jwt;
pub mod runtime;
