//! Decisions of the WASM device host around the guest calls.
pub mod wasm;
