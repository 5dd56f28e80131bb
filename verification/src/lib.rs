//! Core of a smart-contract verification service: it recompiles claimed
//! source with a chosen compiler version and decides whether the produced
//! bytecode matches the bytecode found on chain, tolerating the expected
//! cosmetic differences (trailing metadata, immutable slots, library
//! placeholders). This crate holds the verified logic; transport wiring
//! lives outside it.

pub mod bytes;
pub mod cache;
pub mod catalog;
pub mod input;
pub mod json;
pub mod matcher;
pub mod orchestrator;
pub mod remote;
pub mod response;
pub mod strings;
pub mod version;
