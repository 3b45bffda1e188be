//! OpenHawk: the verified core of a local-first agent operating system.
use vstd::prelude::*;

pub mod agents;
pub mod air_gap;
pub mod base64;
pub mod bus;
pub mod claim_check;
pub mod cli;
pub mod config;
pub mod compress;
pub mod config_engine;
pub mod crypto;
pub mod daemon;
pub mod error;
pub mod graph;
pub mod llm_router;
pub mod manifest;
pub mod memory;
pub mod memory_api;
pub mod nest;
pub mod orchestrator;
pub mod patterns;
pub mod permission_guard;
pub mod platform;
pub mod resource_monitor;
pub mod savepoint;
pub mod sdk;
pub mod self_healer;
pub mod session;
pub mod setup;
pub mod signature;
pub mod sync;
pub mod talon;
pub mod text;
pub mod token_tracker;
pub mod types;
pub mod vault;
pub mod ui;
pub mod watch;

verus! {

} // verus!
