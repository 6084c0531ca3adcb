//! Self-verifying memory for agents.

use vstd::prelude::*;

pub mod centrality;
pub mod cli;
pub mod config;
pub mod digest;
pub mod duration;
pub mod engine;
pub mod error;
pub mod generator;
pub mod json;
pub mod laws;
pub mod locator;
pub mod mcp;
pub mod number;
pub mod order;
pub mod predicate;
pub mod rank;
pub mod resolve;
pub mod scheduler;
pub mod schema;
pub mod store;
pub mod text;
pub mod time;
pub mod transaction;
pub mod verify;
pub mod write;

verus! {

} // verus!
