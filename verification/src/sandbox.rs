//! Sandbox-side setup of agents: checkpoints, auth environment, and the
//! auth gateway's request rewriting.
use vstd::prelude::*;

pub mod agent_config;
pub mod agent_setup;
pub mod auth_gateway;

verus! {
} // verus!
