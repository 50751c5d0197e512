use vstd::prelude::*;

pub mod agents;
pub mod codec;
pub mod diff;
pub mod json;
pub mod line_diff;
pub mod partial;
pub mod partial_laws;
pub mod proto;
pub mod remote;
pub mod remote_client;
pub mod sandbox;
pub mod stable_sort;
pub mod terminal;
pub mod text;
pub mod ui;
pub mod workspace_paths;

verus! {
} // verus!
