//! Wire protocol for remote control: a JSON-RPC 2.0 envelope over
//! newline-delimited JSON. PTY data streams bypass this envelope and carry
//! raw bytes directly.
use vstd::prelude::*;

pub mod envelope;
pub mod error_code;
pub mod methods;
pub mod notifications;
pub mod stream;
pub mod types;

verus! {

/// Highest protocol version this build understands.
pub const PROTOCOL_VERSION: u32 = 1;

} // verus!
