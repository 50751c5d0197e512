//! Standard JSON-RPC error codes and the application's own codes.
use vstd::prelude::*;

verus! {

pub const PARSE_ERROR: i32 = -32700;
pub const INVALID_REQUEST: i32 = -32600;
pub const METHOD_NOT_FOUND: i32 = -32601;
pub const INVALID_PARAMS: i32 = -32602;
pub const INTERNAL_ERROR: i32 = -32603;

// Application-defined codes, outside the range JSON-RPC reserves for
// server errors (-32000 to -32099).
pub const PERMISSION_DENIED: i32 = 1001;
pub const NOT_FOUND: i32 = 1002;
pub const VERSION_MISMATCH: i32 = 1003;
pub const AUTH_REQUIRED: i32 = 1004;
pub const AUTH_INVALID: i32 = 1005;
pub const PAIRING_REJECTED: i32 = 1006;

} // verus!
