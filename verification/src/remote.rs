//! The host side of remote control: the state snapshot served to clients,
//! paired devices, the audit log's bookkeeping, pairing approval and PTY
//! sizing.
pub mod approval;
pub mod audit;
pub mod pairing;
pub mod pty_bus;
pub mod snapshot;
