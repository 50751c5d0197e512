//! The client side of remote control: what a device computes to prove that
//! it was paired with a host.
pub mod auth;
