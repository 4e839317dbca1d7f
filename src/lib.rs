//! A small networked key-value store: the request protocol, the per-connection
//! line framing and the token registry of a single-threaded readiness loop.
pub mod codec;
pub mod store;
pub mod protocol;
pub mod server;
pub mod laws;
pub mod client;
