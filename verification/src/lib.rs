//! Verified core of a web-accessible terminal multiplexer.
//!
//! The crate holds the session and terminal subsystem's logic: the bounded
//! scrollback ring, the per-session attach/detach state, the keyed session
//! store with its reaping rules, the binary wire framing, and the per-client
//! bridge state machine. The asynchronous plumbing around it (pseudoterminal
//! I/O, channels, the web server) lives outside and hands this crate plain
//! values.

pub mod bridge;
pub mod codec;
pub mod scrollback;
pub mod session;
pub mod sid;
pub mod store;
