//! A shared checklist server's core: a byte bridge that replays an HTTP
//! upgrade request, a memory-mapped document store, the session registry
//! with its broadcast, and the connection's routing and handshake decisions.
pub mod bridge;
pub mod errors;
pub mod handshake;
pub mod routing;
pub mod sessions;
pub mod state;
