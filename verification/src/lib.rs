//! Status pings for Minecraft servers, and the subscriptions that share them.
//!
//! The library holds the protocols and the decisions; sockets, name lookups and clocks are the
//! caller's. Every step names the work to do next, and the caller hands back what came of it.
pub mod json;
pub mod ping;
pub mod registry;
pub mod request;
pub mod service;
pub mod session;
pub mod task;
pub mod text;
