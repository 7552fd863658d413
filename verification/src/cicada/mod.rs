//! CICADA, the master that accepts SOCKS5 clients and hands their requests to agents.

pub mod agents;
pub mod handshake;
pub mod link;
pub mod pending;
pub mod relay;
pub mod request;
pub mod selector;
pub mod session;
pub mod settings;
