//! The master's settings.

use vstd::prelude::*;

use crate::address::{host_port, host_port_text};

verus! {

/// Where the master listens, and how long it waits for an agent.
#[derive(Debug, PartialEq, Eq)]
pub struct Settings {
    pub websocket_port: u16,
    pub socks5_port: u16,
    pub bind_address: String,
    pub connect_timeout_seconds: u64,
}

impl Settings {
    /// The address on which agents are awaited.
    pub fn websocket_address(&self) -> (r: String)
        ensures
            r@ == host_port_text(self.bind_address@, self.websocket_port),
    {
        host_port(self.bind_address.as_str(), self.websocket_port)
    }

    /// The address on which clients are awaited.
    pub fn socks5_address(&self) -> (r: String)
        ensures
            r@ == host_port_text(self.bind_address@, self.socks5_port),
    {
        host_port(self.bind_address.as_str(), self.socks5_port)
    }
}

} // verus!
