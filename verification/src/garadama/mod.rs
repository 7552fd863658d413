//! GARADAMA, the agent that opens connections on behalf of the master.

pub mod connect;
pub mod dispatch;
pub mod relay;
pub mod startup;
