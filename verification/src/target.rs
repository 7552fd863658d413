//! The host and port that a client wants to reach.

use vstd::prelude::*;

verus! {

/// The target is an IPv4 address.
pub const ADDRESS_IPV4: u8 = 1;

/// The target is a domain name.
pub const ADDRESS_DOMAIN: u8 = 3;

/// The target is an IPv6 address.
pub const ADDRESS_IPV6: u8 = 4;

/// The host and port that a client wants to reach.
#[derive(Debug, PartialEq, Eq)]
pub struct ConnectTarget {
    pub address_type: u8,
    pub target_addr: String,
    pub target_port: u16,
}

/// What a [`ConnectTarget`] stands for.
pub struct TargetView {
    pub address_type: u8,
    pub target_addr: Seq<char>,
    pub target_port: u16,
}

impl View for ConnectTarget {
    type V = TargetView;

    open spec fn view(&self) -> TargetView {
        TargetView {
            address_type: self.address_type,
            target_addr: self.target_addr@,
            target_port: self.target_port,
        }
    }
}

/// A target is seen whole.
pub proof fn law_target_is_seen_whole(target: ConnectTarget)
    ensures
        target@.address_type == target.address_type,
        target@.target_addr == target.target_addr@,
        target@.target_port == target.target_port,
{
}

} // verus!
