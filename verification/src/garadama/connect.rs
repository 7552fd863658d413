//! How an agent opens a connection: which address it dials, and what it reports.

use vstd::prelude::*;

use crate::address::{host_port, host_port_text};
use crate::payload::{Payload, PayloadView};
use crate::reading::{law_host_and_port_are_read_back, names};
use crate::request_map::RequestMap;
use crate::target::{ConnectTarget, TargetView, ADDRESS_DOMAIN, ADDRESS_IPV4, ADDRESS_IPV6};
use crate::text::concat3;

verus! {

/// The open connections of an agent, by request identifier.
pub type ConnectionMap<W> = RequestMap<W>;

/// The next step towards a connection.
#[derive(Debug, PartialEq, Eq)]
pub enum ConnectPlan {
    /// The name in `query` is to be resolved first.
    Resolve { query: String },
    /// The address is to be dialled.
    Dial { address: String },
    /// No connection can be opened.
    GiveUp,
}

/// What a [`ConnectPlan`] stands for.
pub enum PlanView {
    Resolve { query: Seq<char> },
    Dial { address: Seq<char> },
    GiveUp,
}

impl View for ConnectPlan {
    type V = PlanView;

    open spec fn view(&self) -> PlanView {
        match *self {
            ConnectPlan::Resolve { query } => PlanView::Resolve { query: query@ },
            ConnectPlan::Dial { address } => PlanView::Dial { address: address@ },
            ConnectPlan::GiveUp => PlanView::GiveUp,
        }
    }
}

/// The first step towards a target: a domain name is resolved, an IPv4 address is dialled as it
/// is, and an IPv6 address is dialled in brackets.
pub open spec fn first_plan(target: TargetView) -> PlanView {
    if target.address_type == ADDRESS_DOMAIN {
        PlanView::Resolve { query: host_port_text(target.target_addr, target.target_port) }
    } else if target.address_type == ADDRESS_IPV4 {
        PlanView::Dial { address: host_port_text(target.target_addr, target.target_port) }
    } else if target.address_type == ADDRESS_IPV6 {
        PlanView::Dial {
            address: host_port_text("["@ + target.target_addr + "]"@, target.target_port),
        }
    } else {
        PlanView::GiveUp
    }
}

/// Decides the first step towards a target.
pub fn plan_connect(target: &ConnectTarget) -> (r: ConnectPlan)
    ensures
        r@ == first_plan(target@),
        match r {
            ConnectPlan::Resolve { query } => target.address_type == 3 && names(
                query@,
                target.target_addr@,
                target.target_port,
            ),
            ConnectPlan::Dial { address } => {
                ||| target.address_type == 1 && names(
                    address@,
                    target.target_addr@,
                    target.target_port,
                )
                ||| target.address_type == 4 && names(
                    address@,
                    "["@ + target.target_addr@ + "]"@,
                    target.target_port,
                )
            },
            ConnectPlan::GiveUp => target.address_type != 1 && target.address_type != 3
                && target.address_type != 4,
        },
{
    proof {
        law_host_and_port_are_read_back(target.target_addr@, target.target_port);
        law_host_and_port_are_read_back(
            "["@ + target.target_addr@ + "]"@,
            target.target_port,
        );
    }
    let host = target.target_addr.as_str();
    let port = target.target_port;
    if target.address_type == ADDRESS_DOMAIN {
        ConnectPlan::Resolve { query: host_port(host, port) }
    } else if target.address_type == ADDRESS_IPV4 {
        ConnectPlan::Dial { address: host_port(host, port) }
    } else if target.address_type == ADDRESS_IPV6 {
        ConnectPlan::Dial { address: host_port(concat3("[", host, "]").as_str(), port) }
    } else {
        ConnectPlan::GiveUp
    }
}

/// An address that a name resolves to.
#[derive(Debug, PartialEq, Eq)]
pub struct ResolvedAddress {
    pub ip: String,
    pub is_ipv4: bool,
}

/// Whether the address at `i` is the first IPv4 address.
pub open spec fn first_ipv4(addresses: Seq<ResolvedAddress>, i: int) -> bool {
    &&& 0 <= i < addresses.len()
    &&& addresses[i].is_ipv4
    &&& forall|j: int| 0 <= j < i ==> !(#[trigger] addresses[j]).is_ipv4
}

/// Whether the address at `i` is the one to dial: the first IPv4 address, or the first address
/// where there is no IPv4 address.
pub open spec fn preferred(addresses: Seq<ResolvedAddress>, i: int) -> bool {
    ||| first_ipv4(addresses, i)
    ||| i == 0 && addresses.len() > 0 && forall|j: int|
        0 <= j < addresses.len() ==> !(#[trigger] addresses[j]).is_ipv4
}

/// Chooses the address to dial.
pub fn choose_address(addresses: &Vec<ResolvedAddress>) -> (r: Option<usize>)
    ensures
        match r {
            Some(i) => i < addresses@.len() && preferred(addresses@, i as int),
            None => addresses@.len() == 0,
        },
        r matches Some(i) ==> {
            &&& i < addresses@.len()
            &&& addresses@[i as int].is_ipv4 || i == 0
            &&& forall|j: int|
                0 <= j < addresses@.len() && (#[trigger] addresses@[j]).is_ipv4 ==> i <= j
                    && addresses@[i as int].is_ipv4
        },
{
    let mut i: usize = 0;
    while i < addresses.len()
        invariant
            i <= addresses@.len(),
            forall|j: int| 0 <= j < i ==> !(#[trigger] addresses@[j]).is_ipv4,
        decreases addresses@.len() - i,
    {
        if addresses[i].is_ipv4 {
            return Some(i);
        }
        i = i + 1;
    }
    if addresses.len() > 0 {
        Some(0)
    } else {
        None
    }
}

/// The step after a name has been resolved to `addresses`, or could not be.
pub open spec fn resolved_plan(addresses: Option<Seq<ResolvedAddress>>, port: u16) -> PlanView {
    match addresses {
        Some(list) => if list.len() == 0 {
            PlanView::GiveUp
        } else {
            let i = choose|i: int| preferred(list, i);
            PlanView::Dial { address: host_port_text(list[i].ip@, port) }
        },
        None => PlanView::GiveUp,
    }
}

/// There is one address to dial.
pub proof fn law_preferred_is_unique(addresses: Seq<ResolvedAddress>, i: int, j: int)
    requires
        preferred(addresses, i),
        preferred(addresses, j),
    ensures
        i == j,
{
    if i < j {
        assert(!addresses[i].is_ipv4 || !first_ipv4(addresses, j));
    } else if j < i {
        assert(!addresses[j].is_ipv4 || !first_ipv4(addresses, i));
    }
}

/// Decides the step after a name has been resolved, or could not be (`None`).
pub fn plan_resolved(addresses: &Option<Vec<ResolvedAddress>>, port: u16) -> (r: ConnectPlan)
    ensures
        r@ == resolved_plan(
            match *addresses {
                Some(list) => Some(list@),
                None => None,
            },
            port,
        ),
        match r {
            ConnectPlan::Dial { address } => {
                &&& *addresses matches Some(list)
                &&& exists|i: int|
                    #![trigger list@[i]]
                    0 <= i < list@.len() && names(address@, list@[i].ip@, port)
            },
            ConnectPlan::Resolve { .. } => false,
            ConnectPlan::GiveUp => *addresses matches Some(list) ==> list@.len() == 0,
        },
{
    match addresses {
        Some(list) => match choose_address(list) {
            Some(i) => {
                proof {
                    let k = choose|k: int| preferred(list@, k);
                    law_preferred_is_unique(list@, i as int, k);
                    law_host_and_port_are_read_back(list@[i as int].ip@, port);
                }
                ConnectPlan::Dial { address: host_port(list[i].ip.as_str(), port) }
            },
            None => ConnectPlan::GiveUp,
        },
        None => ConnectPlan::GiveUp,
    }
}

/// Keeps the writing half of a connection that has been opened, and reports success.
pub fn connect_succeeded<W>(
    request_id: &str,
    writer: W,
    connections: &mut ConnectionMap<W>,
) -> (r: Payload)
    ensures
        r@ == (PayloadView::ConnectResponse { request_id: request_id@, success: true }),
        r matches Payload::ConnectResponse { request_id: id, success } && success && id@
            == request_id@,
        final(connections)@ == old(connections)@.insert(request_id@, writer),
{
    connections.insert(request_id.to_owned(), writer);
    Payload::ConnectResponse { request_id: request_id.to_owned(), success: true }
}

/// Reports that no connection has been opened.
pub fn connect_failed(request_id: &str) -> (r: Payload)
    ensures
        r@ == (PayloadView::ConnectResponse { request_id: request_id@, success: false }),
        r matches Payload::ConnectResponse { request_id: id, success } && !success && id@
            == request_id@,
{
    Payload::ConnectResponse { request_id: request_id.to_owned(), success: false }
}

/// After a name has been resolved, the agent dials the first IPv4 address, or the first address
/// where there is no IPv4 address, on the port that it is given, whichever port that is.
pub proof fn law_resolved_address_is_dialled_on_the_port(
    addresses: Seq<ResolvedAddress>,
    i: int,
    port: u16,
)
    requires
        0 <= i < addresses.len(),
        ({
            ||| addresses[i].is_ipv4 && forall|j: int|
                0 <= j < i ==> !(#[trigger] addresses[j]).is_ipv4
            ||| i == 0 && forall|j: int|
                0 <= j < addresses.len() ==> !(#[trigger] addresses[j]).is_ipv4
        }),
    ensures
        resolved_plan(Some(addresses), port) matches PlanView::Dial { address } && names(
            address,
            addresses[i].ip@,
            port,
        ),
{
    assert(preferred(addresses, i));
    let k = choose|k: int| preferred(addresses, k);
    law_preferred_is_unique(addresses, i, k);
    law_host_and_port_are_read_back(addresses[i].ip@, port);
}

/// A name that has no address, or cannot be resolved, is given up.
pub proof fn law_unresolved_name_is_given_up(port: u16)
    ensures
        resolved_plan(None, port) is GiveUp,
        resolved_plan(Some(Seq::empty()), port) is GiveUp,
{
}

/// The first step towards a target names the target's host and port: a name is looked up with the
/// port, and an address is dialled on it. Only a target of another type is given up.
pub proof fn law_first_step_names_the_target(target: TargetView)
    ensures
        match first_plan(target) {
            PlanView::Resolve { query } => target.address_type == 3 && names(
                query,
                target.target_addr,
                target.target_port,
            ),
            PlanView::Dial { address } => {
                ||| target.address_type == 1 && names(
                    address,
                    target.target_addr,
                    target.target_port,
                )
                ||| target.address_type == 4 && names(
                    address,
                    "["@ + target.target_addr + "]"@,
                    target.target_port,
                )
            },
            PlanView::GiveUp => target.address_type != 1 && target.address_type != 3
                && target.address_type != 4,
        },
{
    law_host_and_port_are_read_back(target.target_addr, target.target_port);
    law_host_and_port_are_read_back("["@ + target.target_addr + "]"@, target.target_port);
}

/// A plan is seen whole.
pub proof fn law_plan_is_seen_whole(plan: ConnectPlan)
    ensures
        match plan {
            ConnectPlan::Resolve { query } => plan@ matches PlanView::Resolve { query: q } && q
                == query@,
            ConnectPlan::Dial { address } => plan@ matches PlanView::Dial { address: a } && a
                == address@,
            ConnectPlan::GiveUp => plan@ is GiveUp,
        },
{
}

} // verus!
