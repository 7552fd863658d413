//! The master's side of the link to an agent: the introduction, and the messages after it.

use vstd::prelude::*;

use crate::cicada::agents::{
    agents_after_init,
    identifiers_are_valid,
    init_response,
    invalid_agent_id_text,
    AgentConnection,
    AgentMap,
    AgentMetadata,
    ConnectionView,
    MetadataView,
    Registration,
};
use crate::cicada::pending::{answered_request_id, data_request_id};
use crate::cicada::selector::is_agent_id;
use crate::payload::{LinkEvent, Payload, PayloadView};

verus! {

/// What comes of the first thing that arrives on a link.
#[derive(Debug, PartialEq, Eq)]
pub enum Introduction {
    /// The agent is registered: it is sent `response`, and its messages are awaited. The
    /// connection that had its identifier before is no longer registered.
    Registered { agent_id: String, response: Payload, replaced: Option<AgentConnection> },
    /// The agent is turned down: it is sent `response`, and the link is given up with `error`.
    TurnedDown { agent_id: String, response: Payload, error: String },
    /// It was no introduction: the link is given up.
    NotIntroduced,
}

/// The connection of an agent that introduces itself, and its identifier.
pub open spec fn introduced(payload: PayloadView, sink: u64) -> Option<(Seq<char>, ConnectionView)> {
    match payload {
        PayloadView::InitRequest {
            agent_id,
            ip,
            remote_host,
            country_code,
            city,
            region,
            asn,
            asn_org,
        } => Some(
            (
                agent_id,
                ConnectionView {
                    sink,
                    metadata: MetadataView {
                        ip,
                        remote_host,
                        country_code,
                        city,
                        region,
                        asn,
                        asn_org,
                    },
                },
            ),
        ),
        _ => None,
    }
}

/// The introduction in what arrives on a link, if it is one.
pub open spec fn introduction_in(event: LinkEvent, sink: u64) -> Option<
    (Seq<char>, ConnectionView),
> {
    match event {
        LinkEvent::Message(payload) => introduced(payload@, sink),
        _ => None,
    }
}

/// Takes the first thing that arrives on a link, and registers the agent if it introduces itself
/// properly. `sink` is the number under which the way to send to the agent is kept.
pub fn take_introduction(event: LinkEvent, sink: u64, agents: &mut AgentMap) -> (r: Introduction)
    ensures
        final(agents)@ == match introduction_in(event, sink) {
            Some((id, connection)) => agents_after_init(old(agents)@, id, connection),
            None => old(agents)@,
        },
        identifiers_are_valid(old(agents)@) ==> identifiers_are_valid(final(agents)@),
        match event {
            LinkEvent::Message(
                Payload::InitRequest {
                    agent_id,
                    ip,
                    remote_host,
                    country_code,
                    city,
                    region,
                    asn,
                    asn_org,
                },
            ) => {
                let connection = ConnectionView {
                    sink,
                    metadata: MetadataView {
                        ip: ip@,
                        remote_host: remote_host@,
                        country_code: country_code@,
                        city: city@,
                        region: region@,
                        asn: asn@,
                        asn_org: asn_org@,
                    },
                };
                if "agent_"@.is_prefix_of(agent_id@) {
                    &&& final(agents)@ == old(agents)@.insert(agent_id@, connection)
                    &&& r matches Introduction::Registered { agent_id: id, response, .. }
                    &&& id@ == agent_id@
                    &&& response matches Payload::InitResponse { success: true, message: None }
                } else {
                    &&& final(agents)@ == old(agents)@
                    &&& r matches Introduction::TurnedDown { agent_id: id, response, error }
                    &&& id@ == agent_id@
                    &&& response matches Payload::InitResponse { success: false, message: Some(m) }
                    &&& m@ == "Agent ID must start with 'agent_'"@
                    &&& error@ == "Invalid agent ID format: "@ + agent_id@
                }
            },
            _ => r is NotIntroduced && final(agents)@ == old(agents)@,
        },
        match r {
            Introduction::Registered { agent_id, response, replaced } => {
                &&& introduction_in(event, sink) matches Some((id, _))
                &&& is_agent_id(id)
                &&& agent_id@ == id
                &&& response@ == init_response(id)
                &&& match replaced {
                    Some(c) => old(agents)@.contains_key(id) && old(agents)@[id] == c@,
                    None => !old(agents)@.contains_key(id),
                }
            },
            Introduction::TurnedDown { agent_id, response, error } => {
                &&& introduction_in(event, sink) matches Some((id, _))
                &&& !is_agent_id(id)
                &&& agent_id@ == id
                &&& response@ == init_response(id)
                &&& error@ == invalid_agent_id_text(id)
            },
            Introduction::NotIntroduced => introduction_in(event, sink) is None,
        },
{
    match event {
        LinkEvent::Message(
            Payload::InitRequest {
                agent_id,
                ip,
                remote_host,
                country_code,
                city,
                region,
                asn,
                asn_org,
            },
        ) => {
            let metadata = AgentMetadata {
                ip,
                remote_host,
                country_code,
                city,
                region,
                asn,
                asn_org,
            };
            let connection = AgentConnection { sink, metadata };
            match agents.handle_init_request(agent_id.clone(), connection) {
                Registration::Accepted { response, replaced } => Introduction::Registered {
                    agent_id,
                    response,
                    replaced,
                },
                Registration::Rejected { response, error } => Introduction::TurnedDown {
                    agent_id,
                    response,
                    error,
                },
            }
        },
        _ => Introduction::NotIntroduced,
    }
}

/// What is to be done about something that arrives on the link of a registered agent.
#[derive(Debug, PartialEq, Eq)]
pub enum LinkAction {
    /// An answer to a connection request is to be delivered.
    DeliverAnswer(Payload),
    /// Data is to be delivered.
    DeliverData(Payload),
    /// Nothing.
    Ignore,
    /// The agent is to be forgotten.
    Leave,
}

/// Decides what is to be done about something that arrives on the link of a registered agent.
pub fn handle_link_event(event: LinkEvent) -> (r: LinkAction)
    ensures
        r == match event {
            LinkEvent::Message(payload) => if answered_request_id(payload@) is Some {
                LinkAction::DeliverAnswer(payload)
            } else if data_request_id(payload@) is Some {
                LinkAction::DeliverData(payload)
            } else {
                LinkAction::Ignore
            },
            LinkEvent::Unreadable | LinkEvent::NotText => LinkAction::Ignore,
            LinkEvent::Failed | LinkEvent::Closed => LinkAction::Leave,
        },
        r == match event {
            LinkEvent::Message(payload) => match payload {
                Payload::ConnectResponse { .. } => LinkAction::DeliverAnswer(payload),
                Payload::DataResponseChunk { .. } => LinkAction::DeliverData(payload),
                Payload::DataResponseTransferComplete { .. } => LinkAction::DeliverData(payload),
                _ => LinkAction::Ignore,
            },
            LinkEvent::Unreadable | LinkEvent::NotText => LinkAction::Ignore,
            LinkEvent::Failed | LinkEvent::Closed => LinkAction::Leave,
        },
{
    match event {
        LinkEvent::Message(payload) => match &payload {
            Payload::ConnectResponse { .. } => LinkAction::DeliverAnswer(payload),
            Payload::DataResponseChunk { .. } => LinkAction::DeliverData(payload),
            Payload::DataResponseTransferComplete { .. } => LinkAction::DeliverData(payload),
            _ => LinkAction::Ignore,
        },
        LinkEvent::Unreadable => LinkAction::Ignore,
        LinkEvent::NotText => LinkAction::Ignore,
        LinkEvent::Failed => LinkAction::Leave,
        LinkEvent::Closed => LinkAction::Leave,
    }
}

/// An introduction is taken for what it says, and nothing else is an introduction.
pub proof fn law_introduction_is_taken_literally(payload: PayloadView, sink: u64)
    ensures
        introduced(payload, sink) is Some <==> payload is InitRequest,
        payload matches PayloadView::InitRequest {
            agent_id,
            ip,
            remote_host,
            country_code,
            city,
            region,
            asn,
            asn_org,
        } ==> introduced(payload, sink) matches Some((id, c)) && {
            &&& id == agent_id
            &&& c.sink == sink
            &&& c.metadata.ip == ip
            &&& c.metadata.remote_host == remote_host
            &&& c.metadata.country_code == country_code
            &&& c.metadata.city == city
            &&& c.metadata.region == region
            &&& c.metadata.asn == asn
            &&& c.metadata.asn_org == asn_org
        },
{
}

/// Only a message can be an introduction.
pub proof fn law_only_messages_introduce(event: LinkEvent, sink: u64)
    ensures
        event !is Message ==> introduction_in(event, sink) is None,
        event matches LinkEvent::Message(payload) ==> introduction_in(event, sink) == introduced(
            payload@,
            sink,
        ),
{
}

} // verus!
