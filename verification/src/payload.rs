//! The messages that the master and its agents exchange.

use vstd::prelude::*;

verus! {

/// A message between the master and an agent.
#[derive(Debug, PartialEq, Eq)]
#[allow(inconsistent_fields)]
pub enum Payload {
    /// An agent introduces itself to the master.
    InitRequest {
        agent_id: String,
        ip: String,
        remote_host: String,
        country_code: String,
        city: String,
        region: String,
        asn: String,
        asn_org: String,
    },
    /// The master's answer to an introduction.
    InitResponse { success: bool, message: Option<String> },
    /// The master could not handle an introduction.
    InitError { error_message: String },
    /// The master asks an agent to open a connection.
    ConnectRequest {
        request_id: String,
        target_addr: String,
        target_port: u16,
        agent_id: Option<String>,
        address_type: u8,
    },
    /// The agent's answer to a connection request.
    ConnectResponse { request_id: String, success: bool },
    /// Bytes on their way from the client to the target, in base64.
    DataRequestChunk { request_id: String, chunk_id: u32, data: String },
    /// Bytes on their way from the target to the client, in base64.
    DataResponseChunk { request_id: String, chunk_id: u32, data: String },
    /// The target has no more bytes.
    DataResponseTransferComplete {
        request_id: String,
        success: bool,
        error_message: Option<String>,
    },
    /// The client has no more bytes.
    DataRequestTransferComplete {
        request_id: String,
        success: bool,
        error_message: Option<String>,
    },
    /// The client has gone.
    ClientDisconnect { request_id: String },
    /// A command for the receiver.
    Command { command: String },
}

/// What a [`Payload`] says.
#[allow(inconsistent_fields)]
pub enum PayloadView {
    InitRequest {
        agent_id: Seq<char>,
        ip: Seq<char>,
        remote_host: Seq<char>,
        country_code: Seq<char>,
        city: Seq<char>,
        region: Seq<char>,
        asn: Seq<char>,
        asn_org: Seq<char>,
    },
    InitResponse { success: bool, message: Option<Seq<char>> },
    InitError { error_message: Seq<char> },
    ConnectRequest {
        request_id: Seq<char>,
        target_addr: Seq<char>,
        target_port: u16,
        agent_id: Option<Seq<char>>,
        address_type: u8,
    },
    ConnectResponse { request_id: Seq<char>, success: bool },
    DataRequestChunk { request_id: Seq<char>, chunk_id: u32, data: Seq<char> },
    DataResponseChunk { request_id: Seq<char>, chunk_id: u32, data: Seq<char> },
    DataResponseTransferComplete {
        request_id: Seq<char>,
        success: bool,
        error_message: Option<Seq<char>>,
    },
    DataRequestTransferComplete {
        request_id: Seq<char>,
        success: bool,
        error_message: Option<Seq<char>>,
    },
    ClientDisconnect { request_id: Seq<char> },
    Command { command: Seq<char> },
}

impl View for Payload {
    type V = PayloadView;

    open spec fn view(&self) -> PayloadView {
        match *self {
            Payload::InitRequest {
                agent_id,
                ip,
                remote_host,
                country_code,
                city,
                region,
                asn,
                asn_org,
            } => PayloadView::InitRequest {
                agent_id: agent_id@,
                ip: ip@,
                remote_host: remote_host@,
                country_code: country_code@,
                city: city@,
                region: region@,
                asn: asn@,
                asn_org: asn_org@,
            },
            Payload::InitResponse { success, message } => PayloadView::InitResponse {
                success,
                message: optional_text(message),
            },
            Payload::InitError { error_message } => PayloadView::InitError {
                error_message: error_message@,
            },
            Payload::ConnectRequest {
                request_id,
                target_addr,
                target_port,
                agent_id,
                address_type,
            } => PayloadView::ConnectRequest {
                request_id: request_id@,
                target_addr: target_addr@,
                target_port,
                agent_id: optional_text(agent_id),
                address_type,
            },
            Payload::ConnectResponse { request_id, success } => PayloadView::ConnectResponse {
                request_id: request_id@,
                success,
            },
            Payload::DataRequestChunk { request_id, chunk_id, data } =>
                PayloadView::DataRequestChunk { request_id: request_id@, chunk_id, data: data@ },
            Payload::DataResponseChunk { request_id, chunk_id, data } =>
                PayloadView::DataResponseChunk { request_id: request_id@, chunk_id, data: data@ },
            Payload::DataResponseTransferComplete { request_id, success, error_message } =>
                PayloadView::DataResponseTransferComplete {
                request_id: request_id@,
                success,
                error_message: optional_text(error_message),
            },
            Payload::DataRequestTransferComplete { request_id, success, error_message } =>
                PayloadView::DataRequestTransferComplete {
                request_id: request_id@,
                success,
                error_message: optional_text(error_message),
            },
            Payload::ClientDisconnect { request_id } => PayloadView::ClientDisconnect {
                request_id: request_id@,
            },
            Payload::Command { command } => PayloadView::Command { command: command@ },
        }
    }
}

/// What arrives on the link between the master and an agent.
#[derive(Debug, PartialEq, Eq)]
pub enum LinkEvent {
    /// A message.
    Message(Payload),
    /// Text that is no message.
    Unreadable,
    /// Something other than text.
    NotText,
    /// The link has failed.
    Failed,
    /// The link is closed.
    Closed,
}

/// The text in an optional string.
pub open spec fn optional_text(s: Option<String>) -> Option<Seq<char>> {
    match s {
        Some(t) => Some(t@),
        None => None,
    }
}

/// An optional text is seen as it is.
pub proof fn law_optional_text_is_seen_whole(s: Option<String>)
    ensures
        s is Some <==> optional_text(s) is Some,
        s matches Some(t) ==> optional_text(s) == Some(t@),
{
}

/// A message is seen whole: as the same kind of message, with the same fields.
pub proof fn law_payload_is_seen_whole(p: Payload)
    ensures
        match (p, p@) {
            (
                Payload::InitRequest {
                    agent_id,
                    ip,
                    remote_host,
                    country_code,
                    city,
                    region,
                    asn,
                    asn_org,
                },
                PayloadView::InitRequest {
                    agent_id: v_agent_id,
                    ip: v_ip,
                    remote_host: v_remote_host,
                    country_code: v_country_code,
                    city: v_city,
                    region: v_region,
                    asn: v_asn,
                    asn_org: v_asn_org,
                },
            ) => {
                &&& agent_id@ == v_agent_id
                &&& ip@ == v_ip
                &&& remote_host@ == v_remote_host
                &&& country_code@ == v_country_code
                &&& city@ == v_city
                &&& region@ == v_region
                &&& asn@ == v_asn
                &&& asn_org@ == v_asn_org
            },
            (
                Payload::InitResponse { success, message },
                PayloadView::InitResponse { success: v_success, message: v_message },
            ) => success == v_success && optional_text(message) == v_message,
            (
                Payload::InitError { error_message },
                PayloadView::InitError { error_message: v_error_message },
            ) => error_message@ == v_error_message,
            (
                Payload::ConnectRequest {
                    request_id,
                    target_addr,
                    target_port,
                    agent_id,
                    address_type,
                },
                PayloadView::ConnectRequest {
                    request_id: v_request_id,
                    target_addr: v_target_addr,
                    target_port: v_target_port,
                    agent_id: v_agent_id,
                    address_type: v_address_type,
                },
            ) => {
                &&& request_id@ == v_request_id
                &&& target_addr@ == v_target_addr
                &&& target_port == v_target_port
                &&& optional_text(agent_id) == v_agent_id
                &&& address_type == v_address_type
            },
            (
                Payload::ConnectResponse { request_id, success },
                PayloadView::ConnectResponse { request_id: v_request_id, success: v_success },
            ) => request_id@ == v_request_id && success == v_success,
            (
                Payload::DataRequestChunk { request_id, chunk_id, data },
                PayloadView::DataRequestChunk {
                    request_id: v_request_id,
                    chunk_id: v_chunk_id,
                    data: v_data,
                },
            ) => request_id@ == v_request_id && chunk_id == v_chunk_id && data@ == v_data,
            (
                Payload::DataResponseChunk { request_id, chunk_id, data },
                PayloadView::DataResponseChunk {
                    request_id: v_request_id,
                    chunk_id: v_chunk_id,
                    data: v_data,
                },
            ) => request_id@ == v_request_id && chunk_id == v_chunk_id && data@ == v_data,
            (
                Payload::DataResponseTransferComplete { request_id, success, error_message },
                PayloadView::DataResponseTransferComplete {
                    request_id: v_request_id,
                    success: v_success,
                    error_message: v_error_message,
                },
            ) => request_id@ == v_request_id && success == v_success && optional_text(error_message)
                == v_error_message,
            (
                Payload::DataRequestTransferComplete { request_id, success, error_message },
                PayloadView::DataRequestTransferComplete {
                    request_id: v_request_id,
                    success: v_success,
                    error_message: v_error_message,
                },
            ) => request_id@ == v_request_id && success == v_success && optional_text(error_message)
                == v_error_message,
            (
                Payload::ClientDisconnect { request_id },
                PayloadView::ClientDisconnect { request_id: v_request_id },
            ) => request_id@ == v_request_id,
            (Payload::Command { command }, PayloadView::Command { command: v_command }) => command@
                == v_command,
            _ => false,
        },
{
}

} // verus!
