//! What an agent does about each message from the master.

use vstd::prelude::*;

use crate::garadama::connect::ConnectionMap;
use crate::garadama::startup::{
    handle_init_response,
    init_response_report,
    law_master_message_is_reported,
    LogLevel,
    LogRecord,
};
use crate::payload::{optional_text, LinkEvent, Payload, PayloadView};
use crate::target::{ConnectTarget, TargetView};
use crate::text::{concat3, labelled};

verus! {

/// What an agent is to do.
#[derive(Debug)]
pub enum AgentAction<W> {
    /// The master's answer to the introduction is to be logged.
    Report(Vec<LogRecord>),
    /// A connection is to be opened.
    Connect { request_id: String, target: ConnectTarget },
    /// Data is to be written to a connection.
    Write { request_id: String, chunk_id: u32, data: String },
    /// A connection, which is no longer kept, is to be shut down.
    ShutDown { request_id: String, writer: W },
    /// The connection that is to be shut down is not there.
    NotConnected { request_id: String },
    /// Nothing.
    Ignore,
    /// The link is to be given up.
    Stop,
}

/// What an [`AgentAction`] stands for.
pub enum ActionView<W> {
    Report(Seq<(LogLevel, Seq<char>)>),
    Connect { request_id: Seq<char>, target: TargetView },
    Write { request_id: Seq<char>, chunk_id: u32, data: Seq<char> },
    ShutDown { request_id: Seq<char>, writer: W },
    NotConnected { request_id: Seq<char> },
    Ignore,
    Stop,
}

impl<W> View for AgentAction<W> {
    type V = ActionView<W>;

    open spec fn view(&self) -> ActionView<W> {
        match *self {
            AgentAction::Report(records) => ActionView::Report(log_view(records@)),
            AgentAction::Connect { request_id, target } => ActionView::Connect {
                request_id: request_id@,
                target: target@,
            },
            AgentAction::Write { request_id, chunk_id, data } => ActionView::Write {
                request_id: request_id@,
                chunk_id,
                data: data@,
            },
            AgentAction::ShutDown { request_id, writer } => ActionView::ShutDown {
                request_id: request_id@,
                writer,
            },
            AgentAction::NotConnected { request_id } => ActionView::NotConnected {
                request_id: request_id@,
            },
            AgentAction::Ignore => ActionView::Ignore,
            AgentAction::Stop => ActionView::Stop,
        }
    }
}

/// The request that a message brings to an end, if it does.
pub open spec fn ended_request_id(payload: PayloadView) -> Option<Seq<char>> {
    match payload {
        PayloadView::DataRequestTransferComplete { request_id, .. } => Some(request_id),
        PayloadView::ClientDisconnect { request_id } => Some(request_id),
        _ => None,
    }
}

/// What an agent is to do about a message from the master.
pub open spec fn message_action<W>(
    payload: PayloadView,
    connections: Map<Seq<char>, W>,
) -> ActionView<W> {
    match payload {
        PayloadView::InitResponse { success, message } => ActionView::Report(
            init_response_report(success, message),
        ),
        PayloadView::ConnectRequest { request_id, target_addr, target_port, address_type, .. } =>
            ActionView::Connect {
            request_id,
            target: TargetView { address_type, target_addr, target_port },
        },
        PayloadView::DataRequestChunk { request_id, chunk_id, data } => ActionView::Write {
            request_id,
            chunk_id,
            data,
        },
        _ => match ended_request_id(payload) {
            Some(request_id) => if connections.contains_key(request_id) {
                ActionView::ShutDown { request_id, writer: connections[request_id] }
            } else {
                ActionView::NotConnected { request_id }
            },
            None => ActionView::Ignore,
        },
    }
}

/// What an agent is to do about something that arrives on its link.
pub open spec fn link_action<W>(event: LinkEvent, connections: Map<Seq<char>, W>) -> ActionView<W> {
    match event {
        LinkEvent::Message(payload) => message_action(payload@, connections),
        LinkEvent::Unreadable | LinkEvent::NotText => ActionView::Ignore,
        LinkEvent::Failed | LinkEvent::Closed => ActionView::Stop,
    }
}

/// The connections that are kept after a message from the master.
pub open spec fn connections_after_message<W>(
    payload: PayloadView,
    connections: Map<Seq<char>, W>,
) -> Map<Seq<char>, W> {
    match ended_request_id(payload) {
        Some(request_id) => connections.remove(request_id),
        None => connections,
    }
}

/// The connections that are kept after something has arrived on the link.
pub open spec fn connections_after<W>(
    event: LinkEvent,
    connections: Map<Seq<char>, W>,
) -> Map<Seq<char>, W> {
    match event {
        LinkEvent::Message(payload) => connections_after_message(payload@, connections),
        _ => connections,
    }
}

/// A log record about a request.
pub open spec fn request_line(level: LogLevel, request_id: Seq<char>, text: Seq<char>) -> (
    LogLevel,
    Seq<char>,
) {
    (level, "["@ + request_id + "] "@ + text)
}

/// Writes a log record about a request.
fn write_request_line(level: LogLevel, request_id: &str, text: &str) -> (r: LogRecord)
    ensures
        r@ == request_line(level, request_id@, text@),
{
    let mut line = concat3("[", request_id, "] ");
    line.append(text);
    LogRecord { level, text: line }
}

/// What is logged when a message from the master arrives. Of a request that the message ends, the
/// failure of a transfer is logged where the request has a connection, and the client's end where
/// it has none.
pub open spec fn arrival_report<W>(
    payload: PayloadView,
    connections: Map<Seq<char>, W>,
) -> Seq<(LogLevel, Seq<char>)> {
    match payload {
        PayloadView::InitResponse { .. } => seq![
            (LogLevel::Info, "[Control] Received init-response"@),
        ],
        PayloadView::ConnectRequest { .. } => seq![
            (LogLevel::Info, "[Control] Received connect-request"@),
        ],
        PayloadView::DataRequestChunk { .. } => seq![
            (LogLevel::Debug, "[Control] Received data-chunk-request"@),
        ],
        PayloadView::DataRequestTransferComplete { request_id, success, error_message } => {
            let arrival = (LogLevel::Info, "[Control] Received data-request-transfer-complete"@);
            if connections.contains_key(request_id) && !success {
                let reason = match error_message {
                    Some(text) => text,
                    None => Seq::empty(),
                };
                seq![
                    arrival,
                    request_line(LogLevel::Error, request_id, "Transfer failed: "@ + reason),
                ]
            } else {
                seq![arrival]
            }
        },
        PayloadView::ClientDisconnect { request_id } => {
            let arrival = (
                LogLevel::Info,
                "[Control] Received client-disconnect for "@ + request_id,
            );
            if connections.contains_key(request_id) {
                seq![arrival]
            } else {
                seq![
                    arrival,
                    request_line(LogLevel::Info, request_id, "No active connection found"@),
                ]
            }
        },
        _ => seq![(LogLevel::Debug, "[Control] Received unhandled message type"@)],
    }
}

/// The records of a log, as what they say.
pub open spec fn log_view(records: Seq<LogRecord>) -> Seq<(LogLevel, Seq<char>)> {
    records.map_values(|l: LogRecord| l@)
}

/// Says what is to be logged about a message that has arrived and has not been handled yet.
pub fn report_arrival<W>(payload: &Payload, connections: &ConnectionMap<W>) -> (r: Vec<LogRecord>)
    ensures
        r@.len() == arrival_report(payload@, connections@).len(),
        log_view(r@) == arrival_report(payload@, connections@),
        forall|i: int|
            0 <= i < r@.len() ==> {
                &&& (#[trigger] r@[i]).level == arrival_report(payload@, connections@)[i].0
                &&& r@[i].text@ == arrival_report(payload@, connections@)[i].1
            },
{
    let mut records: Vec<LogRecord> = Vec::new();
    let (level, text) = match payload {
        Payload::InitResponse { .. } => (
            LogLevel::Info,
            "[Control] Received init-response".to_owned(),
        ),
        Payload::ConnectRequest { .. } => (
            LogLevel::Info,
            "[Control] Received connect-request".to_owned(),
        ),
        Payload::DataRequestChunk { .. } => (
            LogLevel::Debug,
            "[Control] Received data-chunk-request".to_owned(),
        ),
        Payload::DataRequestTransferComplete { .. } => (
            LogLevel::Info,
            "[Control] Received data-request-transfer-complete".to_owned(),
        ),
        Payload::ClientDisconnect { request_id } => (
            LogLevel::Info,
            labelled("[Control] Received client-disconnect for ", request_id.as_str()),
        ),
        _ => (LogLevel::Debug, "[Control] Received unhandled message type".to_owned()),
    };
    records.push(LogRecord { level, text });
    match payload {
        Payload::DataRequestTransferComplete { request_id, success, error_message } => {
            if connections.get(request_id.as_str()).is_some() && !*success {
                let reason = match error_message {
                    Some(text) => labelled("Transfer failed: ", text.as_str()),
                    None => "Transfer failed: ".to_owned(),
                };
                assert(error_message is None ==> reason@ =~= "Transfer failed: "@ + Seq::empty());
                records.push(
                    write_request_line(LogLevel::Error, request_id.as_str(), reason.as_str()),
                );
            }
        },
        Payload::ClientDisconnect { request_id } => {
            if connections.get(request_id.as_str()).is_none() {
                records.push(
                    write_request_line(
                        LogLevel::Info,
                        request_id.as_str(),
                        "No active connection found",
                    ),
                );
            }
        },
        _ => {},
    }
    assert(log_view(records@) =~= arrival_report(payload@, connections@));
    assert forall|i: int| 0 <= i < records@.len() implies {
        &&& (#[trigger] records@[i]).level == arrival_report(payload@, connections@)[i].0
        &&& records@[i].text@ == arrival_report(payload@, connections@)[i].1
    } by {
        assert(log_view(records@)[i] == records@[i]@);
    }
    records
}

/// A truth value in words.
pub open spec fn bool_text(b: bool) -> Seq<char> {
    if b {
        "true"@
    } else {
        "false"@
    }
}

/// What is logged once the connection of a request that a message ends has been shut down.
pub open spec fn closing_report<W>(
    payload: PayloadView,
    connections: Map<Seq<char>, W>,
) -> Seq<(LogLevel, Seq<char>)> {
    match payload {
        PayloadView::DataRequestTransferComplete { request_id, success, .. } =>
            if connections.contains_key(request_id) {
                seq![
                    request_line(
                        LogLevel::Info,
                        request_id,
                        "Connection closed after transfer complete (success: "@ + bool_text(success)
                            + ")"@,
                    ),
                    request_line(LogLevel::Info, request_id, "Data request transfer completed"@),
                ]
            } else {
                Seq::empty()
            },
        PayloadView::ClientDisconnect { request_id } => if connections.contains_key(request_id) {
            seq![request_line(LogLevel::Info, request_id, "Connection closed and removed"@)]
        } else {
            Seq::empty()
        },
        _ => Seq::empty(),
    }
}

/// Says what is to be logged once the connection that a message ends has been shut down. The
/// message has not been handled yet.
pub fn report_closing<W>(payload: &Payload, connections: &ConnectionMap<W>) -> (r: Vec<LogRecord>)
    ensures
        r@.len() == closing_report(payload@, connections@).len(),
        log_view(r@) == closing_report(payload@, connections@),
        forall|i: int|
            0 <= i < r@.len() ==> {
                &&& (#[trigger] r@[i]).level == closing_report(payload@, connections@)[i].0
                &&& r@[i].text@ == closing_report(payload@, connections@)[i].1
            },
{
    let mut records: Vec<LogRecord> = Vec::new();
    match payload {
        Payload::DataRequestTransferComplete { request_id, success, .. } => {
            if connections.get(request_id.as_str()).is_some() {
                let outcome = concat3(
                    "Connection closed after transfer complete (success: ",
                    if *success {
                        "true"
                    } else {
                        "false"
                    },
                    ")",
                );
                records.push(
                    write_request_line(LogLevel::Info, request_id.as_str(), outcome.as_str()),
                );
                records.push(
                    write_request_line(
                        LogLevel::Info,
                        request_id.as_str(),
                        "Data request transfer completed",
                    ),
                );
            }
        },
        Payload::ClientDisconnect { request_id } => {
            if connections.get(request_id.as_str()).is_some() {
                records.push(
                    write_request_line(
                        LogLevel::Info,
                        request_id.as_str(),
                        "Connection closed and removed",
                    ),
                );
            }
        },
        _ => {},
    }
    assert(log_view(records@) =~= closing_report(payload@, connections@));
    assert forall|i: int| 0 <= i < records@.len() implies {
        &&& (#[trigger] records@[i]).level == closing_report(payload@, connections@)[i].0
        &&& records@[i].text@ == closing_report(payload@, connections@)[i].1
    } by {
        assert(log_view(records@)[i] == records@[i]@);
    }
    records
}

/// Takes a connection out of those that are kept, to shut it down.
fn take_connection<W>(request_id: String, connections: &mut ConnectionMap<W>) -> (r: AgentAction<
    W,
>)
    ensures
        final(connections)@ == old(connections)@.remove(request_id@),
        r@ == if old(connections)@.contains_key(request_id@) {
            ActionView::ShutDown {
                request_id: request_id@,
                writer: old(connections)@[request_id@],
            }
        } else {
            ActionView::NotConnected { request_id: request_id@ }
        },
        r == if old(connections)@.contains_key(request_id@) {
            AgentAction::ShutDown { request_id, writer: old(connections)@[request_id@] }
        } else {
            AgentAction::NotConnected { request_id }
        },
{
    match connections.remove(request_id.as_str()) {
        Some(writer) => AgentAction::ShutDown { request_id, writer },
        None => AgentAction::NotConnected { request_id },
    }
}

/// Decides what to do about something that arrives on the link to the master.
pub fn handle_master_event<W>(event: LinkEvent, connections: &mut ConnectionMap<W>) -> (r:
    AgentAction<W>)
    ensures
        r@ == link_action(event, old(connections)@),
        match event {
            LinkEvent::Message(payload) => match payload {
                Payload::InitResponse { success, message } => {
                    &&& r matches AgentAction::Report(records)
                    &&& records@.len() == if message is Some {
                        2int
                    } else {
                        1
                    }
                    &&& forall|i: int|
                        0 <= i < records@.len() ==> (#[trigger] records@[i]).level == if success {
                            LogLevel::Info
                        } else {
                            LogLevel::Error
                        }
                    &&& message matches Some(m) ==> m@.is_suffix_of(records@[1].text@)
                },
                Payload::ConnectRequest {
                    request_id,
                    target_addr,
                    target_port,
                    address_type,
                    ..
                } => r == (AgentAction::<W>::Connect {
                    request_id,
                    target: ConnectTarget { address_type, target_addr, target_port },
                }),
                Payload::DataRequestChunk { request_id, chunk_id, data } => r == (AgentAction::<
                    W,
                >::Write { request_id, chunk_id, data }),
                Payload::DataRequestTransferComplete { request_id, .. }
                | Payload::ClientDisconnect { request_id } => {
                    &&& final(connections)@ == old(connections)@.remove(request_id@)
                    &&& r == if old(connections)@.contains_key(request_id@) {
                        AgentAction::ShutDown {
                            request_id,
                            writer: old(connections)@[request_id@],
                        }
                    } else {
                        AgentAction::NotConnected { request_id }
                    }
                },
                _ => r is Ignore,
            },
            LinkEvent::Unreadable | LinkEvent::NotText => r is Ignore,
            LinkEvent::Failed | LinkEvent::Closed => r is Stop,
        },
        final(connections)@ == connections_after(event, old(connections)@),
{
    let payload = match event {
        LinkEvent::Message(payload) => payload,
        LinkEvent::Unreadable => return AgentAction::Ignore,
        LinkEvent::NotText => return AgentAction::Ignore,
        LinkEvent::Failed => return AgentAction::Stop,
        LinkEvent::Closed => return AgentAction::Stop,
    };
    match payload {
        Payload::InitResponse { success, message } => {
            let ghost report = init_response_report(success, optional_text(message));
            let ghost text = optional_text(message);
            let records = handle_init_response(success, message);
            proof {
                if let Some(m) = text {
                    law_master_message_is_reported(success, m);
                    assert(records@[1]@ == report[1]);
                }
            }
            assert(log_view(records@) =~= report);
            AgentAction::Report(records)
        },
        Payload::ConnectRequest { request_id, target_addr, target_port, address_type, .. } =>
            AgentAction::Connect {
            request_id,
            target: ConnectTarget { address_type, target_addr, target_port },
        },
        Payload::DataRequestChunk { request_id, chunk_id, data } => AgentAction::Write {
            request_id,
            chunk_id,
            data,
        },
        Payload::DataRequestTransferComplete { request_id, .. } => take_connection(
            request_id,
            connections,
        ),
        Payload::ClientDisconnect { request_id } => take_connection(request_id, connections),
        _ => AgentAction::Ignore,
    }
}

/// A connection that has been opened is shut down once, by the first message that ends its
/// request.
pub proof fn law_connection_is_shut_down_once<W>(
    connections: Map<Seq<char>, W>,
    request_id: Seq<char>,
    writer: W,
    first: PayloadView,
    second: PayloadView,
)
    requires
        ended_request_id(first) == Some(request_id),
        ended_request_id(second) == Some(request_id),
    ensures
        ({
            let open = connections.insert(request_id, writer);
            let after = connections_after_message(first, open);
            &&& message_action(first, open) == (ActionView::ShutDown { request_id, writer })
            &&& message_action(second, after) == (ActionView::<W>::NotConnected { request_id })
            &&& after == connections.remove(request_id)
        }),
{
    assert(connections.insert(request_id, writer).remove(request_id) =~= connections.remove(
        request_id,
    ));
}

/// A message leaves every connection in place but that of the request it ends.
pub proof fn law_other_connections_stay_open<W>(
    connections: Map<Seq<char>, W>,
    payload: PayloadView,
    other: Seq<char>,
)
    requires
        ended_request_id(payload) != Some(other),
    ensures
        ({
            let after = connections_after_message(payload, connections);
            &&& after.contains_key(other) <==> connections.contains_key(other)
            &&& connections.contains_key(other) ==> after[other] == connections[other]
        }),
{
}

/// The connections that are kept after a series of messages from the master.
pub open spec fn connections_after_messages<W>(
    payloads: Seq<PayloadView>,
    connections: Map<Seq<char>, W>,
) -> Map<Seq<char>, W>
    decreases payloads.len(),
{
    if payloads.len() == 0 {
        connections
    } else {
        connections_after_messages(
            payloads.skip(1),
            connections_after_message(payloads[0], connections),
        )
    }
}

/// A series of messages leaves every connection in place but those of the requests it ends, and
/// these are gone.
pub proof fn law_series_closes_only_what_it_ends<W>(
    payloads: Seq<PayloadView>,
    connections: Map<Seq<char>, W>,
    request_id: Seq<char>,
)
    ensures
        ({
            let after = connections_after_messages(payloads, connections);
            let ended = exists|i: int|
                0 <= i < payloads.len() && ended_request_id(#[trigger] payloads[i]) == Some(
                    request_id,
                );
            &&& after.contains_key(request_id) <==> connections.contains_key(request_id) && !ended
            &&& after.contains_key(request_id) ==> after[request_id] == connections[request_id]
        }),
    decreases payloads.len(),
{
    if payloads.len() > 0 {
        let rest = payloads.skip(1);
        let next = connections_after_message(payloads[0], connections);
        law_series_closes_only_what_it_ends(rest, next, request_id);
        assert forall|i: int| 0 <= i < rest.len() implies #[trigger] rest[i] == payloads[i + 1] by {
        }
        if exists|i: int|
            0 <= i < payloads.len() && ended_request_id(#[trigger] payloads[i]) == Some(
                request_id,
            ) {
            let i = choose|i: int|
                0 <= i < payloads.len() && ended_request_id(#[trigger] payloads[i]) == Some(
                    request_id,
                );
            if i > 0 {
                assert(rest[i - 1] == payloads[i]);
            }
        }
    }
}

/// A series of messages of which none ends a request changes nothing about the connections.
pub proof fn law_series_without_an_end_changes_nothing<W>(
    payloads: Seq<PayloadView>,
    connections: Map<Seq<char>, W>,
)
    requires
        forall|i: int|
            0 <= i < payloads.len() ==> ended_request_id(#[trigger] payloads[i]) is None,
    ensures
        connections_after_messages(payloads, connections) == connections,
    decreases payloads.len(),
{
    if payloads.len() > 0 {
        let rest = payloads.skip(1);
        assert forall|i: int| 0 <= i < rest.len() implies ended_request_id(
            #[trigger] rest[i],
        ) is None by {
            assert(rest[i] == payloads[i + 1]);
        }
        law_series_without_an_end_changes_nothing(rest, connections);
    }
}

/// What an agent does about each kind of message: it opens the connection that is asked for, passes
/// data on as it came, ends a request, reports the answer to its introduction, and does nothing
/// about any other. Only a message that ends a request changes what connections are kept.
pub proof fn law_messages_are_acted_on_by_kind<W>(
    payload: PayloadView,
    connections: Map<Seq<char>, W>,
)
    ensures
        match payload {
            PayloadView::InitResponse { success, message } => message_action(payload, connections)
                == (ActionView::<W>::Report(init_response_report(success, message))),
            PayloadView::ConnectRequest {
                request_id,
                target_addr,
                target_port,
                address_type,
                ..
            } => message_action(payload, connections) matches ActionView::Connect {
                request_id: id,
                target,
            } && id == request_id && target.target_addr == target_addr && target.target_port
                == target_port && target.address_type == address_type,
            PayloadView::DataRequestChunk { request_id, chunk_id, data } => message_action(
                payload,
                connections,
            ) == (ActionView::<W>::Write { request_id, chunk_id, data }),
            PayloadView::DataRequestTransferComplete { request_id, .. }
            | PayloadView::ClientDisconnect { request_id } => {
                &&& ended_request_id(payload) == Some(request_id)
                &&& connections_after_message(payload, connections) == connections.remove(
                    request_id,
                )
                &&& message_action(payload, connections) is ShutDown <==> connections.contains_key(
                    request_id,
                )
                &&& message_action(payload, connections) is NotConnected
                    <==> !connections.contains_key(request_id)
            },
            _ => message_action(payload, connections) is Ignore,
        },
        payload !is DataRequestTransferComplete && payload !is ClientDisconnect
            ==> connections_after_message(payload, connections) == connections && ended_request_id(
            payload,
        ) is None,
{
}

/// The link is given up where it fails or is closed, and nowhere else; what is no message changes
/// nothing.
pub proof fn law_link_is_given_up_at_its_end<W>(event: LinkEvent, connections: Map<Seq<char>, W>)
    ensures
        link_action(event, connections) is Stop <==> event is Failed || event is Closed,
        event !is Message ==> connections_after(event, connections) == connections,
        event is Unreadable || event is NotText ==> link_action(event, connections) is Ignore,
        event matches LinkEvent::Message(payload) ==> {
            &&& link_action(event, connections) == message_action(payload@, connections)
            &&& connections_after(event, connections) == connections_after_message(
                payload@,
                connections,
            )
        },
{
}

/// A failed transfer is reported with its request and its reason where the request has a
/// connection, and not where it has none; a successful one is not reported as a failure.
pub proof fn law_failed_transfer_is_reported<W>(
    request_id: Seq<char>,
    reason: Seq<char>,
    error_message: Option<Seq<char>>,
    connections: Map<Seq<char>, W>,
    writer: W,
)
    ensures
        ({
            let failed = PayloadView::DataRequestTransferComplete {
                request_id,
                success: false,
                error_message: Some(reason),
            };
            let bare = PayloadView::DataRequestTransferComplete {
                request_id,
                success: false,
                error_message: None,
            };
            let complete = PayloadView::DataRequestTransferComplete {
                request_id,
                success: true,
                error_message,
            };
            let open = connections.insert(request_id, writer);
            let closed = connections.remove(request_id);
            &&& arrival_report(failed, open).len() == 2
            &&& arrival_report(failed, open)[1] == (
                LogLevel::Error,
                "["@ + request_id + "] "@ + ("Transfer failed: "@ + reason),
            )
            &&& arrival_report(bare, open).len() == 2
            &&& arrival_report(bare, open)[1] == (
                LogLevel::Error,
                "["@ + request_id + "] "@ + "Transfer failed: "@,
            )
            &&& arrival_report(complete, open).len() == 1
            &&& arrival_report(failed, closed).len() == 1
            &&& arrival_report(complete, closed).len() == 1
            &&& closing_report(failed, closed).len() == 0
            &&& closing_report(complete, closed).len() == 0
            &&& closing_report(complete, open).len() == 2
            &&& closing_report(failed, open).len() == 2
            &&& closing_report(complete, open)[0].1 == "["@ + request_id + "] "@ + (
            "Connection closed after transfer complete (success: "@ + "true"@ + ")"@)
            &&& closing_report(failed, open)[0].1 == "["@ + request_id + "] "@ + (
            "Connection closed after transfer complete (success: "@ + "false"@ + ")"@)
            &&& closing_report(failed, open)[1].1 == "["@ + request_id
                + "] "@ + "Data request transfer completed"@
            &&& closing_report(complete, open)[1] == closing_report(failed, open)[1]
        }),
{
    assert("["@ + request_id + "] "@ + ("Transfer failed: "@ + Seq::<char>::empty()) =~= "["@
        + request_id + "] "@ + "Transfer failed: "@);
}

/// The end of a client is reported with its request: whether a connection was there to close.
pub proof fn law_client_end_is_reported<W>(
    request_id: Seq<char>,
    connections: Map<Seq<char>, W>,
    writer: W,
)
    ensures
        ({
            let gone = PayloadView::ClientDisconnect { request_id };
            let open = connections.insert(request_id, writer);
            let closed = connections.remove(request_id);
            &&& arrival_report(gone, open) == seq![
                (LogLevel::Info, "[Control] Received client-disconnect for "@ + request_id),
            ]
            &&& arrival_report(gone, closed).len() == 2
            &&& arrival_report(gone, closed)[0] == arrival_report(gone, open)[0]
            &&& arrival_report(gone, closed)[1] == (
                LogLevel::Info,
                "["@ + request_id + "] "@ + "No active connection found"@,
            )
            &&& closing_report(gone, closed).len() == 0
            &&& closing_report(gone, open) == seq![
                (LogLevel::Info, "["@ + request_id + "] "@ + "Connection closed and removed"@),
            ]
        }),
{
}

} // verus!
