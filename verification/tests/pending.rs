use chilsonite::cicada::agents::AgentMap;
use chilsonite::cicada::link::{handle_link_event, take_introduction, Introduction, LinkAction};
use chilsonite::cicada::pending::{
    begin_data_transfer, end_data_transfer, handle_connect_response, handle_data_response,
    send_connect_request, wait_for_response, ConnectDelivery, ConnectError, ConnectOutcome,
    DataDelivery, PendingMap, PendingSender,
};
use chilsonite::payload::{LinkEvent, Payload};
use chilsonite::request_map::RequestMap;
use chilsonite::target::ConnectTarget;

fn target() -> ConnectTarget {
    ConnectTarget {
        address_type: 3,
        target_addr: "example.com".to_string(),
        target_port: 443,
    }
}

fn answer(id: &str) -> Payload {
    Payload::ConnectResponse {
        request_id: id.to_string(),
        success: true,
    }
}

fn chunk(id: &str) -> Payload {
    Payload::DataResponseChunk {
        request_id: id.to_string(),
        chunk_id: 1,
        data: "AA==".to_string(),
    }
}

#[test]
fn map_keeps_one_value_per_key() {
    let mut map: RequestMap<u8> = RequestMap::new();
    assert_eq!(map.insert("a".to_string(), 1), None);
    assert_eq!(map.insert("b".to_string(), 2), None);
    assert_eq!(map.insert("a".to_string(), 3), Some(1));
    assert_eq!(map.get("a"), Some(&3));
    assert_eq!(map.get("b"), Some(&2));
    assert_eq!(map.get("c"), None);
    assert_eq!(map.remove("a"), Some(3));
    assert_eq!(map.remove("a"), None);
    assert_eq!(map.get("b"), Some(&2));
}

#[test]
fn connect_request_is_built_and_waits() {
    let mut pending: PendingMap<u8, u16> = PendingMap::new();
    let payload = send_connect_request("r1", &target(), 7, &mut pending);
    assert_eq!(
        payload,
        Payload::ConnectRequest {
            request_id: "r1".to_string(),
            target_addr: "example.com".to_string(),
            target_port: 443,
            agent_id: None,
            address_type: 3,
        }
    );
    assert!(matches!(pending.get("r1"), Some(PendingSender::Oneshot(7))));
}

#[test]
fn answer_is_delivered_once() {
    let mut pending: PendingMap<u8, u16> = PendingMap::new();
    send_connect_request("r1", &target(), 7, &mut pending);
    send_connect_request("r2", &target(), 8, &mut pending);
    match handle_connect_response(answer("r1"), &mut pending) {
        ConnectDelivery::Deliver { channel, payload } => {
            assert_eq!(channel, 7);
            assert_eq!(payload, answer("r1"));
        }
        other => panic!("{:?}", other),
    }
    assert!(matches!(
        handle_connect_response(answer("r1"), &mut pending),
        ConnectDelivery::NotPending
    ));
    assert!(pending.get("r2").is_some());
}

#[test]
fn answer_to_a_request_that_waits_for_data_ends_the_wait() {
    let mut pending: PendingMap<u8, u16> = PendingMap::new();
    begin_data_transfer("r1", 9, &mut pending);
    assert!(matches!(
        handle_connect_response(answer("r1"), &mut pending),
        ConnectDelivery::WrongChannel
    ));
    assert!(pending.get("r1").is_none());
}

#[test]
fn other_messages_are_no_answers() {
    let mut pending: PendingMap<u8, u16> = PendingMap::new();
    begin_data_transfer("r1", 9, &mut pending);
    assert!(matches!(
        handle_connect_response(chunk("r1"), &mut pending),
        ConnectDelivery::Unexpected
    ));
    assert!(pending.get("r1").is_some());
}

#[test]
fn data_is_delivered_while_the_request_waits_for_it() {
    let mut pending: PendingMap<u8, u16> = PendingMap::new();
    begin_data_transfer("r1", 9, &mut pending);
    send_connect_request("r2", &target(), 8, &mut pending);
    for payload in [
        chunk("r1"),
        Payload::DataResponseTransferComplete {
            request_id: "r1".to_string(),
            success: true,
            error_message: None,
        },
    ] {
        match handle_data_response(payload, &pending) {
            DataDelivery::Deliver { channel, .. } => assert_eq!(*channel, 9),
            other => panic!("{:?}", other),
        }
    }
    assert!(matches!(
        handle_data_response(chunk("r2"), &pending),
        DataDelivery::WrongChannel
    ));
    assert!(matches!(
        handle_data_response(chunk("r3"), &pending),
        DataDelivery::NotPending
    ));
    assert!(matches!(
        handle_data_response(answer("r1"), &pending),
        DataDelivery::Unexpected
    ));
    end_data_transfer("r1", &mut pending);
    assert!(matches!(
        handle_data_response(chunk("r1"), &pending),
        DataDelivery::NotPending
    ));
}

#[test]
fn wait_ends_with_the_outcome() {
    let mut pending: PendingMap<u8, u16> = PendingMap::new();
    send_connect_request("r1", &target(), 7, &mut pending);
    assert_eq!(
        wait_for_response("r1", ConnectOutcome::Answered(answer("r1")), &mut pending),
        Ok(answer("r1"))
    );
    assert_eq!(
        wait_for_response(
            "r1",
            ConnectOutcome::NotSent {
                reason: "broken pipe".to_string()
            },
            &mut pending
        ),
        Err(ConnectError::NotSent {
            reason: "broken pipe".to_string()
        })
    );
    assert_eq!(
        wait_for_response("r1", ConnectOutcome::ChannelClosed, &mut pending),
        Err(ConnectError::ChannelClosed)
    );
    assert!(pending.get("r1").is_some());
    assert_eq!(
        wait_for_response("r1", ConnectOutcome::TimedOut, &mut pending),
        Err(ConnectError::TimedOut)
    );
    assert!(pending.get("r1").is_none());
}

fn introduction(agent_id: &str) -> LinkEvent {
    LinkEvent::Message(Payload::InitRequest {
        agent_id: agent_id.to_string(),
        ip: "203.0.113.9".to_string(),
        remote_host: "Tokyo".to_string(),
        country_code: "JP".to_string(),
        city: "Minato".to_string(),
        region: "Tokyo".to_string(),
        asn: "AS64500".to_string(),
        asn_org: "Example".to_string(),
    })
}

#[test]
fn introduction_registers_the_agent() {
    let mut agents = AgentMap::new();
    match take_introduction(introduction("agent_7"), 3, &mut agents) {
        Introduction::Registered {
            agent_id,
            response,
            replaced,
        } => {
            assert_eq!(agent_id, "agent_7");
            assert_eq!(
                response,
                Payload::InitResponse {
                    success: true,
                    message: None
                }
            );
            assert!(replaced.is_none());
        }
        other => panic!("{:?}", other),
    }
    let agent = agents.select_agent(&Some("agent_7".to_string())).unwrap();
    assert_eq!(agent.connection.sink, 3);
    assert_eq!(agent.connection.metadata.city, "Minato");
    assert_eq!(agent.connection.metadata.asn_org, "Example");
}

#[test]
fn introduction_under_a_wrong_identifier_is_turned_down() {
    let mut agents = AgentMap::new();
    assert_eq!(
        take_introduction(introduction("seven"), 3, &mut agents),
        Introduction::TurnedDown {
            agent_id: "seven".to_string(),
            response: Payload::InitResponse {
                success: false,
                message: Some("Agent ID must start with 'agent_'".to_string())
            },
            error: "Invalid agent ID format: seven".to_string(),
        }
    );
    assert!(agents.select_agent(&None).is_err());
}

#[test]
fn anything_else_is_no_introduction() {
    let mut agents = AgentMap::new();
    for event in [
        LinkEvent::Message(answer("r1")),
        LinkEvent::Unreadable,
        LinkEvent::NotText,
        LinkEvent::Failed,
        LinkEvent::Closed,
    ] {
        assert_eq!(
            take_introduction(event, 1, &mut agents),
            Introduction::NotIntroduced
        );
    }
}

#[test]
fn link_events_are_sorted() {
    assert_eq!(
        handle_link_event(LinkEvent::Message(answer("r"))),
        LinkAction::DeliverAnswer(answer("r"))
    );
    assert_eq!(
        handle_link_event(LinkEvent::Message(chunk("r"))),
        LinkAction::DeliverData(chunk("r"))
    );
    assert_eq!(
        handle_link_event(LinkEvent::Message(Payload::Command {
            command: "c".to_string()
        })),
        LinkAction::Ignore
    );
    assert_eq!(handle_link_event(LinkEvent::Unreadable), LinkAction::Ignore);
    assert_eq!(handle_link_event(LinkEvent::NotText), LinkAction::Ignore);
    assert_eq!(handle_link_event(LinkEvent::Failed), LinkAction::Leave);
    assert_eq!(handle_link_event(LinkEvent::Closed), LinkAction::Leave);
}

#[test]
fn unanswered_requests_are_explained() {
    assert_eq!(
        ConnectError::TimedOut.message("agent_7"),
        "Timeout waiting for connect response from agent agent_7"
    );
    assert_eq!(
        ConnectError::ChannelClosed.message("agent_7"),
        "Oneshot receiver error: RecvError(())"
    );
    let lost = ConnectError::NotSent {
        reason: "broken pipe".to_string(),
    };
    assert_eq!(lost.message("agent_7"), "broken pipe");
}

#[test]
fn closed_channel_is_described_as_the_channel_does() {
    let runtime = tokio::runtime::Builder::new_current_thread().build().unwrap();
    let (tx, rx) = tokio::sync::oneshot::channel::<()>();
    drop(tx);
    let e = runtime.block_on(rx).unwrap_err();
    assert_eq!(
        format!("Oneshot receiver error: {:?}", e),
        ConnectError::ChannelClosed.message("agent_7")
    );
}
