use chilsonite::cicada::agents::AgentMap;
use chilsonite::cicada::link::{take_introduction, Introduction};
use chilsonite::garadama::connect::{
    choose_address, connect_failed, connect_succeeded, plan_connect, plan_resolved, ConnectPlan,
    ConnectionMap, ResolvedAddress,
};
use chilsonite::garadama::dispatch::{
    handle_master_event, report_arrival, report_closing, AgentAction,
};
use chilsonite::garadama::startup::{
    handle_init_request, handle_init_response, make_agent_id, master_url, strip_hyphens, GeoData,
    LogLevel, LogRecord,
};
use chilsonite::payload::{LinkEvent, Payload};
use chilsonite::target::ConnectTarget;

fn target(address_type: u8, addr: &str, port: u16) -> ConnectTarget {
    ConnectTarget {
        address_type,
        target_addr: addr.to_string(),
        target_port: port,
    }
}

fn resolved(ip: &str, is_ipv4: bool) -> ResolvedAddress {
    ResolvedAddress {
        ip: ip.to_string(),
        is_ipv4,
    }
}

fn dial(address: &str) -> ConnectPlan {
    ConnectPlan::Dial {
        address: address.to_string(),
    }
}

#[test]
fn targets_are_planned_by_address_type() {
    assert_eq!(
        plan_connect(&target(3, "example.com", 443)),
        ConnectPlan::Resolve {
            query: "example.com:443".to_string()
        }
    );
    assert_eq!(plan_connect(&target(1, "10.0.0.1", 80)), dial("10.0.0.1:80"));
    assert_eq!(plan_connect(&target(4, "::1", 80)), dial("[::1]:80"));
    assert_eq!(plan_connect(&target(2, "x", 80)), ConnectPlan::GiveUp);
}

#[test]
fn first_ipv4_address_is_preferred() {
    let list = vec![
        resolved("::1", false),
        resolved("10.0.0.1", true),
        resolved("10.0.0.2", true),
    ];
    assert_eq!(choose_address(&list), Some(1));
    assert_eq!(plan_resolved(&Some(list), 80), dial("10.0.0.1:80"));
}

#[test]
fn first_address_is_taken_where_there_is_no_ipv4_address() {
    let list = vec![resolved("::1", false), resolved("::2", false)];
    assert_eq!(choose_address(&list), Some(0));
    assert_eq!(plan_resolved(&Some(list), 80), dial("::1:80"));
}

#[test]
fn unresolved_name_is_given_up() {
    assert_eq!(choose_address(&vec![]), None);
    assert_eq!(plan_resolved(&Some(vec![]), 80), ConnectPlan::GiveUp);
    assert_eq!(plan_resolved(&None, 80), ConnectPlan::GiveUp);
}

#[test]
fn outcome_of_a_connection_is_reported() {
    let mut connections: ConnectionMap<u8> = ConnectionMap::new();
    assert_eq!(
        connect_succeeded("r1", 3, &mut connections),
        Payload::ConnectResponse {
            request_id: "r1".to_string(),
            success: true
        }
    );
    assert_eq!(connections.get("r1"), Some(&3));
    assert_eq!(
        connect_failed("r2"),
        Payload::ConnectResponse {
            request_id: "r2".to_string(),
            success: false
        }
    );
}

#[test]
fn answer_to_the_introduction_is_logged() {
    let record = |level, text: &str| LogRecord {
        level,
        text: text.to_string(),
    };
    assert_eq!(
        handle_init_response(true, None),
        vec![record(LogLevel::Info, "[Init] Initialization succeeded")]
    );
    assert_eq!(
        handle_init_response(true, Some("welcome".to_string())),
        vec![
            record(LogLevel::Info, "[Init] Initialization succeeded"),
            record(LogLevel::Info, "[Init] Server message: welcome"),
        ]
    );
    assert_eq!(
        handle_init_response(false, Some("no".to_string())),
        vec![
            record(LogLevel::Error, "[Init] ERROR: Initialization failed"),
            record(LogLevel::Error, "[Init] Server error: no"),
        ]
    );
    assert_eq!(
        handle_init_response(false, None),
        vec![record(LogLevel::Error, "[Init] ERROR: Initialization failed")]
    );
}

fn geo() -> GeoData {
    GeoData {
        ip: "203.0.113.9".to_string(),
        country_iso: "JP".to_string(),
        region_name: "Tokyo".to_string(),
        city: "Minato".to_string(),
        asn: "AS64500".to_string(),
        asn_org: "Example".to_string(),
    }
}

#[test]
fn introduction_carries_the_location() {
    assert_eq!(
        handle_init_request("agent_1", geo()),
        Payload::InitRequest {
            agent_id: "agent_1".to_string(),
            ip: "203.0.113.9".to_string(),
            remote_host: "Tokyo".to_string(),
            country_code: "JP".to_string(),
            city: "Minato".to_string(),
            region: "Tokyo".to_string(),
            asn: "AS64500".to_string(),
            asn_org: "Example".to_string(),
        }
    );
}

#[test]
fn agent_identifier_holds_the_start_of_the_machine_identifier() {
    let compact = strip_hyphens("0123-4567-89ab-cdef");
    assert_eq!(compact, "0123456789abcdef");
    assert_eq!(make_agent_id(&compact), "agent_0123456789ab");
    assert_eq!(make_agent_id("éééééé"), "agent_éééééé");
}

#[test]
fn own_introduction_is_accepted_by_the_master() {
    let id = make_agent_id("0123456789abcdef");
    let mut agents = AgentMap::new();
    let event = LinkEvent::Message(handle_init_request(&id, geo()));
    match take_introduction(event, 1, &mut agents) {
        Introduction::Registered { agent_id, .. } => assert_eq!(agent_id, id),
        other => panic!("{:?}", other),
    }
    let agent = agents.select_agent(&Some(id)).unwrap();
    assert_eq!(agent.connection.metadata.country_code, "JP");
}

#[test]
fn master_is_the_first_argument_or_the_default() {
    let args = |list: &[&str]| list.iter().map(|s| s.to_string()).collect::<Vec<String>>();
    assert_eq!(
        master_url(&args(&["garadama"])).unwrap(),
        "ws://127.0.0.1:3005/"
    );
    assert_eq!(master_url(&args(&[])).unwrap(), "ws://127.0.0.1:3005/");
    assert_eq!(
        master_url(&args(&["garadama", "WS://Example.com:80/a b", "x"])).unwrap(),
        "ws://example.com/a%20b"
    );
    assert!(master_url(&args(&["garadama", "not a url"])).is_err());
}

#[test]
fn messages_from_the_master_are_acted_on() {
    let mut connections: ConnectionMap<u8> = ConnectionMap::new();
    let request = Payload::ConnectRequest {
        request_id: "r1".to_string(),
        target_addr: "example.com".to_string(),
        target_port: 443,
        agent_id: Some("ignored".to_string()),
        address_type: 3,
    };
    match handle_master_event(LinkEvent::Message(request), &mut connections) {
        AgentAction::Connect {
            request_id,
            target: wanted,
        } => {
            assert_eq!(request_id, "r1");
            assert_eq!(wanted, target(3, "example.com", 443));
        }
        other => panic!("{:?}", other),
    }
    let chunk = Payload::DataRequestChunk {
        request_id: "r1".to_string(),
        chunk_id: 9,
        data: "aGk=".to_string(),
    };
    match handle_master_event(LinkEvent::Message(chunk), &mut connections) {
        AgentAction::Write {
            request_id,
            chunk_id,
            data,
        } => assert_eq!((request_id.as_str(), chunk_id, data.as_str()), ("r1", 9, "aGk=")),
        other => panic!("{:?}", other),
    }
    let answer = Payload::InitResponse {
        success: true,
        message: None,
    };
    match handle_master_event(LinkEvent::Message(answer), &mut connections) {
        AgentAction::Report(records) => assert_eq!(records.len(), 1),
        other => panic!("{:?}", other),
    }
}

#[test]
fn connection_is_shut_down_once() {
    let mut connections: ConnectionMap<u8> = ConnectionMap::new();
    connect_succeeded("r1", 3, &mut connections);
    connect_succeeded("r2", 4, &mut connections);
    let gone = || {
        LinkEvent::Message(Payload::ClientDisconnect {
            request_id: "r1".to_string(),
        })
    };
    match handle_master_event(gone(), &mut connections) {
        AgentAction::ShutDown { request_id, writer } => {
            assert_eq!((request_id.as_str(), writer), ("r1", 3))
        }
        other => panic!("{:?}", other),
    }
    assert!(matches!(
        handle_master_event(gone(), &mut connections),
        AgentAction::NotConnected { .. }
    ));
    assert_eq!(connections.get("r2"), Some(&4));
    let complete = Payload::DataRequestTransferComplete {
        request_id: "r2".to_string(),
        success: false,
        error_message: Some("reset".to_string()),
    };
    assert!(matches!(
        handle_master_event(LinkEvent::Message(complete), &mut connections),
        AgentAction::ShutDown { writer: 4, .. }
    ));
    assert!(connections.get("r2").is_none());
}

#[test]
fn other_events_are_ignored_or_end_the_link() {
    let mut connections: ConnectionMap<u8> = ConnectionMap::new();
    connect_succeeded("r1", 3, &mut connections);
    for event in [
        LinkEvent::Unreadable,
        LinkEvent::NotText,
        LinkEvent::Message(Payload::InitError {
            error_message: "e".to_string(),
        }),
        LinkEvent::Message(Payload::Command {
            command: "c".to_string(),
        }),
    ] {
        assert!(matches!(
            handle_master_event(event, &mut connections),
            AgentAction::Ignore
        ));
    }
    for event in [LinkEvent::Failed, LinkEvent::Closed] {
        assert!(matches!(
            handle_master_event(event, &mut connections),
            AgentAction::Stop
        ));
    }
    assert_eq!(connections.get("r1"), Some(&3));
}

fn lines(records: Vec<LogRecord>) -> Vec<(LogLevel, String)> {
    records.into_iter().map(|r| (r.level, r.text)).collect()
}

fn line(level: LogLevel, text: &str) -> (LogLevel, String) {
    (level, text.to_string())
}

#[test]
fn end_of_a_transfer_is_logged() {
    let complete = |success, reason: Option<&str>| Payload::DataRequestTransferComplete {
        request_id: "r1".to_string(),
        success,
        error_message: reason.map(|s| s.to_string()),
    };
    let received = line(
        LogLevel::Info,
        "[Control] Received data-request-transfer-complete",
    );
    let mut connections: ConnectionMap<u8> = ConnectionMap::new();
    let message = complete(false, Some("reset"));
    assert_eq!(lines(report_arrival(&message, &connections)), vec![received.clone()]);
    assert_eq!(lines(report_closing(&message, &connections)), vec![]);
    connect_succeeded("r1", 3, &mut connections);
    assert_eq!(
        lines(report_arrival(&message, &connections)),
        vec![
            received.clone(),
            line(LogLevel::Error, "[r1] Transfer failed: reset")
        ]
    );
    assert_eq!(
        lines(report_arrival(&complete(false, None), &connections)),
        vec![
            received.clone(),
            line(LogLevel::Error, "[r1] Transfer failed: ")
        ]
    );
    assert_eq!(
        lines(report_arrival(&complete(true, None), &connections)),
        vec![received]
    );
    for success in [true, false] {
        assert_eq!(
            lines(report_closing(&complete(success, None), &connections)),
            vec![
                line(
                    LogLevel::Info,
                    &format!(
                        "[r1] Connection closed after transfer complete (success: {})",
                        success
                    )
                ),
                line(LogLevel::Info, "[r1] Data request transfer completed"),
            ]
        );
    }
}

#[test]
fn end_of_a_client_is_logged() {
    let gone = Payload::ClientDisconnect {
        request_id: "r1".to_string(),
    };
    let received = line(LogLevel::Info, "[Control] Received client-disconnect for r1");
    let mut connections: ConnectionMap<u8> = ConnectionMap::new();
    assert_eq!(
        lines(report_arrival(&gone, &connections)),
        vec![
            received.clone(),
            line(LogLevel::Info, "[r1] No active connection found")
        ]
    );
    assert_eq!(lines(report_closing(&gone, &connections)), vec![]);
    connect_succeeded("r1", 3, &mut connections);
    assert_eq!(lines(report_arrival(&gone, &connections)), vec![received]);
    assert_eq!(
        lines(report_closing(&gone, &connections)),
        vec![line(LogLevel::Info, "[r1] Connection closed and removed")]
    );
}

#[test]
fn other_messages_are_logged_on_arrival() {
    let connections: ConnectionMap<u8> = ConnectionMap::new();
    let id = || "r1".to_string();
    for (payload, expected) in [
        (
            Payload::InitResponse {
                success: true,
                message: None,
            },
            line(LogLevel::Info, "[Control] Received init-response"),
        ),
        (
            Payload::ConnectRequest {
                request_id: id(),
                target_addr: "h".to_string(),
                target_port: 1,
                agent_id: None,
                address_type: 3,
            },
            line(LogLevel::Info, "[Control] Received connect-request"),
        ),
        (
            Payload::DataRequestChunk {
                request_id: id(),
                chunk_id: 1,
                data: String::new(),
            },
            line(LogLevel::Debug, "[Control] Received data-chunk-request"),
        ),
        (
            Payload::Command {
                command: "c".to_string(),
            },
            line(LogLevel::Debug, "[Control] Received unhandled message type"),
        ),
    ] {
        assert_eq!(lines(report_arrival(&payload, &connections)), vec![expected]);
        assert_eq!(lines(report_closing(&payload, &connections)), vec![]);
    }
}

#[test]
fn series_of_messages_closes_only_what_it_ends() {
    let mut connections: ConnectionMap<u8> = ConnectionMap::new();
    for (i, id) in ["a", "b", "c"].iter().enumerate() {
        connect_succeeded(id, i as u8, &mut connections);
    }
    for payload in [
        Payload::DataRequestChunk {
            request_id: "a".to_string(),
            chunk_id: 1,
            data: "AA==".to_string(),
        },
        Payload::ClientDisconnect {
            request_id: "b".to_string(),
        },
        Payload::Command {
            command: "c".to_string(),
        },
        Payload::ClientDisconnect {
            request_id: "x".to_string(),
        },
    ] {
        handle_master_event(LinkEvent::Message(payload), &mut connections);
    }
    assert_eq!(connections.get("a"), Some(&0));
    assert_eq!(connections.get("b"), None);
    assert_eq!(connections.get("c"), Some(&2));
}
