use chilsonite::cicada::pending::{
    begin_data_transfer, end_data_transfer, handle_connect_response, handle_data_response,
    send_connect_request, wait_for_response, ConnectDelivery, ConnectOutcome, DataDelivery,
    PendingMap,
};
use chilsonite::cicada::relay::{handle_client_message, handle_client_read, ClientWrite};
use chilsonite::cicada::request::RequestState;
use chilsonite::cicada::session::SessionState;
use chilsonite::garadama::connect::{
    connect_failed, connect_succeeded, plan_connect, ConnectPlan, ConnectionMap,
};
use chilsonite::garadama::dispatch::{handle_master_event, AgentAction};
use chilsonite::garadama::relay::{handle_data_request, handle_target_read, TargetWrite};
use chilsonite::payload::{LinkEvent, Payload};
use chilsonite::target::ConnectTarget;
use chilsonite::transfer::{ChunkStream, ReadOutcome};

fn read_target(input: &[u8]) -> ConnectTarget {
    let mut state = RequestState::Header;
    let mut at = 0;
    loop {
        if let RequestState::Done { target } = state {
            return target;
        }
        let n = state.needed();
        state = state.advance(input[at..at + n].to_vec()).unwrap();
        at += n;
    }
}

#[test]
fn client_request_becomes_the_plan_of_the_agent() {
    let mut name = vec![5, 1, 0, 3, 9];
    name.extend_from_slice(b"localhost");
    name.extend_from_slice(&[0x1f, 0x90]);
    assert_eq!(
        plan_connect(&read_target(&name)),
        ConnectPlan::Resolve {
            query: "localhost:8080".to_string()
        }
    );
    assert_eq!(
        plan_connect(&read_target(&[5, 1, 0, 1, 192, 0, 2, 7, 0, 22])),
        ConnectPlan::Dial {
            address: "192.0.2.7:22".to_string()
        }
    );
    let mut six = vec![5, 1, 0, 4];
    six.extend_from_slice(&[0xfe, 0x80, 0, 0, 0, 0, 0, 0, 0, 0, 0, 0, 0, 0, 0, 0xab]);
    six.extend_from_slice(&[0, 22]);
    assert_eq!(
        plan_connect(&read_target(&six)),
        ConnectPlan::Dial {
            address: "[fe80::ab]:22".to_string()
        }
    );
}

#[test]
fn connection_request_and_report_go_round() {
    let target = || read_target(&[5, 1, 0, 1, 192, 0, 2, 7, 0, 22]);
    for success in [true, false] {
        let mut pending: PendingMap<u8, u8> = PendingMap::new();
        let mut connections: ConnectionMap<u8> = ConnectionMap::new();
        let asked = send_connect_request("r", &target(), 1, &mut pending);
        match handle_master_event(LinkEvent::Message(asked), &mut connections) {
            AgentAction::Connect {
                request_id,
                target: wanted,
            } => {
                assert_eq!(request_id, "r");
                assert_eq!(wanted, target());
            }
            other => panic!("{:?}", other),
        }
        let report = if success {
            connect_succeeded("r", 2, &mut connections)
        } else {
            connect_failed("r")
        };
        let payload = match handle_connect_response(report, &mut pending) {
            ConnectDelivery::Deliver {
                channel: 1,
                payload,
            } => payload,
            other => panic!("{:?}", other),
        };
        let answer = wait_for_response("r", ConnectOutcome::Answered(payload), &mut pending);
        let step = SessionState::Connecting.conclude(&answer);
        assert_eq!(step.state == SessionState::Relaying, success);
        assert_eq!(step.reply[1] == 0, success);
    }
}

#[test]
fn finished_request_leaves_no_trace() {
    let target = read_target(&[5, 1, 0, 1, 192, 0, 2, 7, 0, 22]);
    let mut pending: PendingMap<u8, u8> = PendingMap::new();
    begin_data_transfer("other", 9, &mut pending);
    send_connect_request("r", &target, 1, &mut pending);
    handle_connect_response(connect_failed("r"), &mut pending);
    assert!(pending.get("r").is_none());
    begin_data_transfer("r", 2, &mut pending);
    end_data_transfer("r", &mut pending);
    assert!(pending.get("r").is_none());
    send_connect_request("r", &target, 1, &mut pending);
    assert!(wait_for_response("r", ConnectOutcome::TimedOut, &mut pending).is_err());
    assert!(pending.get("r").is_none());
    assert!(pending.get("other").is_some());
}

/// What the agent writes to the target of `request_id` for a series of messages.
fn target_output(request_id: &str, messages: Vec<Payload>, map: &mut ConnectionMap<u8>) -> Vec<u8> {
    let mut written = Vec::new();
    for message in messages {
        if let AgentAction::Write {
            request_id: id,
            data,
            ..
        } = handle_master_event(LinkEvent::Message(message), map)
        {
            if let TargetWrite::Write { bytes, .. } = handle_data_request(&id, &data, map) {
                if id == request_id {
                    written.extend_from_slice(&bytes);
                }
            }
        }
    }
    written
}

#[test]
fn requests_do_not_interfere() {
    let mut connections: ConnectionMap<u8> = ConnectionMap::new();
    connect_succeeded("a", 1, &mut connections);
    connect_succeeded("b", 2, &mut connections);
    let mut a = ChunkStream::new("a");
    let mut b = ChunkStream::new("b");
    let mut send = |first: bool, bytes: &[u8]| {
        let stream = if first { &mut a } else { &mut b };
        let read = ReadOutcome::Bytes(bytes.to_vec());
        handle_client_read(stream, read).payload.unwrap()
    };
    let messages = vec![
        send(true, b"one "),
        send(false, b"uno "),
        send(true, b"two "),
        send(false, b""),
        send(true, b"three"),
    ];
    assert_eq!(target_output("a", messages, &mut connections), b"one two three");
    assert!(connections.get("a").is_some());
    assert!(connections.get("b").is_none());
}

#[test]
fn nothing_is_written_after_the_end() {
    let mut connections: ConnectionMap<u8> = ConnectionMap::new();
    connect_succeeded("a", 1, &mut connections);
    let mut stream = ChunkStream::new("a");
    let mut send = |bytes: &[u8]| {
        let read = ReadOutcome::Bytes(bytes.to_vec());
        handle_client_read(&mut stream, read).payload.unwrap()
    };
    let messages = vec![send(b"before"), send(b""), send(b"after")];
    assert_eq!(target_output("a", messages, &mut connections), b"before");
}

#[test]
fn target_messages_reach_the_waiting_request() {
    let mut pending: PendingMap<u8, u8> = PendingMap::new();
    begin_data_transfer("a", 7, &mut pending);
    let mut stream = ChunkStream::new("a");
    let mut written = Vec::new();
    let mut finished = false;
    for read in [
        ReadOutcome::Bytes(b"he".to_vec()),
        ReadOutcome::Bytes(b"llo".to_vec()),
        ReadOutcome::Failed("reset".to_string()),
    ] {
        let step = handle_target_read(&mut stream, read);
        match handle_data_response(step.payload, &pending) {
            DataDelivery::Deliver {
                channel: 7,
                payload,
            } => match handle_client_message(payload) {
                ClientWrite::Write(bytes) => written.extend_from_slice(&bytes),
                ClientWrite::Finish { success, .. } => {
                    assert!(!success);
                    finished = true;
                }
                other => panic!("{:?}", other),
            },
            other => panic!("{:?}", other),
        }
    }
    assert_eq!(written, b"hello");
    assert!(finished);
}
