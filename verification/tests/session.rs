use chilsonite::cicada::agents::{AgentConnection, AgentMap, AgentMetadata, SelectError};
use chilsonite::cicada::handshake::HandshakeError;
use chilsonite::cicada::pending::ConnectError;
use chilsonite::cicada::request::RequestError;
use chilsonite::cicada::session::{write_connect_reply, InputError, Opening, SessionState};
use chilsonite::payload::Payload;

fn feed(input: &[u8]) -> (Vec<u8>, Result<SessionState, InputError>) {
    let mut state = SessionState::start();
    let mut sent = Vec::new();
    let mut at = 0;
    while state.is_reading() && input.len() - at >= state.needed() {
        let n = state.needed();
        match state.receive(input[at..at + n].to_vec()) {
            Ok(step) => {
                sent.extend_from_slice(&step.reply);
                state = step.state;
                at += n;
            }
            Err(e) => return (sent, Err(e)),
        }
    }
    (sent, Ok(state))
}

fn request(username: Option<&str>) -> Vec<u8> {
    let mut input = vec![5, 1];
    match username {
        Some(name) => {
            input.extend_from_slice(&[2, 1, name.len() as u8]);
            input.extend_from_slice(name.as_bytes());
            input.push(0);
        }
        None => input.push(0),
    }
    input.extend_from_slice(&[5, 1, 0, 1, 10, 0, 0, 7, 0, 80]);
    input
}

fn one_agent() -> AgentMap {
    let mut map = AgentMap::new();
    map.handle_init_request(
        "agent_1".to_string(),
        AgentConnection {
            sink: 5,
            metadata: AgentMetadata {
                ip: String::new(),
                remote_host: String::new(),
                country_code: "JP".to_string(),
                city: String::new(),
                region: String::new(),
                asn: String::new(),
                asn_org: String::new(),
            },
        },
    );
    map
}

const SUCCESS: [u8; 10] = [5, 0, 0, 1, 0, 0, 0, 0, 0, 0];
const FAILURE: [u8; 10] = [5, 1, 0, 1, 0, 0, 0, 0, 0, 0];

#[test]
fn replies_have_their_fixed_form() {
    assert_eq!(write_connect_reply(true), SUCCESS);
    assert_eq!(write_connect_reply(false), FAILURE);
}

#[test]
fn session_reads_up_to_the_choice_of_an_agent() {
    let (sent, state) = feed(&request(Some("agent_1")));
    assert_eq!(sent, vec![5, 2, 1, 0]);
    match state.unwrap() {
        SessionState::Selecting { username, target } => {
            assert_eq!(username.as_deref(), Some("agent_1"));
            assert_eq!(target.target_addr, "10.0.0.7");
            assert_eq!(target.target_port, 80);
            assert_eq!(target.address_type, 1);
        }
        other => panic!("{:?}", other),
    }
}

#[test]
fn malformed_input_ends_the_session() {
    assert_eq!(
        feed(&[9, 0]).1,
        Err(InputError::Handshake(HandshakeError::UnsupportedVersion(9)))
    );
    assert_eq!(
        feed(&[9, 0]).1.unwrap_err().message(),
        "Unsupported SOCKS version: 9"
    );
    assert_eq!(
        feed(&[5, 0, 6, 1, 0, 1]).1.unwrap_err().message(),
        "Unsupported SOCKS version in connect request: 6"
    );
    let (sent, end) = feed(&[5, 1, 0, 5, 3, 0, 1]);
    assert_eq!(sent, vec![5, 0]);
    assert_eq!(
        end,
        Err(InputError::Request(RequestError::UnsupportedCommand(3)))
    );
}

#[test]
fn chosen_agent_is_forwarded_the_request() {
    let state = feed(&request(None)).1.unwrap();
    match state.open(&one_agent()) {
        Opening::Forward {
            state,
            request_id,
            agent,
            target,
        } => {
            assert_eq!(state, SessionState::Connecting);
            assert_eq!(agent.agent_id, "agent_1");
            assert_eq!(agent.connection.sink, 5);
            assert_eq!(target.target_addr, "10.0.0.7");
            let id: Vec<char> = request_id.chars().collect();
            assert_eq!(id.len(), 36);
            for (i, c) in id.iter().enumerate() {
                if [8, 13, 18, 23].contains(&i) {
                    assert_eq!(*c, '-');
                } else {
                    assert!(c.is_ascii_digit() || ('a'..='f').contains(c));
                }
            }
            assert_eq!(id[14], '4');
            assert!(['8', '9', 'a', 'b'].contains(&id[19]));
        }
        other => panic!("{:?}", other),
    }
}

#[test]
fn request_identifiers_differ() {
    let mut ids = Vec::new();
    for _ in 0..20 {
        if let Opening::Forward { request_id, .. } = feed(&request(None)).1.unwrap().open(&one_agent())
        {
            assert!(!ids.contains(&request_id));
            ids.push(request_id);
        }
    }
    assert_eq!(ids.len(), 20);
}

#[test]
fn client_without_an_agent_is_refused() {
    for (name, reason) in [
        (Some("agent_2"), SelectError::AgentNotFound),
        (Some("country_US"), SelectError::NoAgentsInCountries),
        (Some("country_U"), SelectError::InvalidCountryFormat),
        (Some("nobody"), SelectError::InvalidUsername),
    ] {
        let state = feed(&request(name)).1.unwrap();
        assert_eq!(
            state.open(&one_agent()),
            Opening::Refused {
                state: SessionState::Closed,
                reason,
                reply: FAILURE.to_vec()
            }
        );
    }
    assert_eq!(
        feed(&request(None)).1.unwrap().open(&AgentMap::new()),
        Opening::Refused {
            state: SessionState::Closed,
            reason: SelectError::NoAgents,
            reply: FAILURE.to_vec()
        }
    );
}

#[test]
fn only_a_successful_answer_leads_to_relaying() {
    let conclude = |answer: Result<Payload, ConnectError>| {
        let step = SessionState::Connecting.conclude(&answer);
        (step.state, step.reply)
    };
    let response = |success| Payload::ConnectResponse {
        request_id: "r".to_string(),
        success,
    };
    let closed = (SessionState::Closed, FAILURE.to_vec());
    assert_eq!(
        conclude(Ok(response(true))),
        (SessionState::Relaying, SUCCESS.to_vec())
    );
    assert_eq!(conclude(Ok(response(false))), closed);
    assert_eq!(
        conclude(Ok(Payload::ClientDisconnect {
            request_id: "r".to_string()
        })),
        closed
    );
    assert_eq!(conclude(Err(ConnectError::TimedOut)), closed);
    assert_eq!(conclude(Err(ConnectError::ChannelClosed)), closed);
    assert_eq!(conclude(Err(ConnectError::NotSent {
            reason: "gone".to_string()
        })), closed);
}
