use chilsonite::cicada::handshake::{HandshakeError, HandshakeState};
use chilsonite::text::Utf8Fault;

/// Feeds `input` piece by piece; gives what was sent and how it ended.
fn run(input: &[u8]) -> (Vec<u8>, Result<Option<(Option<String>, usize)>, HandshakeError>) {
    let mut state = HandshakeState::Greeting;
    let mut sent = Vec::new();
    let mut at = 0;
    loop {
        if let HandshakeState::Done { username } = state {
            return (sent, Ok(Some((username, at))));
        }
        let n = state.needed();
        if input.len() - at < n {
            return (sent, Ok(None));
        }
        match state.advance(input[at..at + n].to_vec()) {
            Ok(step) => {
                sent.extend_from_slice(&step.reply);
                state = step.state;
                at += n;
            }
            Err(e) => return (sent, Err(e)),
        }
    }
}

#[test]
fn greeting_without_password_method_completes_at_once() {
    assert_eq!(run(&[5, 1, 0]), (vec![5, 0], Ok(Some((None, 3)))));
    assert_eq!(run(&[5, 0]), (vec![5, 0], Ok(Some((None, 2)))));
    assert_eq!(run(&[5, 2, 0, 1, 99]), (vec![5, 0], Ok(Some((None, 4)))));
}

#[test]
fn username_is_read_and_any_password_is_accepted() {
    let mut input = vec![5, 2, 0, 2, 1, 3];
    input.extend_from_slice(b"all");
    input.extend_from_slice(&[2, b'p', b'w']);
    let n = input.len();
    assert_eq!(
        run(&input),
        (vec![5, 2, 1, 0], Ok(Some((Some("all".to_string()), n))))
    );
    input[n - 1] = 0xff;
    assert_eq!(
        run(&input),
        (vec![5, 2, 1, 0], Ok(Some((Some("all".to_string()), n))))
    );
}

#[test]
fn empty_username_and_password_are_accepted() {
    assert_eq!(
        run(&[5, 1, 2, 1, 0, 0]),
        (vec![5, 2, 1, 0], Ok(Some((Some(String::new()), 6))))
    );
}

#[test]
fn other_socks_version_is_refused() {
    assert_eq!(
        run(&[4, 1, 0]),
        (vec![], Err(HandshakeError::UnsupportedVersion(4)))
    );
}

#[test]
fn other_auth_version_is_refused_after_the_method_reply() {
    assert_eq!(
        run(&[5, 1, 2, 5, 0]),
        (vec![5, 2], Err(HandshakeError::UnsupportedAuthVersion(5)))
    );
}

#[test]
fn username_that_is_not_utf8_is_refused() {
    assert_eq!(
        run(&[5, 1, 2, 1, 2, 0xff, 0xfe, 0]),
        (
            vec![5, 2],
            Err(HandshakeError::InvalidUsername(Utf8Fault {
                valid_up_to: 0,
                error_len: Some(1)
            }))
        )
    );
}

#[test]
fn unfinished_handshake_waits() {
    assert_eq!(run(&[5]), (vec![], Ok(None)));
    assert_eq!(run(&[5, 2, 0]), (vec![], Ok(None)));
    assert_eq!(run(&[5, 1, 2, 1, 3, b'a']), (vec![5, 2], Ok(None)));
}

#[test]
fn handshake_errors_have_their_texts() {
    let message = |input: &[u8]| run(input).1.unwrap_err().message();
    assert_eq!(message(&[4, 1, 0]), "Unsupported SOCKS version: 4");
    assert_eq!(message(&[5, 1, 2, 7, 0]), "Unsupported auth version: 7");
    assert_eq!(
        message(&[5, 1, 2, 1, 2, b'a', 0xfe, 0]),
        "invalid utf-8 sequence of 1 bytes from index 1"
    );
}
