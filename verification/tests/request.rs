use chilsonite::cicada::request::{RequestError, RequestState};
use chilsonite::target::ConnectTarget;
use chilsonite::text::Utf8Fault;

fn run(input: &[u8]) -> Result<Option<(ConnectTarget, usize)>, RequestError> {
    let mut state = RequestState::Header;
    let mut at = 0;
    loop {
        if let RequestState::Done { target } = state {
            return Ok(Some((target, at)));
        }
        let n = state.needed();
        if input.len() - at < n {
            return Ok(None);
        }
        state = state.advance(input[at..at + n].to_vec())?;
        at += n;
    }
}

fn target(address_type: u8, addr: &str, port: u16) -> ConnectTarget {
    ConnectTarget {
        address_type,
        target_addr: addr.to_string(),
        target_port: port,
    }
}

#[test]
fn ipv4_request_is_read() {
    assert_eq!(
        run(&[5, 1, 0, 1, 127, 0, 0, 1, 0x1f, 0x90]),
        Ok(Some((target(1, "127.0.0.1", 8080), 10)))
    );
}

#[test]
fn domain_request_is_read() {
    let mut input = vec![5, 1, 7, 3, 11];
    input.extend_from_slice(b"example.com");
    input.extend_from_slice(&[0x01, 0xbb, 0x99]);
    assert_eq!(run(&input), Ok(Some((target(3, "example.com", 443), 18))));
}

#[test]
fn ipv6_request_is_read() {
    let mut input = vec![5, 1, 0, 4];
    input.extend_from_slice(&[0x20, 1, 0x0d, 0xb8, 0, 0, 0, 0, 0, 0, 0, 0, 0, 0, 0, 1]);
    input.extend_from_slice(&[0xff, 0xff]);
    assert_eq!(run(&input), Ok(Some((target(4, "2001:db8::1", 65535), 22))));
}

#[test]
fn version_is_checked_before_command_and_address_type() {
    assert_eq!(
        run(&[4, 2, 0, 9]),
        Err(RequestError::UnsupportedVersion(4))
    );
    assert_eq!(
        run(&[5, 2, 0, 9]),
        Err(RequestError::UnsupportedCommand(2))
    );
    assert_eq!(
        run(&[5, 1, 0, 2]),
        Err(RequestError::UnsupportedAddressType(2))
    );
}

#[test]
fn domain_that_is_not_utf8_is_refused() {
    assert_eq!(
        run(&[5, 1, 0, 3, 1, 0xff, 0, 80]),
        Err(RequestError::InvalidDomain(Utf8Fault {
            valid_up_to: 0,
            error_len: Some(1)
        }))
    );
}

#[test]
fn unfinished_request_waits() {
    assert_eq!(run(&[5, 1, 0]), Ok(None));
    assert_eq!(run(&[5, 1, 0, 1, 127, 0, 0]), Ok(None));
    assert_eq!(run(&[5, 1, 0, 1, 127, 0, 0, 1, 0]), Ok(None));
    assert_eq!(run(&[5, 1, 0, 3]), Ok(None));
}

#[test]
fn request_errors_have_their_texts() {
    let message = |input: &[u8]| run(input).unwrap_err().message();
    assert_eq!(
        message(&[4, 1, 0, 1]),
        "Unsupported SOCKS version in connect request: 4"
    );
    assert_eq!(message(&[5, 3, 0, 1]), "Unsupported SOCKS command: 3");
    assert_eq!(message(&[5, 1, 0, 200]), "Unsupported address type: 200");
    assert_eq!(
        message(&[5, 1, 0, 3, 1, 0xe6, 0, 80]),
        "incomplete utf-8 byte sequence from index 0"
    );
}
