use chilsonite::cicada::relay::{handle_client_message, handle_client_read, ClientWrite};
use chilsonite::garadama::connect::ConnectionMap;
use chilsonite::garadama::relay::{handle_data_request, handle_target_read, TargetWrite};
use chilsonite::payload::Payload;
use chilsonite::transfer::{decode_chunk, reads_on, ChunkStream, ReadOutcome, CHUNK_SIZE};

#[test]
fn client_bytes_become_numbered_chunks() {
    let mut stream = ChunkStream::new("r1");
    for (i, (bytes, text)) in [("hello", "aGVsbG8="), ("hi", "aGk="), ("abc", "YWJj")]
        .iter()
        .enumerate()
    {
        let step = handle_client_read(&mut stream, ReadOutcome::Bytes(bytes.as_bytes().to_vec()));
        assert!(!step.done);
        assert_eq!(
            step.payload,
            Some(Payload::DataRequestChunk {
                request_id: "r1".to_string(),
                chunk_id: i as u32 + 1,
                data: text.to_string(),
            })
        );
    }
}

#[test]
fn end_of_the_client_is_reported() {
    let mut stream = ChunkStream::new("r1");
    let step = handle_client_read(&mut stream, ReadOutcome::Bytes(vec![]));
    assert!(step.done);
    assert_eq!(
        step.payload,
        Some(Payload::ClientDisconnect {
            request_id: "r1".to_string()
        })
    );
}

#[test]
fn failed_read_from_the_client_is_not_reported() {
    let mut stream = ChunkStream::new("r1");
    let step = handle_client_read(&mut stream, ReadOutcome::Failed("reset".to_string()));
    assert!(step.done);
    assert_eq!(step.payload, None);
}

#[test]
fn target_bytes_become_numbered_chunks() {
    let mut stream = ChunkStream::new("r2");
    for i in 1..=3 {
        let step = handle_target_read(&mut stream, ReadOutcome::Bytes(vec![0xfb, 0xff]));
        assert!(!step.done);
        assert_eq!(
            step.payload,
            Payload::DataResponseChunk {
                request_id: "r2".to_string(),
                chunk_id: i,
                data: "+/8=".to_string(),
            }
        );
    }
    assert!(!stream.exhausted());
    assert_eq!(stream.request_id(), "r2");
}

#[test]
fn end_and_failure_of_the_target_are_reported() {
    let mut stream = ChunkStream::new("r2");
    let step = handle_target_read(&mut stream, ReadOutcome::Bytes(vec![]));
    assert!(step.done);
    assert_eq!(
        step.payload,
        Payload::DataResponseTransferComplete {
            request_id: "r2".to_string(),
            success: true,
            error_message: None,
        }
    );
    let step = handle_target_read(&mut stream, ReadOutcome::Failed("reset".to_string()));
    assert!(step.done);
    assert_eq!(
        step.payload,
        Payload::DataResponseTransferComplete {
            request_id: "r2".to_string(),
            success: false,
            error_message: Some("reset".to_string()),
        }
    );
}

#[test]
fn messages_for_the_client_are_written() {
    let chunk = |data: &str| Payload::DataResponseChunk {
        request_id: "r".to_string(),
        chunk_id: 1,
        data: data.to_string(),
    };
    match handle_client_message(chunk("aGVsbG8=")) {
        ClientWrite::Write(bytes) => assert_eq!(bytes, b"hello"),
        other => panic!("{:?}", other),
    }
    assert!(matches!(
        handle_client_message(chunk("aGVsbG8")),
        ClientWrite::Skip(_)
    ));
    assert!(matches!(
        handle_client_message(Payload::ClientDisconnect {
            request_id: "r".to_string()
        }),
        ClientWrite::Ignore
    ));
    match handle_client_message(Payload::DataResponseTransferComplete {
        request_id: "r".to_string(),
        success: false,
        error_message: Some("reset".to_string()),
    }) {
        ClientWrite::Finish {
            success,
            error_message,
        } => {
            assert!(!success);
            assert_eq!(error_message.as_deref(), Some("reset"));
        }
        other => panic!("{:?}", other),
    }
}

#[test]
fn data_for_a_target_is_written_to_its_connection() {
    let mut connections: ConnectionMap<u8> = ConnectionMap::new();
    connections.insert("r1".to_string(), 4);
    match handle_data_request("r1", "aGk=", &connections) {
        TargetWrite::Write { writer, bytes } => {
            assert_eq!(*writer, 4);
            assert_eq!(bytes, b"hi");
        }
        other => panic!("{:?}", other),
    }
    assert!(matches!(
        handle_data_request("r2", "aGk=", &connections),
        TargetWrite::NotConnected
    ));
    assert!(matches!(
        handle_data_request("r2", "!", &connections),
        TargetWrite::Unreadable(_)
    ));
}

#[test]
fn undecodable_data_is_found_out() {
    assert!(decode_chunk("aGk").is_err());
    assert!(decode_chunk("aGl=").is_err());
    assert!(decode_chunk("a Gk=").is_err());
    assert_eq!(decode_chunk("").unwrap(), Vec::<u8>::new());
}

#[test]
fn bytes_survive_the_way_in_both_directions() {
    let bytes: Vec<u8> = (0..CHUNK_SIZE).map(|i| (i * 7 % 256) as u8).collect();
    let mut connections: ConnectionMap<()> = ConnectionMap::new();
    connections.insert("r".to_string(), ());
    let mut up = ChunkStream::new("r");
    let mut down = ChunkStream::new("r");
    let mut target_got = Vec::new();
    let mut client_got = Vec::new();
    for n in [1, 2, 3, 500, CHUNK_SIZE] {
        let read = handle_client_read(&mut up, ReadOutcome::Bytes(bytes[..n].to_vec()));
        if let Some(Payload::DataRequestChunk {
            request_id, data, ..
        }) = read.payload
        {
            if let TargetWrite::Write { bytes, .. } =
                handle_data_request(&request_id, &data, &connections)
            {
                target_got.extend_from_slice(&bytes);
            }
        }
        let read = handle_target_read(&mut down, ReadOutcome::Bytes(bytes[..n].to_vec()));
        if let ClientWrite::Write(bytes) = handle_client_message(read.payload) {
            client_got.extend_from_slice(&bytes);
        }
    }
    let mut expected = Vec::new();
    for n in [1, 2, 3, 500, CHUNK_SIZE] {
        expected.extend_from_slice(&bytes[..n]);
    }
    assert_eq!(target_got, expected);
    assert_eq!(client_got, expected);
}

#[test]
fn every_digit_of_base64_is_the_standard_one() {
    let mut stream = ChunkStream::new("r");
    let mut bytes = Vec::new();
    for group in 0..16u32 {
        let bits = (4 * group) << 18 | (4 * group + 1) << 12 | (4 * group + 2) << 6 | (4 * group + 3);
        bytes.extend_from_slice(&bits.to_be_bytes()[1..]);
    }
    let chunk = stream.chunk(&bytes);
    assert_eq!(
        chunk.data,
        "ABCDEFGHIJKLMNOPQRSTUVWXYZabcdefghijklmnopqrstuvwxyz0123456789+/"
    );
    assert_eq!(decode_chunk(&chunk.data).unwrap(), bytes);
}

#[test]
fn only_the_canonical_base64_text_is_read() {
    assert_eq!(decode_chunk("AQ==").unwrap(), vec![1]);
    assert_eq!(decode_chunk("AQI=").unwrap(), vec![1, 2]);
    assert_eq!(decode_chunk("AQID").unwrap(), vec![1, 2, 3]);
    for text in [
        "AQ", "AQ=", "AR==", "AQJ=", "AQI", "A===", "====", "AQ==AQ==", "AQID=", "AQID====",
        "AQ=I", "-_8=", "AQID\n", "A",
    ] {
        assert!(decode_chunk(text).is_err(), "{}", text);
    }
}

#[test]
fn reading_stops_at_the_end_or_at_a_failed_send() {
    assert!(reads_on(false, true));
    assert!(!reads_on(true, true));
    assert!(!reads_on(false, false));
    assert!(!reads_on(true, false));
}

#[test]
fn writing_stops_at_the_end_or_at_a_failed_write() {
    let chunk = |data: &str| {
        handle_client_message(Payload::DataResponseChunk {
            request_id: "r".to_string(),
            chunk_id: 1,
            data: data.to_string(),
        })
    };
    assert!(chunk("aGk=").writes_on(true));
    assert!(!chunk("aGk=").writes_on(false));
    assert!(chunk("?").writes_on(true));
    let ignored = handle_client_message(Payload::Command {
        command: "c".to_string(),
    });
    assert!(ignored.writes_on(true));
    let end = handle_client_message(Payload::DataResponseTransferComplete {
        request_id: "r".to_string(),
        success: true,
        error_message: None,
    });
    assert!(!end.writes_on(true));
}
