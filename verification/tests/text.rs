use chilsonite::text::{
    concat3, decode_text, has_prefix, labelled, number, same_text, strip_repeated, without_char,
    Utf8Fault,
};

#[test]
fn numbers_are_written_in_a_radix() {
    assert_eq!(number(0, 10), "0");
    assert_eq!(number(65535, 10), "65535");
    assert_eq!(number(65535, 16), "ffff");
    assert_eq!(number(0x10a, 16), "10a");
    assert_eq!(number(5, 2), "101");
    assert_eq!(number(u64::MAX, 10), "18446744073709551615");
}

#[test]
fn prefixes_are_found() {
    assert!(has_prefix("agent_1", "agent_"));
    assert!(has_prefix("agent_", "agent_"));
    assert!(!has_prefix("agent", "agent_"));
    assert!(!has_prefix("Agent_1", "agent_"));
    assert!(has_prefix("anything", ""));
}

#[test]
fn repeated_prefixes_are_stripped() {
    assert_eq!(strip_repeated("country_country_JP", "country_"), "JP");
    assert_eq!(strip_repeated("JP", "country_"), "JP");
    assert_eq!(strip_repeated("country_", "country_"), "");
    assert_eq!(strip_repeated("é_é_x", "é_"), "x");
    assert_eq!(strip_repeated("abc", ""), "abc");
}

#[test]
fn texts_are_compared() {
    assert!(same_text("all", "all"));
    assert!(!same_text("all", "al"));
    assert!(!same_text("all", "alL"));
    assert!(same_text("日本", "日本"));
}

#[test]
fn characters_are_removed() {
    assert_eq!(without_char("a-b--c-", '-'), "abc");
    assert_eq!(without_char("日-本", '-'), "日本");
    assert_eq!(without_char("", '-'), "");
}

#[test]
fn utf8_is_decoded() {
    assert_eq!(decode_text("日本".as_bytes().to_vec()), Ok("日本".to_string()));
    assert_eq!(decode_text(vec![]), Ok(String::new()));
    assert_eq!(
        decode_text(vec![b'a', 0xc3, 0x28]),
        Err(Utf8Fault {
            valid_up_to: 1,
            error_len: Some(1)
        })
    );
    assert_eq!(
        decode_text(vec![0xe6, 0x97]),
        Err(Utf8Fault {
            valid_up_to: 0,
            error_len: None
        })
    );
}

#[test]
fn utf8_faults_are_described_as_the_standard_library_does() {
    for bytes in [
        vec![0xff],
        vec![b'a', b'b', 0xe6, 0x97],
        vec![0xe6, 0x97, 0x28],
        vec![0xf0, 0x9f, 0x98, 0x28],
        vec![b'x', 0x80, b'y'],
        vec![0xed, 0xa0, 0x80],
    ] {
        let expected = String::from_utf8(bytes.clone()).unwrap_err().to_string();
        assert_eq!(decode_text(bytes).unwrap_err().message(), expected);
    }
    assert_eq!(
        decode_text(vec![b'a', 0xff]).unwrap_err().message(),
        "invalid utf-8 sequence of 1 bytes from index 1"
    );
    assert_eq!(
        decode_text(vec![b'a', b'b', 0xe6]).unwrap_err().message(),
        "incomplete utf-8 byte sequence from index 2"
    );
}

#[test]
fn texts_are_joined() {
    assert_eq!(concat3("[", "::1", "]"), "[::1]");
    assert_eq!(labelled("a: ", "b"), "a: b");
}
