use chilsonite::address::{host_port, ipv4, ipv6};
use chilsonite::cicada::settings::Settings;

fn groups(g: [u16; 8]) -> String {
    let mut bytes = Vec::new();
    for group in g {
        bytes.push((group >> 8) as u8);
        bytes.push((group & 0xff) as u8);
    }
    ipv6(&bytes)
}

#[test]
fn ipv4_is_written_as_a_dotted_quad() {
    assert_eq!(ipv4(&[192, 168, 0, 255]), "192.168.0.255");
    assert_eq!(ipv4(&[0, 0, 0, 0]), "0.0.0.0");
    assert_eq!(ipv4(&[10, 1, 99, 100]), "10.1.99.100");
}

#[test]
fn ipv6_without_zero_run_is_written_in_full() {
    assert_eq!(
        groups([0x2001, 0xdb8, 1, 2, 3, 4, 5, 6]),
        "2001:db8:1:2:3:4:5:6"
    );
    assert_eq!(groups([0xabcd, 0xef01, 0x2345, 0x6789, 0xabc, 0xd, 0xe0, 0xf]), "abcd:ef01:2345:6789:abc:d:e0:f");
}

#[test]
fn ipv6_single_zero_group_is_not_compressed() {
    assert_eq!(groups([1, 0, 3, 4, 5, 6, 7, 8]), "1:0:3:4:5:6:7:8");
}

#[test]
fn ipv6_longest_zero_run_is_compressed() {
    assert_eq!(groups([0, 0, 0, 0, 0, 0, 0, 0]), "::");
    assert_eq!(groups([0, 0, 0, 0, 0, 0, 0, 1]), "::1");
    assert_eq!(groups([1, 0, 0, 0, 0, 0, 0, 0]), "1::");
    assert_eq!(groups([0x2001, 0xdb8, 0, 0, 0, 0, 0, 1]), "2001:db8::1");
    assert_eq!(groups([1, 0, 0, 2, 0, 0, 0, 3]), "1:0:0:2::3");
}

#[test]
fn ipv6_first_of_equal_zero_runs_is_compressed() {
    assert_eq!(groups([1, 0, 0, 2, 3, 0, 0, 4]), "1::2:3:0:0:4");
    assert_eq!(groups([0, 0, 1, 2, 0, 0, 3, 4]), "::1:2:0:0:3:4");
}

#[test]
fn ipv4_mapped_address_ends_in_dotted_form() {
    assert_eq!(groups([0, 0, 0, 0, 0, 0xffff, 0xc0a8, 0x0001]), "::ffff:192.168.0.1");
    assert_eq!(groups([0, 0, 0, 0, 1, 0xffff, 0xc0a8, 0x0001]), "::1:ffff:c0a8:1");
}

#[test]
fn ports_are_written_in_decimal() {
    assert_eq!(host_port("example.com", 0), "example.com:0");
    assert_eq!(host_port("[::1]", 65535), "[::1]:65535");
}

#[test]
fn settings_give_both_addresses() {
    let settings = Settings {
        websocket_port: 3005,
        socks5_port: 3006,
        bind_address: "::".to_string(),
        connect_timeout_seconds: 10,
    };
    assert_eq!(settings.websocket_address(), ":::3005");
    assert_eq!(settings.socks5_address(), ":::3006");
}
