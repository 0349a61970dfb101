use guardi_vpn::interceptor::parser::{extract_hostname, try_extract_hostname};
use guardi_vpn::interceptor::sniffer::capture_packet;

fn packet_with_payload(payload: &[u8]) -> Vec<u8> {
    let mut p = vec![0u8; 54];
    p[30] = 192;
    p[31] = 168;
    p[32] = 0;
    p[33] = 7;
    p.extend_from_slice(payload);
    p
}

#[test]
fn short_packet_is_control() {
    assert_eq!(extract_hostname(vec![0u8; 39]), "Control");
    assert_eq!(extract_hostname(Vec::new()), "Control");
}

#[test]
fn packet_without_com_gives_destination() {
    let p = packet_with_payload(b"hello world");
    assert_eq!(extract_hostname(p), "192.168.0.7");
}

#[test]
fn packet_with_com_gives_host_window() {
    let p = packet_with_payload(b"GET / HTTP/1.1\r\nHost: example.com\r\n");
    assert_eq!(extract_hostname(p), "192.168.0.7 (Host: : example.com...)");
}

#[test]
fn host_window_at_start_is_trimmed() {
    let p = packet_with_payload(b"  x.com tail");
    assert_eq!(extract_hostname(p), "192.168.0.7 (Host: x.com...)");
}

#[test]
fn invalid_utf8_payload_is_decoded_lossily() {
    let p = packet_with_payload(&[0xff, b'a', b'.', b'c', b'o', b'm']);
    assert_eq!(extract_hostname(p), "192.168.0.7 (Host: \u{fffd}a.com...)");
}

#[test]
fn window_cutting_a_character_fails() {
    // "a", six two-byte characters, "x", then "com": the window starts inside a character.
    let mut payload = b"a".to_vec();
    for _ in 0..6 {
        payload.extend_from_slice("é".as_bytes());
    }
    payload.extend_from_slice(b"xcom");
    let p = packet_with_payload(&payload);
    assert_eq!(try_extract_hostname(p), None);
}

#[test]
fn packet_between_40_and_54_bytes_fails() {
    assert_eq!(try_extract_hostname(vec![1u8; 45]), None);
    assert_eq!(try_extract_hostname(vec![1u8; 30]), Some("Control".to_string()));
}

#[test]
fn capture_yields_fixed_header() {
    assert_eq!(capture_packet(3000), Ok(vec![0x45, 0x00, 0x00, 0x28, 0x00, 0x01]));
}
