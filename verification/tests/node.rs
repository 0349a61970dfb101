use guardi_vpn::constructors::node::{Node, NodeAction, ReplayDecision, SocketAddress, Topic};
use guardi_vpn::constructors::stun::{parse_stun_response, stun_request, stun_would_fail, StunError};

fn node_with_hosts(hosts: &[&str]) -> Node {
    let mut n = Node::new(hosts.iter().map(|h| h.to_string()).collect());
    n.id = "me".to_string();
    n
}

fn addr(ip: u32, port: u16) -> SocketAddress {
    SocketAddress { ip, port }
}

#[test]
fn new_node_has_fresh_identity_and_no_peers() {
    let n = Node::new(vec!["google.com".to_string()]);
    assert_eq!(n.id.len(), 36);
    assert_eq!(&n.id[14..15], "4");
    assert_eq!(n.id.chars().filter(|c| *c == '-').count(), 4);
    assert_eq!(n.secret_key, "GUARDI_VPN");
    assert_eq!(n.public_addr, None);
    assert!(n.peer_registry.is_empty());
    assert!(n.network_availability.is_empty());
    let other = Node::new(Vec::new());
    assert_ne!(n.id, other.id);
}

#[test]
fn gossip_alive_announces_identity() {
    let n = node_with_hosts(&[]);
    assert_eq!(n.gossip_alive(), b"GUARDI_VPN:GOSSIP_ALIVE:me".to_vec());
}

#[test]
fn topic_names() {
    assert_eq!(Topic::GossipAlive.name().iter().collect::<String>(), "GOSSIP_ALIVE");
    assert_eq!(Topic::QueryHosts.name().iter().collect::<String>(), "QUERY_HOSTS");
    assert_eq!(Topic::HostsReport.name().iter().collect::<String>(), "HOSTS_REPORT");
    assert_eq!(Topic::ReplayTraffic.name().iter().collect::<String>(), "REPLAY_TRAFFIC");
    let v: Vec<char> = "HOSTS_REPORT".chars().collect();
    assert_eq!(Topic::parse(&v), Some(Topic::HostsReport));
    let w: Vec<char> = "hosts_report".chars().collect();
    assert_eq!(Topic::parse(&w), None);
}

#[test]
fn announcement_registers_peer_and_queries_its_hosts() {
    let mut n = node_with_hosts(&["google.com", "internal.corp"]);
    let src = addr(0x0a000002, 4242);
    let a = n.handle_datagram(b"GUARDI_VPN:GOSSIP_ALIVE:peer1", src);
    assert_eq!(
        a,
        NodeAction::Reply { to: src, payload: b"GUARDI_VPN:QUERY_HOSTS:google.com,internal.corp".to_vec() }
    );
    assert_eq!(n.peer_registry, vec![("peer1".to_string(), src)]);
    // A second announcement from a new address replaces the address.
    let src2 = addr(0x0a000003, 4242);
    n.handle_datagram(b"GUARDI_VPN:GOSSIP_ALIVE:peer1", src2);
    assert_eq!(n.peer_registry, vec![("peer1".to_string(), src2)]);
}

#[test]
fn own_announcement_is_ignored() {
    let mut n = node_with_hosts(&["a"]);
    let a = n.handle_datagram(b"GUARDI_VPN:GOSSIP_ALIVE:me", addr(1, 2));
    assert_eq!(a, NodeAction::Ignore);
    assert!(n.peer_registry.is_empty());
}

#[test]
fn foreign_secret_and_unknown_topic_are_ignored() {
    let mut n = node_with_hosts(&["a"]);
    assert_eq!(n.handle_datagram(b"OTHER:GOSSIP_ALIVE:x", addr(1, 2)), NodeAction::Ignore);
    assert_eq!(n.handle_datagram(b"GUARDI_VPN:HELLO:x", addr(1, 2)), NodeAction::Ignore);
    assert_eq!(n.handle_datagram(b"GUARDI_VPN", addr(1, 2)), NodeAction::Ignore);
    assert!(n.peer_registry.is_empty());
}

#[test]
fn query_is_answered_with_all_hosts_reachable() {
    let mut n = node_with_hosts(&[]);
    let src = addr(7, 8);
    let a = n.handle_datagram(b"GUARDI_VPN:QUERY_HOSTS:google.com,x.org", src);
    assert_eq!(
        a,
        NodeAction::Reply { to: src, payload: b"GUARDI_VPN:HOSTS_REPORT:google.com|true,x.org|true".to_vec() }
    );
    assert_eq!(n.handle_host_query(""), b"GUARDI_VPN:HOSTS_REPORT:|true".to_vec());
}

#[test]
fn report_from_registered_peer_is_recorded() {
    let mut n = node_with_hosts(&["google.com"]);
    let src = addr(9, 9);
    n.handle_datagram(b"GUARDI_VPN:GOSSIP_ALIVE:peer1", src);
    let a = n.handle_datagram(b"GUARDI_VPN:HOSTS_REPORT:google.com|true,bad,x.org|false", src);
    assert_eq!(a, NodeAction::Updated { peer: "peer1".to_string() });
    assert_eq!(
        n.network_availability,
        vec![(
            "peer1".to_string(),
            vec![("google.com".to_string(), true), ("x.org".to_string(), false)]
        )]
    );
    assert_eq!(n.get_peer_id_by_host(&"google.com".to_string()), Some(&"peer1".to_string()));
    assert_eq!(n.get_peer_id_by_host(&"x.org".to_string()), None);
    assert_eq!(n.get_peer_id_by_host(&"other".to_string()), None);
}

#[test]
fn later_report_replaces_earlier_one() {
    let mut n = node_with_hosts(&[]);
    n.handle_host_report("p".to_string(), "a|true,b|true");
    n.handle_host_report("p".to_string(), "a|false,a|true,c|yes");
    assert_eq!(
        n.network_availability,
        vec![("p".to_string(), vec![("a".to_string(), true), ("c".to_string(), false)])]
    );
}

#[test]
fn datagrams_that_cannot_be_handled() {
    let mut n = node_with_hosts(&[]);
    // No body.
    assert!(n.datagram_would_fail(b"GUARDI_VPN:QUERY_HOSTS", addr(1, 1)));
    assert_eq!(n.try_handle_datagram(b"GUARDI_VPN:QUERY_HOSTS", addr(1, 1)), None);
    // A report from an address no peer is registered under.
    assert!(n.datagram_would_fail(b"GUARDI_VPN:HOSTS_REPORT:a|true", addr(1, 1)));
    assert_eq!(n.try_handle_datagram(b"GUARDI_VPN:HOSTS_REPORT:a|true", addr(1, 1)), None);
    // An unknown topic without a body is merely ignored.
    assert!(!n.datagram_would_fail(b"GUARDI_VPN:OTHER", addr(1, 1)));
    assert_eq!(n.try_handle_datagram(b"GUARDI_VPN:OTHER", addr(1, 1)), Some(NodeAction::Ignore));
}

#[test]
fn replay_requests() {
    assert_eq!(Node::handle_replay(&[1, 2, 3, 4, 0]), ReplayDecision::TooShort);
    assert_eq!(
        Node::handle_replay(&[10, 0, 0, 1, 0, 22, 1]),
        ReplayDecision::Blocked { target: addr(0x0a000001, 22) }
    );
    assert_eq!(
        Node::handle_replay(&[93, 184, 216, 34, 0x01, 0xbb, b'h', b'i']),
        ReplayDecision::Forward { target: addr(0x5db8d822, 443), payload: b"hi".to_vec() }
    );
    assert_eq!(
        Node::handle_replay(&[1, 1, 1, 1, 0, 80]),
        ReplayDecision::Forward { target: addr(0x01010101, 80), payload: Vec::new() }
    );
}

#[test]
fn replay_datagram_is_forwarded_or_blocked() {
    let mut n = node_with_hosts(&[]);
    let src = addr(5, 5);
    let mut d = b"GUARDI_VPN:REPLAY_TRAFFIC:".to_vec();
    d.extend_from_slice(&[65, 66, 67, 68, 0, 80, b'G', b'E', b'T']);
    assert_eq!(
        n.handle_datagram(&d, src),
        NodeAction::Forward { target: addr(0x41424344, 80), payload: b"GET".to_vec(), reply_to: src }
    );
    let mut e = b"GUARDI_VPN:REPLAY_TRAFFIC:".to_vec();
    e.extend_from_slice(&[65, 66, 67, 68, 0, 25]);
    assert_eq!(n.handle_datagram(&e, src), NodeAction::Blocked { target: addr(0x41424344, 25) });
    assert_eq!(n.handle_datagram(b"GUARDI_VPN:REPLAY_TRAFFIC:ab", src), NodeAction::Ignore);
}

#[test]
fn packets_and_answers_are_framed() {
    let mut n = node_with_hosts(&[]);
    n.register_peer("p".to_string(), addr(3, 4));
    assert_eq!(
        n.send_packet("p", vec![1, 2, 3]),
        Some((addr(3, 4), [b"GUARDI_VPN:REPLAY_TRAFFIC:".as_slice(), &[1, 2, 3]].concat()))
    );
    assert_eq!(n.send_packet("q", vec![1]), None);
    assert_eq!(n.replay_response(&[]), None);
    assert_eq!(n.replay_response(b"ok"), Some(b"GUARDI_VPN:REPLAY_TRAFFIC:ok".to_vec()));
    assert_eq!(n.sync_hosts("q"), None);
    assert_eq!(n.get_peer_id_by_addr(addr(3, 4)), Some("p".to_string()));
    assert_eq!(n.get_peer_id_by_addr(addr(3, 5)), None);
}

#[test]
fn host_query_round_trip_between_two_nodes() {
    let mut a = node_with_hosts(&["google.com", "internal.corp"]);
    let mut b = node_with_hosts(&[]);
    b.id = "peer-b".to_string();
    let a_addr = addr(1, 4242);
    let b_addr = addr(2, 4242);
    // B announces itself to A; A registers B and sends its query.
    let query = match a.handle_datagram(&b.gossip_alive(), b_addr) {
        NodeAction::Reply { to, payload } => {
            assert_eq!(to, b_addr);
            payload
        }
        other => panic!("unexpected {:?}", other),
    };
    // B answers; A records the answer.
    let report = match b.handle_datagram(&query, a_addr) {
        NodeAction::Reply { payload, .. } => payload,
        other => panic!("unexpected {:?}", other),
    };
    assert_eq!(a.handle_datagram(&report, b_addr), NodeAction::Updated { peer: "peer-b".to_string() });
    assert_eq!(a.get_peer_id_by_host(&"google.com".to_string()), Some(&"peer-b".to_string()));
    assert_eq!(a.get_peer_id_by_host(&"internal.corp".to_string()), Some(&"peer-b".to_string()));
}

#[test]
fn stun_request_bytes() {
    let mut expected = vec![0x00, 0x01, 0x00, 0x00, 0x21, 0x12, 0xA4, 0x42];
    expected.extend_from_slice(b"STUN-ID-NODE");
    assert_eq!(stun_request(), expected);
}

#[test]
fn stun_response_is_read() {
    let mut buf = [0u8; 512];
    // Header, then an unrelated attribute of 4 bytes, then XOR-MAPPED-ADDRESS.
    let attrs: [u8; 20] = [
        0x80, 0x22, 0x00, 0x04, b'a', b'b', b'c', b'd', 0x00, 0x20, 0x00, 0x08, 0x00, 0x01, 0x21 ^ 0x1f,
        0x12 ^ 0x90, 203 ^ 0x21, 0 ^ 0x12, 113 ^ 0xA4, 7 ^ 0x42,
    ];
    buf[20..40].copy_from_slice(&attrs);
    assert_eq!(parse_stun_response(&buf, 40), Ok(SocketAddress { ip: 0xcb007107, port: 0x1f90 }));
    assert_eq!(parse_stun_response(&buf, 31), Err(StunError::NoMappedAddress));
    assert_eq!(parse_stun_response(&buf, 10), Err(StunError::NoMappedAddress));
    assert!(!stun_would_fail(&buf, 40));
}

#[test]
fn stun_answer_past_the_buffer_fails() {
    // The mapped-address attribute header is the last four received bytes.
    let mut buf = vec![0u8; 28];
    buf[24] = 0x00;
    buf[25] = 0x20;
    assert!(stun_would_fail(&buf, 28));
    let mut longer = buf.clone();
    longer.extend_from_slice(&[0, 1, 0x21, 0x12, 0x21, 0x12, 0xA4, 0x42]);
    assert!(!stun_would_fail(&longer, 28));
    assert_eq!(parse_stun_response(&longer, 28), Ok(SocketAddress { ip: 0, port: 0 }));
}

#[test]
fn sent_packet_is_replayed_by_the_peer() {
    let mut a = node_with_hosts(&[]);
    let mut b = node_with_hosts(&[]);
    b.id = "peer-b".to_string();
    let b_addr = addr(2, 4242);
    a.register_peer("peer-b".to_string(), b_addr);
    let packet = [93u8, 100, 116, 34, 0, 80, b'G', b'E', b'T'].to_vec();
    let (to, msg) = a.send_packet("peer-b", packet).unwrap();
    assert_eq!(to, b_addr);
    assert_eq!(
        b.handle_datagram(&msg, addr(1, 4242)),
        NodeAction::Forward { target: addr(0x5d647422, 80), payload: b"GET".to_vec(), reply_to: addr(1, 4242) }
    );
}

#[test]
fn packet_with_colon_byte_is_cut() {
    // An address octet of 58 is the byte `:`, which ends the message body.
    let mut a = node_with_hosts(&[]);
    let mut b = node_with_hosts(&[]);
    a.register_peer("p".to_string(), addr(2, 2));
    let (_, msg) = a.send_packet("p", vec![10, 58, 1, 1, 0, 80]).unwrap();
    b.id = "other".to_string();
    assert_eq!(b.handle_datagram(&msg, addr(1, 1)), NodeAction::Ignore);
}

#[test]
fn messages_are_handled_as_text() {
    let mut n = node_with_hosts(&["google.com"]);
    let src = addr(0x0a000001, 5000);
    assert!(!n.message_would_fail("GUARDI_VPN:GOSSIP_ALIVE:peer1", src));
    assert_eq!(
        n.handle_message("GUARDI_VPN:GOSSIP_ALIVE:peer1", src),
        NodeAction::Reply { to: src, payload: b"GUARDI_VPN:QUERY_HOSTS:google.com".to_vec() }
    );
    assert!(n.message_would_fail("GUARDI_VPN:QUERY_HOSTS", src));
    assert!(n.message_would_fail("GUARDI_VPN:HOSTS_REPORT:a|true", addr(9, 9)));
    assert!(!n.message_would_fail("GUARDI_VPN:HOSTS_REPORT:a|true", src));
    assert_eq!(n.handle_message("OTHER:QUERY_HOSTS:a", src), NodeAction::Ignore);
}

#[test]
fn datagram_is_read_with_replacement_characters() {
    let mut a = node_with_hosts(&[]);
    let mut b = node_with_hosts(&[]);
    let src = addr(7, 7);
    let from_bytes = a.handle_datagram(b"GUARDI_VPN:QUERY_HOSTS:a\xffb", src);
    let from_text = b.handle_message("GUARDI_VPN:QUERY_HOSTS:a\u{FFFD}b", src);
    assert_eq!(from_bytes, from_text);
    assert_eq!(
        from_text,
        NodeAction::Reply { to: src, payload: "GUARDI_VPN:HOSTS_REPORT:a\u{FFFD}b|true".as_bytes().to_vec() }
    );
}
