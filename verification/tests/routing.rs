use guardi_vpn::constructors::node::{Node, SocketAddress};
use guardi_vpn::constructors::sniffer::{Sniffer, TunPacket};

#[test]
fn routes_are_added_once() {
    let mut s = Sniffer::new(vec!["google.com".to_string()]);
    let added = s.register_routes(&"p1".to_string(), &vec!["1.1.1.1".to_string(), "2.2.2.2".to_string(), "1.1.1.1".to_string()]);
    assert_eq!(added, vec!["1.1.1.1".to_string(), "2.2.2.2".to_string()]);
    let again = s.register_routes(&"p2".to_string(), &vec!["2.2.2.2".to_string(), "3.3.3.3".to_string()]);
    assert_eq!(again, vec!["3.3.3.3".to_string()]);
    assert_eq!(
        s.ip_to_peer_id,
        vec![
            ("1.1.1.1".to_string(), "p1".to_string()),
            ("2.2.2.2".to_string(), "p1".to_string()),
            ("3.3.3.3".to_string(), "p2".to_string()),
        ]
    );
}

#[test]
fn hosts_with_a_peer_are_resolved() {
    let mut n = Node::new(vec![]);
    n.handle_host_report("p".to_string(), "a.com|true,b.com|false");
    let s = Sniffer::new(vec!["b.com".to_string(), "a.com".to_string(), "c.com".to_string()]);
    assert_eq!(s.hosts_to_resolve(&n), vec![("a.com".to_string(), "p".to_string())]);
}

#[test]
fn tun_packets_are_classified() {
    let mut buf = vec![0u8; 64];
    buf[16] = 10;
    buf[17] = 1;
    buf[18] = 2;
    buf[19] = 254;
    buf[22] = 0x10;
    buf[23] = 0x92; // 4242
    assert_eq!(Sniffer::classify_tun_packet(&buf, 40), TunPacket::Gossip);
    buf[23] = 0x93;
    assert_eq!(
        Sniffer::classify_tun_packet(&buf, 30),
        TunPacket::Forward { dest_ip: "10.1.2.254".to_string(), packet: buf[..30].to_vec() }
    );
}

#[test]
fn packets_follow_their_route() {
    let mut n = Node::new(vec![]);
    let peer_addr = SocketAddress { ip: 0x7f000001, port: 4242 };
    n.register_peer("p".to_string(), peer_addr);
    let mut s = Sniffer::new(vec![]);
    s.register_routes(&"p".to_string(), &vec!["8.8.8.8".to_string()]);
    assert_eq!(
        s.send_packet(&n, "8.8.8.8", vec![9]),
        Some((peer_addr, [b"GUARDI_VPN:REPLAY_TRAFFIC:".as_slice(), &[9]].concat()))
    );
    assert_eq!(s.send_packet(&n, "9.9.9.9", vec![9]), None);
    s.register_routes(&"ghost".to_string(), &vec!["4.4.4.4".to_string()]);
    assert_eq!(s.send_packet(&n, "4.4.4.4", vec![9]), None);
}
