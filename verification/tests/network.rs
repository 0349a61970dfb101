use guardi_vpn::network::broadcast::{status_line, ChatMessage, EngineEvent, LogMessage, StatsMessage};
use guardi_vpn::network::discovery::{beacon_message, is_announcement, is_announcement_text};
use guardi_vpn::network::p2p::{
    chat_from_room, network_stats, outgoing_room_message, relays_to_dial, should_query_providers,
};
use guardi_vpn::network::select::pick_best;
use guardi_vpn::network::xml::{MessageType, UserMessage};

#[test]
fn pick_best_takes_lowest_score() {
    let c = vec![("a".to_string(), 30), ("b".to_string(), 10), ("c".to_string(), 20)];
    assert_eq!(pick_best(c), Some("b".to_string()));
}

#[test]
fn pick_best_takes_first_of_equal_scores() {
    let c = vec![("a".to_string(), 5), ("b".to_string(), 3), ("c".to_string(), 3)];
    assert_eq!(pick_best(c), Some("b".to_string()));
}

#[test]
fn pick_best_of_nothing_is_none() {
    assert_eq!(pick_best(Vec::new()), None);
}

#[test]
fn beacon_is_recognised() {
    let m = beacon_message("node-1");
    assert_eq!(m, "IAM:node-1");
    assert!(is_announcement(m.as_bytes()));
    assert!(is_announcement(b"IAM:"));
    assert!(!is_announcement(b"IAM"));
    assert!(!is_announcement(b"iam:x"));
    assert!(!is_announcement(&[0xff, b'I', b'A', b'M', b':']));
}

#[test]
fn relays_not_yet_listened_on_are_dialled() {
    let external = vec!["/ip4/1.2.3.4/tcp/1".to_string(), "/dnsaddr/relay-a/p2p-circuit".to_string()];
    let boots = vec!["/dnsaddr/relay-a".to_string(), "/dnsaddr/relay-b".to_string(), "tcp/1|/dns".to_string()];
    assert_eq!(
        relays_to_dial(&external, &boots),
        vec!["/dnsaddr/relay-b".to_string()]
    );
    assert_eq!(relays_to_dial(&Vec::new(), &boots), boots);
}

#[test]
fn stats_count_buckets_and_room_peers() {
    let s = network_stats(&vec![3, 0, 4], &vec![true, false, true, true], 2);
    assert_eq!(s, StatsMessage { room_count: 3, kademlia_count: 7, gosibsub_count: 4, active_ralays_count: 2 });
    let z = network_stats(&Vec::new(), &Vec::new(), 0);
    assert_eq!(z, StatsMessage { room_count: 0, kademlia_count: 0, gosibsub_count: 0, active_ralays_count: 0 });
}

#[test]
fn providers_are_queried_once_reachable() {
    assert!(!should_query_providers(0));
    assert!(should_query_providers(1));
}

#[test]
fn room_message_becomes_chat_line() {
    let m = UserMessage { id: "42", m: "hello", t: MessageType::ChatPlain };
    let c: ChatMessage = chat_from_room(&m, "12D3KooW");
    assert_eq!(c.id, "42");
    assert_eq!(c.content, "hello");
    assert_eq!(c.sender, "12D3KooW");
    assert_eq!(MessageType::ChatPlain.name(), "ChatPlain");
}

#[test]
fn status_line_lists_the_counters() {
    let s = StatsMessage { room_count: 4, kademlia_count: 120, gosibsub_count: 7, active_ralays_count: 0 };
    assert_eq!(status_line(&s), "Guardi VPN 📚:120 🌐:7 📡:0 💬:4");
    let m = StatsMessage { room_count: u32::MAX, kademlia_count: 10, gosibsub_count: 9, active_ralays_count: 1000000 };
    assert_eq!(status_line(&m), "Guardi VPN 📚:10 🌐:9 📡:1000000 💬:4294967295");
}

#[test]
fn beacon_text_is_recognised() {
    assert!(is_announcement_text("IAM:laptop"));
    assert!(is_announcement_text("IAM:"));
    assert!(!is_announcement_text("IAM"));
    assert!(!is_announcement_text("xIAM:laptop"));
    assert!(!is_announcement_text("\u{FFFD}IAM:"));
}

#[test]
fn only_user_lines_are_published_with_fresh_ids() {
    let typed = EngineEvent::User(guardi_vpn::network::broadcast::UserMessage { content: "hello room".to_string() });
    let (id, content) = outgoing_room_message(&typed).expect("a user line is published");
    assert_eq!(content, "hello room");
    assert_eq!(id.len(), 36);
    assert_eq!(&id[14..15], "4");
    assert!(id.chars().enumerate().all(|(i, c)| if [8, 13, 18, 23].contains(&i) {
        c == '-'
    } else {
        c.is_ascii_digit() || ('a'..='f').contains(&c)
    }));
    let (other_id, _) = outgoing_room_message(&typed).expect("a user line is published");
    assert_ne!(id, other_id);
    assert_eq!(outgoing_room_message(&EngineEvent::Log(LogMessage { content: "x".to_string() })), None);
    let stats = StatsMessage { room_count: 1, kademlia_count: 0, gosibsub_count: 0, active_ralays_count: 0 };
    assert_eq!(outgoing_room_message(&EngineEvent::Stats(stats)), None);
    let chat = ChatMessage { id: "1".to_string(), sender: "s".to_string(), content: "c".to_string() };
    assert_eq!(outgoing_room_message(&EngineEvent::Chat(chat)), None);
}
