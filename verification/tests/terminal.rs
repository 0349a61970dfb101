use guardi_vpn::terminal::user_input::{
    truncate_start, App, ChatMessage, EngineEvent, Key, KeyOutcome, KeyPress, LogMessage, SelectedTab, StatsMessage,
    UserMessage, MAX_LOGS,
};

fn press(code: Key) -> KeyPress {
    KeyPress { code, control_only: false, is_press: true }
}

fn type_text(app: &mut App, s: &str) {
    for c in s.chars() {
        assert_eq!(app.handle_key(press(Key::Char(c))), KeyOutcome::Redraw);
    }
}

fn room_stats(n: u32) -> StatsMessage {
    StatsMessage { room_count: n, kademlia_count: 1, gosibsub_count: 2, active_ralays_count: 3 }
}

#[test]
fn new_app_is_empty() {
    let a = App::new();
    assert_eq!(a.input(), "");
    assert_eq!(a.cursor(), 0);
    assert!(a.chat_rows().is_empty());
    assert!(a.log_rows().is_empty());
    assert_eq!(a.selected_tab(), SelectedTab::Chat);
    assert!(a.auto_scroll());
    assert_eq!(a.stats(), StatsMessage { room_count: 0, kademlia_count: 0, gosibsub_count: 0, active_ralays_count: 0 });
}

#[test]
fn editing_the_line() {
    let mut a = App::new();
    type_text(&mut a, "héllo");
    assert_eq!(a.input(), "héllo");
    assert_eq!(a.cursor(), 5);
    a.handle_key(press(Key::Left));
    a.handle_key(press(Key::Left));
    type_text(&mut a, "X");
    assert_eq!(a.input(), "hélXlo");
    assert_eq!(a.cursor(), 4);
    a.handle_key(press(Key::Backspace));
    assert_eq!(a.input(), "héllo");
    assert_eq!(a.cursor(), 3);
    for _ in 0..10 {
        a.handle_key(press(Key::Left));
    }
    assert_eq!(a.cursor(), 0);
    a.handle_key(press(Key::Backspace));
    assert_eq!(a.input(), "héllo");
    for _ in 0..10 {
        a.handle_key(press(Key::Right));
    }
    assert_eq!(a.cursor(), 5);
}

#[test]
fn quitting_and_releases() {
    let mut a = App::new();
    assert_eq!(a.handle_key(KeyPress { code: Key::Char('q'), control_only: true, is_press: true }), KeyOutcome::Quit);
    assert_eq!(a.handle_key(KeyPress { code: Key::Esc, control_only: false, is_press: false }), KeyOutcome::Quit);
    assert_eq!(a.handle_key(KeyPress { code: Key::Char('x'), control_only: false, is_press: false }), KeyOutcome::Redraw);
    assert_eq!(a.input(), "");
    type_text(&mut a, "q");
    assert_eq!(a.input(), "q");
}

#[test]
fn enter_sends_only_with_peers_in_room() {
    let mut a = App::new();
    type_text(&mut a, "hi");
    assert_eq!(a.handle_key(press(Key::Enter)), KeyOutcome::Redraw);
    assert_eq!(a.input(), "hi");
    a.handle_event(EngineEvent::Stats(room_stats(2)));
    assert_eq!(a.handle_key(press(Key::Enter)), KeyOutcome::Send("hi".to_string()));
    assert_eq!(a.input(), "");
    assert_eq!(a.cursor(), 0);
    assert_eq!(a.chat_rows(), vec![("Me: ".to_string(), "hi".to_string())]);
}

#[test]
fn tabs_and_scrolling() {
    let mut a = App::new();
    a.handle_key(press(Key::Tab));
    assert_eq!(a.selected_tab(), SelectedTab::Logs);
    a.handle_key(press(Key::Tab));
    assert_eq!(a.selected_tab(), SelectedTab::Logs);
    assert_eq!(SelectedTab::Chat.next(), SelectedTab::Logs);
    assert_eq!(SelectedTab::Logs.next(), SelectedTab::Logs);
    assert_eq!(SelectedTab::Logs.index(), 1);
    assert_eq!(SelectedTab::Chat.name(), "Chat");
    assert_eq!(a.handle_key(press(Key::Up)), KeyOutcome::ScrollUp);
    assert!(!a.auto_scroll());
    assert_eq!(a.handle_key(press(Key::Down)), KeyOutcome::ScrollDown);
    assert!(a.auto_scroll());
}

#[test]
fn events_update_the_client() {
    let mut a = App::new();
    a.handle_event(EngineEvent::Chat(ChatMessage { id: "1".into(), sender: "12D3KooWabcdefgh".into(), content: "yo".into() }));
    a.handle_event(EngineEvent::User(UserMessage { content: "ignored".into() }));
    a.handle_event(EngineEvent::Log(LogMessage { content: "started".into() }));
    assert_eq!(a.chat_rows(), vec![("...abcdefgh: ".to_string(), "yo".to_string())]);
    assert_eq!(a.log_rows(), vec!["started".to_string()]);
}

#[test]
fn log_keeps_the_newest_lines() {
    let mut a = App::new();
    for i in 0..(MAX_LOGS + 5) {
        a.handle_event(EngineEvent::Log(LogMessage { content: format!("line {}", i) }));
    }
    let rows = a.log_rows();
    assert_eq!(rows.len(), MAX_LOGS as usize);
    assert_eq!(rows[0], "line 5");
    assert_eq!(rows[rows.len() - 1], format!("line {}", MAX_LOGS + 4));
    a.handle_event(EngineEvent::Stats(room_stats(1)));
    a.handle_event(EngineEvent::User(UserMessage { content: "typed".into() }));
    assert_eq!(a.log_rows(), rows);
}

#[test]
fn input_line_and_placeholder() {
    let mut a = App::new();
    assert_eq!(a.input_line(), ("Discovery peers... Please wait.".to_string(), true));
    a.handle_event(EngineEvent::Stats(room_stats(1)));
    assert_eq!(a.input_line(), ("Write your message here".to_string(), true));
    type_text(&mut a, "x");
    assert_eq!(a.input_line(), ("x".to_string(), false));
}

#[test]
fn truncation_from_the_start() {
    assert_eq!(truncate_start("abc", 8), "abc");
    assert_eq!(truncate_start("abcdefgh", 8), "abcdefgh");
    assert_eq!(truncate_start("0123456789", 8), "...23456789");
    assert_eq!(truncate_start("ééééééééé", 8), "...éééééééé");
}

#[test]
fn sender_label_uses_byte_length() {
    let mut a = App::new();
    // Five two-byte characters: ten bytes, so the label is cut, though
    // only five characters long and thus kept whole.
    a.handle_event(EngineEvent::Chat(ChatMessage { id: "1".into(), sender: "ééééé".into(), content: "c".into() }));
    a.handle_event(EngineEvent::Chat(ChatMessage { id: "2".into(), sender: "short".into(), content: "d".into() }));
    assert_eq!(
        a.chat_rows(),
        vec![("ééééé: ".to_string(), "c".to_string()), ("short: ".to_string(), "d".to_string())]
    );
}
