//! The state of the terminal client: the line being typed and its cursor,
//! the chat and log lines received, the selected tab and the network
//! counters, and how key presses and engine events change them.
use vstd::prelude::*;
use vstd::utf8::encode_utf8;
use crate::ids::{fresh_id, is_uuid_v4_text};
pub use crate::network::broadcast::{ChatMessage, EngineEvent, LogMessage, StatsMessage, UserMessage};
use crate::text::{chars_of, push_str, string_of};

verus! {

/// The tabs of the client.
#[derive(Clone, Copy, Debug, PartialEq, Eq, Structural)]
pub enum SelectedTab {
    Chat,
    Logs,
}

impl SelectedTab {
    /// The tab after this one; the last tab has no next tab and stays
    /// selected.
    pub fn next(self) -> (t: SelectedTab)
        ensures
            t == self.next_spec(),
            self == SelectedTab::Chat ==> t == SelectedTab::Logs,
            self == SelectedTab::Logs ==> t == SelectedTab::Logs,
    {
        match self {
            SelectedTab::Chat => SelectedTab::Logs,
            SelectedTab::Logs => self,
        }
    }

    /// The position of the tab in the tab bar.
    pub fn index(self) -> (i: usize)
        ensures
            self == SelectedTab::Chat ==> i == 0,
            self == SelectedTab::Logs ==> i == 1,
    {
        match self {
            SelectedTab::Chat => 0,
            SelectedTab::Logs => 1,
        }
    }

    /// The tab's title.
    pub fn name(self) -> (s: &'static str)
        ensures
            self == SelectedTab::Chat ==> s@ == "Chat"@,
            self == SelectedTab::Logs ==> s@ == "Logs"@,
    {
        match self {
            SelectedTab::Chat => "Chat",
            SelectedTab::Logs => "Logs",
        }
    }
}

/// How typed keys are interpreted; there is one mode.
#[derive(Clone, Copy, Debug, PartialEq, Eq, Structural)]
pub enum InputMode {
    Normal,
}

/// The most log lines kept; older ones are dropped first.
pub const MAX_LOGS: u32 = 1000;

/// A key of the keyboard, as far as the client tells keys apart.
#[derive(Clone, Copy, Debug, PartialEq, Eq, Structural)]
pub enum Key {
    Char(char),
    Backspace,
    Enter,
    Left,
    Right,
    Up,
    Down,
    Tab,
    Esc,
    Other,
}

/// A keyboard event: the key, whether Control was the only modifier held,
/// and whether it is a press (rather than a repeat or release).
#[derive(Clone, Copy, Debug, PartialEq, Eq, Structural)]
pub struct KeyPress {
    pub code: Key,
    pub control_only: bool,
    pub is_press: bool,
}

/// What the client does after a key press, beyond its own state.
#[derive(Clone, Debug, PartialEq, Eq)]
pub enum KeyOutcome {
    /// Leave the client.
    Quit,
    /// Nothing more than drawing again.
    Redraw,
    /// Scroll the visible list one line down (and follow new lines).
    ScrollDown,
    /// Scroll the visible list one line up (and stop following).
    ScrollUp,
    /// Send this chat line to the room.
    Send(String),
}

/// The client's state.
pub struct App {
    input: String,
    character_index: usize,
    input_mode: InputMode,
    messages: Vec<ChatMessage>,
    selected_tab: SelectedTab,
    logs: Vec<String>,
    auto_scroll: bool,
    stats: StatsMessage,
}

/// The text `Me`, the sender of the user's own chat lines.
pub open spec fn me() -> Seq<char> {
    seq!['M', 'e']
}

/// The log after receiving `line`: appended, and the oldest line dropped
/// when there are then more than `MAX_LOGS`.
pub open spec fn log_after(logs: Seq<Seq<char>>, line: Seq<char>) -> Seq<Seq<char>> {
    if logs.len() + 1 > MAX_LOGS {
        logs.push(line).drop_first()
    } else {
        logs.push(line)
    }
}

/// `s` shortened to its last `max` characters behind `...` when it is
/// longer than that.
pub open spec fn truncated_start(s: Seq<char>, max: nat) -> Seq<char> {
    if s.len() <= max {
        s
    } else {
        seq!['.', '.', '.'] + s.skip(s.len() - max)
    }
}

/// The label shown for a sender: names of more than eight bytes are cut to
/// their last eight characters.
pub open spec fn sender_label(sender: Seq<char>) -> Seq<char> {
    if encode_utf8(sender).len() > 8 {
        truncated_start(sender, 8)
    } else {
        sender
    }
}

/// `s` shortened to its last `max` characters behind `...` when it has
/// more than `max` characters.
pub fn truncate_start(s: &str, max: usize) -> (r: String)
    ensures
        r@ == truncated_start(s@, max as nat),
{
    let v = chars_of(s);
    let count = v.len();
    if count <= max {
        return string_of(v.as_slice());
    }
    let mut out: Vec<char> = Vec::new();
    out.push('.');
    out.push('.');
    out.push('.');
    let start = count - max;
    let mut k = start;
    while k < count
        invariant
            count == v@.len(),
            start <= k <= count,
            out@ == seq!['.', '.', '.'] + v@.subrange(start as int, k as int),
        decreases count - k,
    {
        out.push(v[k]);
        assert(v@.subrange(start as int, k + 1) == v@.subrange(start as int, k as int).push(v@[k as int]));
        k = k + 1;
    }
    assert(v@.subrange(start as int, count as int) == v@.skip(start as int));
    string_of(out.as_slice())
}

/// The abstract state of the client.
pub struct AppView {
    /// The line being typed.
    pub input: Seq<char>,
    /// The cursor's position in the line, in characters.
    pub cursor: nat,
    /// The chat lines, oldest first.
    pub messages: Seq<ChatMessage>,
    /// The log lines kept, oldest first.
    pub logs: Seq<Seq<char>>,
    /// The selected tab.
    pub tab: SelectedTab,
    /// Whether the lists follow new lines.
    pub following: bool,
    /// The latest network counters.
    pub stats: StatsMessage,
}

impl View for App {
    type V = AppView;

    closed spec fn view(&self) -> AppView {
        AppView {
            input: self.input@,
            cursor: self.character_index as nat,
            messages: self.messages@,
            logs: self.logs@.map_values(|l: String| l@),
            tab: self.selected_tab,
            following: self.auto_scroll,
            stats: self.stats,
        }
    }
}

impl App {
    /// The cursor lies within the line, and no more than `MAX_LOGS` log
    /// lines are kept.
    pub closed spec fn wf(&self) -> bool {
        &&& self.character_index <= self.input@.len()
        &&& self.input@.len() <= usize::MAX
        &&& self.logs@.len() <= MAX_LOGS
    }

    /// A client with an empty line, no lines received, the chat tab
    /// selected, following new lines, and all counters zero.
    pub fn new() -> (a: App)
        ensures
            a.wf(),
            a@ == (AppView {
                input: Seq::<char>::empty(),
                cursor: 0,
                messages: Seq::<ChatMessage>::empty(),
                logs: Seq::<Seq<char>>::empty(),
                tab: SelectedTab::Chat,
                following: true,
                stats: StatsMessage {
                    room_count: 0,
                    kademlia_count: 0,
                    gosibsub_count: 0,
                    active_ralays_count: 0,
                },
            }),
    {
        let a = App {
            input: String::new(),
            input_mode: InputMode::Normal,
            messages: Vec::new(),
            logs: Vec::new(),
            character_index: 0,
            selected_tab: SelectedTab::Chat,
            auto_scroll: true,
            stats: StatsMessage {
                room_count: 0,
                kademlia_count: 0,
                gosibsub_count: 0,
                active_ralays_count: 0,
            },
        };
        assert(a@.logs =~= Seq::<Seq<char>>::empty());
        a
    }

    /// A cursor position limited to the length of the line.
    fn clamp_cursor(&self, new_cursor_pos: usize) -> (p: usize)
        ensures
            p == if new_cursor_pos <= self.input@.len() {
                new_cursor_pos as int
            } else {
                self.input@.len() as int
            },
    {
        let count = chars_of(self.input.as_str()).len();
        if new_cursor_pos <= count {
            new_cursor_pos
        } else {
            count
        }
    }

    /// Moves the cursor one character left, stopping at the start.
    pub fn move_cursor_left(&mut self)
        requires
            old(self).wf(),
        ensures
            final(self).wf(),
            final(self)@ == (AppView {
                cursor: if old(self)@.cursor == 0 {
                    0
                } else {
                    (old(self)@.cursor - 1) as nat
                },
                ..old(self)@
            }),
    {
        let moved = self.character_index.saturating_sub(1);
        self.character_index = self.clamp_cursor(moved);
    }

    /// Moves the cursor one character right, stopping at the end.
    pub fn move_cursor_right(&mut self)
        requires
            old(self).wf(),
        ensures
            final(self).wf(),
            final(self)@ == (AppView {
                cursor: if old(self)@.cursor < old(self)@.input.len() {
                    old(self)@.cursor + 1
                } else {
                    old(self)@.cursor
                },
                ..old(self)@
            }),
    {
        let moved = self.character_index.saturating_add(1);
        self.character_index = self.clamp_cursor(moved);
    }

    /// Inserts a character at the cursor and moves the cursor past it.
    pub fn enter_char(&mut self, new_char: char)
        requires
            old(self).wf(),
        ensures
            final(self).wf(),
            final(self)@ == (AppView {
                input: old(self)@.input.take(old(self)@.cursor as int).push(new_char) + old(
                    self,
                )@.input.skip(old(self)@.cursor as int),
                cursor: old(self)@.cursor + 1,
                ..old(self)@
            }),
    {
        let v = chars_of(self.input.as_str());
        let ci = self.character_index;
        let mut out: Vec<char> = Vec::new();
        let mut k: usize = 0;
        while k < v.len()
            invariant
                ci <= v@.len(),
                k <= v@.len(),
                out@ == if k <= ci {
                    v@.take(k as int)
                } else {
                    v@.take(ci as int).push(new_char) + v@.subrange(ci as int, k as int)
                },
            decreases v@.len() - k,
        {
            if k == ci {
                out.push(new_char);
                assert(v@.subrange(ci as int, ci as int) =~= Seq::<char>::empty());
                assert(v@.take(ci as int).push(new_char) + v@.subrange(ci as int, ci as int) == out@);
            }
            let ghost before = out@;
            out.push(v[k]);
            if k < ci {
                assert(v@.take(k + 1) == v@.take(k as int).push(v@[k as int]));
            } else {
                assert(v@.subrange(ci as int, k + 1) == v@.subrange(ci as int, k as int).push(v@[k as int]));
            }
            k = k + 1;
        }
        if ci == v.len() {
            out.push(new_char);
            assert(v@.take(ci as int) == v@);
            assert(v@.skip(ci as int) =~= Seq::<char>::empty());
        } else {
            assert(v@.subrange(ci as int, v@.len() as int) == v@.skip(ci as int));
        }
        let new_len = out.len();
        assert(out@.len() == new_len);
        self.input = string_of(out.as_slice());
        self.move_cursor_right();
    }

    /// Deletes the character before the cursor, if any, and moves the
    /// cursor back over it.
    pub fn delete_char(&mut self)
        requires
            old(self).wf(),
        ensures
            final(self).wf(),
            old(self)@.cursor == 0 ==> final(self)@ == old(self)@,
            old(self)@.cursor > 0 ==> final(self)@ == (AppView {
                input: old(self)@.input.take(old(self)@.cursor - 1) + old(self)@.input.skip(
                    old(self)@.cursor as int,
                ),
                cursor: (old(self)@.cursor - 1) as nat,
                ..old(self)@
            }),
    {
        if self.character_index != 0 {
            let current_index = self.character_index;
            let from_left = current_index - 1;
            let v = chars_of(self.input.as_str());
            let mut out: Vec<char> = Vec::new();
            let mut k: usize = 0;
            while k < v.len()
                invariant
                    1 <= current_index <= v@.len(),
                    from_left == current_index - 1,
                    k <= v@.len(),
                    out@ == if k <= from_left {
                        v@.take(k as int)
                    } else if k <= current_index {
                        v@.take(from_left as int)
                    } else {
                        v@.take(from_left as int) + v@.subrange(current_index as int, k as int)
                    },
                decreases v@.len() - k,
            {
                if k < from_left {
                    out.push(v[k]);
                    assert(v@.take(k + 1) == v@.take(k as int).push(v@[k as int]));
                } else if k >= current_index {
                    out.push(v[k]);
                    assert(v@.subrange(current_index as int, k + 1) == v@.subrange(current_index as int, k as int).push(v@[k as int]));
                    if k == current_index {
                        assert(v@.subrange(current_index as int, current_index as int) =~= Seq::<char>::empty());
                    }
                }
                k = k + 1;
            }
            if current_index == v.len() {
                assert(v@.skip(current_index as int) =~= Seq::<char>::empty());
            } else {
                assert(v@.subrange(current_index as int, v@.len() as int) == v@.skip(current_index as int));
            }
            self.input = string_of(out.as_slice());
            let moved = self.character_index.saturating_sub(1);
            self.character_index = self.clamp_cursor(moved);
        }
    }

    /// Puts the cursor at the start of the line.
    fn reset_cursor(&mut self)
        ensures
            final(self).character_index == 0,
            final(self).input == old(self).input,
            final(self).messages == old(self).messages,
            final(self).logs == old(self).logs,
            final(self).selected_tab == old(self).selected_tab,
            final(self).auto_scroll == old(self).auto_scroll,
            final(self).stats == old(self).stats,
    {
        self.character_index = 0;
    }

    /// Adds the typed line to the chat as the user's own (with a fresh
    /// identifier) and clears the line.
    fn submit_message(&mut self)
        requires
            old(self).wf(),
        ensures
            final(self).wf(),
            final(self)@.input == Seq::<char>::empty(),
            final(self)@.cursor == 0,
            final(self)@.messages.len() == old(self)@.messages.len() + 1,
            final(self)@.messages.drop_last() == old(self)@.messages,
            final(self)@.messages.last().sender@ == me(),
            final(self)@.messages.last().content@ == old(self)@.input,
            is_uuid_v4_text(final(self)@.messages.last().id@),
            final(self)@.logs == old(self)@.logs,
            final(self)@.tab == old(self)@.tab,
            final(self)@.following == old(self)@.following,
            final(self)@.stats == old(self)@.stats,
    {
        let sender = string_of(vec!['M', 'e'].as_slice());
        let content = self.input.clone();
        self.messages.push(ChatMessage { id: fresh_id(), sender, content });
        self.input = String::new();
        self.reset_cursor();
        assert(self.messages@.drop_last() == old(self).messages@);
    }

    /// Selects the next tab.
    pub fn next_tab(&mut self)
        requires
            old(self).wf(),
        ensures
            final(self).wf(),
            final(self)@ == (AppView { tab: old(self)@.tab.next_spec(), ..old(self)@ }),
    {
        self.selected_tab = self.selected_tab.next();
    }
}

/// The effect of a key press on the client, and what it asks for.
pub open spec fn key_effect(pre: AppView, post: AppView, key: KeyPress, out: KeyOutcome) -> bool {
    if (key.control_only && key.code == Key::Char('q')) || key.code == Key::Esc {
        out is Quit && post == pre
    } else if !key.is_press {
        out is Redraw && post == pre
    } else {
        match key.code {
            Key::Down => out is ScrollDown && post == (AppView { following: true, ..pre }),
            Key::Up => out is ScrollUp && post == (AppView { following: false, ..pre }),
            Key::Enter => if pre.stats.room_count == 0 {
                out is Redraw && post == pre
            } else {
                &&& out matches KeyOutcome::Send(text)
                &&& text@ == pre.input
                &&& post.input == Seq::<char>::empty()
                &&& post.cursor == 0
                &&& post.messages.len() == pre.messages.len() + 1
                &&& post.messages.drop_last() == pre.messages
                &&& post.messages.last().sender@ == me()
                &&& post.messages.last().content@ == pre.input
                &&& is_uuid_v4_text(post.messages.last().id@)
                &&& post.logs == pre.logs
                &&& post.tab == pre.tab
                &&& post.following == pre.following
                &&& post.stats == pre.stats
            },
            Key::Tab => out is Redraw && post == (AppView { tab: pre.tab.next_spec(), ..pre }),
            Key::Char(c) => out is Redraw && post == (AppView {
                input: pre.input.take(pre.cursor as int).push(c) + pre.input.skip(pre.cursor as int),
                cursor: pre.cursor + 1,
                ..pre
            }),
            Key::Backspace => out is Redraw && if pre.cursor == 0 {
                post == pre
            } else {
                post == (AppView {
                    input: pre.input.take(pre.cursor - 1) + pre.input.skip(pre.cursor as int),
                    cursor: (pre.cursor - 1) as nat,
                    ..pre
                })
            },
            Key::Left => out is Redraw && post == (AppView {
                cursor: if pre.cursor == 0 {
                    0
                } else {
                    (pre.cursor - 1) as nat
                },
                ..pre
            }),
            Key::Right => out is Redraw && post == (AppView {
                cursor: if pre.cursor < pre.input.len() {
                    pre.cursor + 1
                } else {
                    pre.cursor
                },
                ..pre
            }),
            _ => out is Redraw && post == pre,
        }
    }
}

/// The effect of an engine event on the client.
pub open spec fn event_effect(pre: AppView, post: AppView, ev: EngineEvent) -> bool {
    match ev {
        EngineEvent::Chat(msg) => post == (AppView { messages: pre.messages.push(msg), ..pre }),
        EngineEvent::Log(msg) => post == (AppView { logs: log_after(pre.logs, msg.content@), ..pre }),
        EngineEvent::Stats(s) => post == (AppView { stats: s, ..pre }),
        EngineEvent::User(_) => post == pre,
    }
}

/// The text shown in the input box when the line is empty.
pub open spec fn placeholder(room_count: u32) -> Seq<char> {
    if room_count > 0 {
        "Write your message here"@
    } else {
        "Discovery peers... Please wait."@
    }
}

impl App {
    /// Handles one key press. Control-Q and Escape leave; of other events
    /// only presses count: the arrows move the cursor or scroll, Tab
    /// switches tabs, characters and Backspace edit the line, and Enter
    /// sends the line to the room once peers are in it.
    pub fn handle_key(&mut self, key: KeyPress) -> (out: KeyOutcome)
        requires
            old(self).wf(),
        ensures
            final(self).wf(),
            key_effect(old(self)@, final(self)@, key, out),
    {
        if (key.control_only && key.code == Key::Char('q')) || key.code == Key::Esc {
            return KeyOutcome::Quit;
        }
        if !key.is_press {
            return KeyOutcome::Redraw;
        }
        match key.code {
            Key::Down => {
                self.auto_scroll = true;
                KeyOutcome::ScrollDown
            },
            Key::Up => {
                self.auto_scroll = false;
                KeyOutcome::ScrollUp
            },
            Key::Enter => {
                if self.stats.room_count == 0 {
                    return KeyOutcome::Redraw;
                }
                let text = self.input.clone();
                self.submit_message();
                KeyOutcome::Send(text)
            },
            Key::Tab => {
                self.next_tab();
                KeyOutcome::Redraw
            },
            Key::Char(c) => {
                self.enter_char(c);
                KeyOutcome::Redraw
            },
            Key::Backspace => {
                self.delete_char();
                KeyOutcome::Redraw
            },
            Key::Left => {
                self.move_cursor_left();
                KeyOutcome::Redraw
            },
            Key::Right => {
                self.move_cursor_right();
                KeyOutcome::Redraw
            },
            _ => KeyOutcome::Redraw,
        }
    }

    /// Takes in an event of the engine: chat lines are appended, log lines
    /// are appended with the oldest dropped beyond `MAX_LOGS`, and counters
    /// replace the previous ones.
    pub fn handle_event(&mut self, event: EngineEvent)
        requires
            old(self).wf(),
        ensures
            final(self).wf(),
            event_effect(old(self)@, final(self)@, event),
    {
        match event {
            EngineEvent::Chat(msg) => {
                self.messages.push(msg);
            },
            EngineEvent::Log(msg) => {
                let ghost before = self.logs@;
                let ghost line = msg.content@;
                self.logs.push(msg.content);
                assert(self.logs@.map_values(|l: String| l@) =~= before.map_values(|l: String| l@).push(line));
                if self.logs.len() > MAX_LOGS as usize {
                    let ghost pushed = self.logs@;
                    self.logs.remove(0);
                    assert(self.logs@ =~= pushed.drop_first());
                    assert(self.logs@.map_values(|l: String| l@) =~= pushed.map_values(|l: String| l@).drop_first());
                }
            },
            EngineEvent::Stats(msg) => {
                self.stats = msg;
            },
            EngineEvent::User(_) => {},
        }
    }

    /// Follows new lines again (the list itself scrolls outside).
    pub fn scroll_down(&mut self)
        requires
            old(self).wf(),
        ensures
            final(self).wf(),
            final(self)@ == (AppView { following: true, ..old(self)@ }),
    {
        self.auto_scroll = true;
    }

    /// Stops following new lines (the list itself scrolls outside).
    pub fn scroll_up(&mut self)
        requires
            old(self).wf(),
        ensures
            final(self).wf(),
            final(self)@ == (AppView { following: false, ..old(self)@ }),
    {
        self.auto_scroll = false;
    }

    /// What the input box shows, and whether it is the placeholder: the
    /// typed line when there is one, otherwise an invitation to write (once
    /// peers are in the room) or to wait.
    pub fn input_line(&self) -> (r: (String, bool))
        ensures
            self@.input.len() > 0 ==> r.0@ == self@.input && !r.1,
            self@.input.len() == 0 ==> r.0@ == placeholder(self@.stats.room_count) && r.1,
    {
        if !self.input.as_str().is_empty() {
            (self.input.clone(), false)
        } else if self.stats.room_count > 0 {
            (String::from_str("Write your message here"), true)
        } else {
            (String::from_str("Discovery peers... Please wait."), true)
        }
    }

    /// The rows of the chat tab: for each line, the sender's label followed
    /// by `: `, and the text.
    pub fn chat_rows(&self) -> (rows: Vec<(String, String)>)
        ensures
            rows@.len() == self@.messages.len(),
            forall|i: int|
                0 <= i < rows@.len() ==> (#[trigger] rows@[i]).0@ == sender_label(
                    self@.messages[i].sender@,
                ) + seq![':', ' '] && rows@[i].1@ == self@.messages[i].content@,
    {
        let mut rows: Vec<(String, String)> = Vec::new();
        for i in 0..self.messages.len()
            invariant
                rows@.len() == i,
                forall|k: int|
                    0 <= k < i ==> (#[trigger] rows@[k]).0@ == sender_label(
                        self.messages@[k].sender@,
                    ) + seq![':', ' '] && rows@[k].1@ == self.messages@[k].content@,
        {
            let m = &self.messages[i];
            let label = if m.sender.as_str().as_bytes().len() > 8 {
                truncate_start(m.sender.as_str(), 8)
            } else {
                m.sender.clone()
            };
            assert(label@ == sender_label(m.sender@));
            let mut title = chars_of(label.as_str());
            title.push(':');
            title.push(' ');
            let row = (string_of(title.as_slice()), m.content.clone());
            assert(row.0@ == sender_label(self.messages@[i as int].sender@) + seq![':', ' ']);
            rows.push(row);
        }
        rows
    }

    /// The log lines, oldest first.
    pub fn log_rows(&self) -> (rows: Vec<String>)
        ensures
            rows@.map_values(|l: String| l@) == self@.logs,
    {
        let mut rows: Vec<String> = Vec::new();
        for i in 0..self.logs.len()
            invariant
                rows@.len() == i,
                forall|k: int| 0 <= k < i ==> #[trigger] rows@[k]@ == self.logs@[k]@,
        {
            rows.push(self.logs[i].clone());
        }
        assert(rows@.map_values(|l: String| l@) =~= self@.logs);
        rows
    }

    /// The line being typed.
    pub fn input(&self) -> (s: String)
        ensures
            s@ == self@.input,
    {
        self.input.clone()
    }

    /// The cursor's position in the line, in characters.
    pub fn cursor(&self) -> (c: usize)
        ensures
            c == self@.cursor,
    {
        self.character_index
    }

    /// The latest network counters.
    pub fn stats(&self) -> (s: StatsMessage)
        ensures
            s == self@.stats,
    {
        self.stats
    }

    /// The selected tab.
    pub fn selected_tab(&self) -> (t: SelectedTab)
        ensures
            t == self@.tab,
    {
        self.selected_tab
    }

    /// Whether the lists follow new lines.
    pub fn auto_scroll(&self) -> (b: bool)
        ensures
            b == self@.following,
    {
        self.auto_scroll
    }
}

impl SelectedTab {
    /// The tab after this one, or this one where it is the last.
    pub open spec fn next_spec(self) -> SelectedTab {
        match self {
            SelectedTab::Chat => SelectedTab::Logs,
            SelectedTab::Logs => self,
        }
    }
}


/// Switching tabs ends on the last tab and stays there: from any tab the
/// next one is the last, and the last tab is its own next.
pub proof fn lemma_next_tab_reaches_last(t: SelectedTab)
    ensures
        t.next_spec() == SelectedTab::Logs,
        t.next_spec().next_spec() == t.next_spec(),
{
}

/// The client never keeps more than `MAX_LOGS` log lines, and its cursor
/// stays within the line.
pub proof fn lemma_app_bounds(app: &App)
    requires
        app.wf(),
    ensures
        app@.logs.len() <= MAX_LOGS,
        app@.cursor <= app@.input.len(),
{
}

/// Receiving a log line keeps it as the newest, and keeps the log within
/// `MAX_LOGS` lines.
pub proof fn lemma_log_after(logs: Seq<Seq<char>>, line: Seq<char>)
    requires
        logs.len() <= MAX_LOGS,
    ensures
        log_after(logs, line).len() <= MAX_LOGS,
        log_after(logs, line).last() == line,
        logs.len() < MAX_LOGS ==> log_after(logs, line) == logs.push(line),
{
}

/// Whatever engine event the client handles, a log of at most `MAX_LOGS`
/// lines stays within `MAX_LOGS` lines. A log event appends its line as the
/// newest, and drops the oldest line exactly when the log was full, keeping
/// the others in order; any other event leaves the log as it was.
pub proof fn lemma_event_keeps_log_bound(pre: AppView, post: AppView, ev: EngineEvent)
    requires
        pre.logs.len() <= MAX_LOGS,
        event_effect(pre, post, ev),
    ensures
        post.logs.len() <= MAX_LOGS,
        ev is Log ==> post.logs.last() == ev->Log_0.content@,
        ev is Log && pre.logs.len() < MAX_LOGS ==> post.logs == pre.logs.push(ev->Log_0.content@),
        ev is Log && pre.logs.len() == MAX_LOGS ==> post.logs == pre.logs.skip(1).push(
            ev->Log_0.content@,
        ),
        !(ev is Log) ==> post.logs == pre.logs,
{
    if let EngineEvent::Log(m) = ev {
        if pre.logs.len() == MAX_LOGS {
            assert(pre.logs.push(m.content@).drop_first() =~= pre.logs.skip(1).push(m.content@));
        }
    }
}

/// Pressing Enter sends the typed line exactly when at least one peer is in
/// the room: then the outcome is that line, which joins the chat as the
/// user's own and leaves the input empty; with nobody in the room nothing
/// is sent and nothing changes.
pub proof fn lemma_enter_sends_with_any_peer(
    pre: AppView,
    post: AppView,
    control_only: bool,
    out: KeyOutcome,
)
    requires
        key_effect(pre, post, KeyPress { code: Key::Enter, control_only, is_press: true }, out),
    ensures
        pre.stats.room_count >= 1 ==> (out matches KeyOutcome::Send(text) && text@ == pre.input),
        pre.stats.room_count >= 1 ==> post.input.len() == 0 && post.cursor == 0
            && post.messages == pre.messages.push(post.messages.last())
            && post.messages.last().content@ == pre.input && post.messages.last().sender@ == me(),
        pre.stats.room_count == 0 ==> out is Redraw && post == pre,
{
    if pre.stats.room_count >= 1 {
        assert(post.messages =~= post.messages.drop_last().push(post.messages.last()));
    }
}

/// A counters event replaces all four counters with the ones it carries,
/// and leaves the line, the chat, the log, the tab and scrolling alone;
/// every other event leaves the counters as they were.
pub proof fn lemma_stats_event_replaces_counters(pre: AppView, post: AppView, ev: EngineEvent)
    requires
        event_effect(pre, post, ev),
    ensures
        ev matches EngineEvent::Stats(s) ==> post.stats.room_count == s.room_count
            && post.stats.kademlia_count == s.kademlia_count && post.stats.gosibsub_count
            == s.gosibsub_count && post.stats.active_ralays_count == s.active_ralays_count,
        ev is Stats ==> post.input == pre.input && post.cursor == pre.cursor && post.messages
            == pre.messages && post.logs == pre.logs && post.tab == pre.tab && post.following
            == pre.following,
        !(ev is Stats) ==> post.stats == pre.stats,
{
}

/// Typing a character and then pressing Backspace gives back the line and
/// the cursor as they were.
pub proof fn lemma_type_then_erase(
    s0: AppView,
    s1: AppView,
    s2: AppView,
    c: char,
    o1: KeyOutcome,
    o2: KeyOutcome,
)
    requires
        s0.cursor <= s0.input.len(),
        c != 'q',
        key_effect(s0, s1, KeyPress { code: Key::Char(c), control_only: false, is_press: true }, o1),
        key_effect(s1, s2, KeyPress { code: Key::Backspace, control_only: false, is_press: true }, o2),
    ensures
        s2.input == s0.input,
        s2.cursor == s0.cursor,
{
    let cur = s0.cursor as int;
    assert(s1.input.take(cur) =~= s0.input.take(cur));
    assert(s1.input.skip(cur + 1) =~= s0.input.skip(cur));
    assert(s0.input.take(cur) + s0.input.skip(cur) =~= s0.input);
}

} // verus!
