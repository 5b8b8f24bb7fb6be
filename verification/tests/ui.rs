use aparte::ui::{
    conversation_window_action, input_action, key_command, needs_window, roster_groups, roster_update, submission,
    ChatEvent, ConversationId, ConversationKind, InputAction, Key, KeyCommand, RosterEvent, RosterUpdate, Submission,
    WindowAction, WindowList,
};

fn list(names: &[&str]) -> WindowList {
    let mut w = WindowList::new();
    for n in names {
        w.add_window(n.to_string());
    }
    w
}

#[test]
fn windows_cycle_without_wrapping() {
    let mut w = list(&["console", "alice", "room"]);
    assert_eq!(w.next_window(), Some("console".to_string()));
    assert_eq!(w.next_window(), Some("alice".to_string()));
    assert_eq!(w.next_window(), Some("room".to_string()));
    assert_eq!(w.next_window(), None);
    assert_eq!(w.prev_window(), Some("alice".to_string()));
    assert_eq!(w.prev_window(), Some("console".to_string()));
    assert_eq!(w.prev_window(), None);
}

#[test]
fn no_window_to_cycle() {
    let mut w = WindowList::new();
    assert_eq!(w.next_window(), None);
    assert_eq!(w.prev_window(), None);
    assert!(w.get_windows().is_empty());
}

#[test]
fn show_only_known_windows() {
    let mut w = list(&["console", "alice"]);
    assert!(w.show_window("alice"));
    assert!(!w.show_window("bob"));
    assert_eq!(w.prev_window(), Some("console".to_string()));
    assert_eq!(w.get_windows(), vec!["console".to_string(), "alice".to_string()]);
}

#[test]
fn unread_windows_in_order_of_messages() {
    let mut w = list(&["console", "alice", "bob", "room"]);
    w.change_window("console");
    w.message_from("bob");
    w.message_from("alice");
    w.message_from("bob");
    w.message_from("stranger");
    w.message_from("console");
    assert_eq!(w.next_unread(), Some("alice".to_string()));
    assert_eq!(w.next_unread(), Some("bob".to_string()));
    assert_eq!(w.next_unread(), None);
    assert_eq!(w.next_window(), Some("room".to_string()));
}

#[test]
fn shown_window_is_not_marked_unread() {
    let mut w = list(&["console", "alice"]);
    w.change_window("alice");
    w.message_from("alice");
    assert_eq!(w.next_unread(), None);
}

#[test]
fn keys_of_the_screen() {
    assert_eq!(key_command(Key::Char('\t')), KeyCommand::Complete);
    assert_eq!(key_command(Key::Char('\n')), KeyCommand::Submit);
    assert_eq!(key_command(Key::Alt('a')), KeyCommand::NextUnread);
    assert_eq!(key_command(Key::Alt('b')), KeyCommand::Forward);
    assert_eq!(key_command(Key::Char('x')), KeyCommand::Forward);
}

#[test]
fn keys_of_the_input_line() {
    assert_eq!(input_action(Key::Char('x')), Some(InputAction::Insert('x')));
    assert_eq!(input_action(Key::Ctrl('a')), Some(InputAction::Home));
    assert_eq!(input_action(Key::Ctrl('e')), Some(InputAction::End));
    assert_eq!(input_action(Key::Ctrl('b')), Some(InputAction::Left));
    assert_eq!(input_action(Key::Ctrl('f')), Some(InputAction::Right));
    assert_eq!(input_action(Key::Ctrl('h')), Some(InputAction::Backspace));
    assert_eq!(input_action(Key::Ctrl('w')), Some(InputAction::BackwardDeleteWord));
    assert_eq!(input_action(Key::Ctrl('u')), Some(InputAction::DeleteToStart));
    assert_eq!(input_action(Key::Ctrl('k')), Some(InputAction::DeleteToEnd));
    assert_eq!(input_action(Key::Up), Some(InputAction::Previous));
    assert_eq!(input_action(Key::Down), Some(InputAction::Next));
    assert_eq!(input_action(Key::Delete), Some(InputAction::Delete));
    assert_eq!(input_action(Key::PageUp), None);
    assert_eq!(input_action(Key::Ctrl('z')), None);
}

#[test]
fn submitted_lines() {
    assert_eq!(submission("hunter2", true), Submission::Password);
    assert_eq!(submission("", true), Submission::Password);
    assert_eq!(submission("/join room", false), Submission::Command);
    assert_eq!(submission("hello", false), Submission::Message);
    assert_eq!(submission(" /x", false), Submission::Message);
    assert_eq!(submission("", false), Submission::Nothing);
}

fn chat(address: &str) -> ConversationId {
    ConversationId { kind: ConversationKind::Chat, address: address.to_string() }
}

fn channel(address: &str) -> ConversationId {
    ConversationId { kind: ConversationKind::Channel, address: address.to_string() }
}

#[test]
fn chat_window_shows_its_own_messages() {
    let c = chat("juliet@capulet.lit");
    let incoming = ChatEvent::IncomingMessage { kind: ConversationKind::Chat, from: "juliet@capulet.lit".to_string() };
    let outgoing = ChatEvent::OutgoingMessage { kind: ConversationKind::Chat, to: "juliet@capulet.lit".to_string() };
    let other = ChatEvent::IncomingMessage { kind: ConversationKind::Chat, from: "romeo@montague.lit".to_string() };
    let from_channel =
        ChatEvent::IncomingMessage { kind: ConversationKind::Channel, from: "juliet@capulet.lit".to_string() };
    assert!(matches!(conversation_window_action(&c, &incoming), WindowAction::ShowMessage));
    assert!(matches!(conversation_window_action(&c, &outgoing), WindowAction::ShowMessage));
    assert!(matches!(conversation_window_action(&c, &other), WindowAction::Nothing));
    assert!(matches!(conversation_window_action(&c, &from_channel), WindowAction::Nothing));
}

#[test]
fn conversation_windows_scroll_on_page_keys() {
    for c in [chat("juliet@capulet.lit"), channel("room@conference.lit")] {
        assert!(matches!(conversation_window_action(&c, &ChatEvent::Key(Key::PageUp)), WindowAction::PageUp));
        assert!(matches!(conversation_window_action(&c, &ChatEvent::Key(Key::PageDown)), WindowAction::PageDown));
        assert!(matches!(conversation_window_action(&c, &ChatEvent::Key(Key::Up)), WindowAction::Nothing));
        assert!(matches!(conversation_window_action(&c, &ChatEvent::Other), WindowAction::Nothing));
    }
}

#[test]
fn channel_window_lists_its_occupants_by_role() {
    let c = channel("room@conference.lit");
    let here = ChatEvent::Occupant { channel: "room@conference.lit".to_string(), role: "moderator".to_string() };
    let elsewhere = ChatEvent::Occupant { channel: "hall@conference.lit".to_string(), role: "visitor".to_string() };
    match conversation_window_action(&c, &here) {
        WindowAction::AddOccupant { role } => assert_eq!(role, "moderator"),
        _ => panic!("occupant not listed"),
    }
    assert!(matches!(conversation_window_action(&c, &elsewhere), WindowAction::Nothing));
    let d = chat("room@conference.lit");
    assert!(matches!(conversation_window_action(&d, &here), WindowAction::Nothing));
    let msg = ChatEvent::OutgoingMessage { kind: ConversationKind::Channel, to: "room@conference.lit".to_string() };
    assert!(matches!(conversation_window_action(&c, &msg), WindowAction::ShowMessage));
}

#[test]
fn window_is_opened_once_per_conversation() {
    let known = vec!["console".to_string(), "juliet@capulet.lit".to_string()];
    assert!(!needs_window(&known, "juliet@capulet.lit"));
    assert!(!needs_window(&known, "console"));
    assert!(needs_window(&known, "romeo@montague.lit"));
    assert!(needs_window(&Vec::new(), "console"));
    assert_eq!(chat("juliet@capulet.lit").window_name(), "juliet@capulet.lit");
}

#[test]
fn contacts_go_into_their_groups() {
    assert_eq!(roster_groups(&vec!["Friends".to_string(), "Work".to_string()]), vec!["Friends", "Work"]);
    assert_eq!(roster_groups(&Vec::new()), vec!["Contacts"]);
}

#[test]
fn roster_groups_of_each_event() {
    match roster_update(&RosterEvent::Connected) {
        RosterUpdate::AddGroups(g) => assert_eq!(g, vec!["Windows", "Contacts", "Bookmarks"]),
        _ => panic!("no groups on connection"),
    }
    match roster_update(&RosterEvent::Contact { groups: vec!["Family".to_string()] }) {
        RosterUpdate::Insert(g) => assert_eq!(g, vec!["Family"]),
        _ => panic!("contact not inserted"),
    }
    match roster_update(&RosterEvent::Contact { groups: Vec::new() }) {
        RosterUpdate::Insert(g) => assert_eq!(g, vec!["Contacts"]),
        _ => panic!("contact not inserted"),
    }
    match roster_update(&RosterEvent::Bookmark) {
        RosterUpdate::Insert(g) => assert_eq!(g, vec!["Bookmarks"]),
        _ => panic!("bookmark not inserted"),
    }
    match roster_update(&RosterEvent::DeletedBookmark) {
        RosterUpdate::Remove(g) => assert_eq!(g, "Bookmarks"),
        _ => panic!("bookmark not removed"),
    }
    match roster_update(&RosterEvent::AddWindow) {
        RosterUpdate::Insert(g) => assert_eq!(g, vec!["Windows"]),
        _ => panic!("window not inserted"),
    }
    assert!(matches!(roster_update(&RosterEvent::Other), RosterUpdate::Nothing));
}
