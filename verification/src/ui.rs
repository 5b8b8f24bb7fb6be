//! Decisions of the chat screen: the list of windows with the current one
//! and the ones with unread messages, what a key does, and what a
//! submitted input line becomes.

use vstd::prelude::*;
use linked_hash_set::LinkedHashSet;
use crate::unicode::{chars_of, copy_str, str_eq};

verus! {

/// The insertion-ordered set of `linked_hash_set`, opaque here: what it
/// holds is known only through `set_order`.
#[verifier::external_type_specification]
#[verifier::external_body]
#[verifier::reject_recursive_types(T)]
#[verifier::reject_recursive_types(S)]
pub struct ExLinkedHashSet<T, S>(LinkedHashSet<T, S>);

/// The values of an insertion-ordered set, oldest first.
pub uninterp spec fn set_order(s: LinkedHashSet<u64>) -> Seq<u64>;

/// `LinkedHashSet::new`: an empty set.
#[verifier::external_body]
fn set_new() -> (r: LinkedHashSet<u64>)
    ensures
        set_order(r) == Seq::<u64>::empty(),
{
    LinkedHashSet::new()
}

/// `LinkedHashSet::insert`: the value is placed last whether or not it
/// was already in the set; returns whether it was absent. The set never
/// holds a value twice.
#[verifier::external_body]
fn set_insert(s: &mut LinkedHashSet<u64>, v: u64) -> (added: bool)
    ensures
        added == !set_order(*old(s)).contains(v),
        set_order(*final(s)) == set_order(*old(s)).filter(|x: u64| x != v).push(v),
        set_order(*final(s)).no_duplicates(),
{
    s.insert(v)
}

/// `LinkedHashSet::pop_front`: removes and returns the oldest value, or
/// `None` on an empty set.
#[verifier::external_body]
fn set_pop_front(s: &mut LinkedHashSet<u64>) -> (r: Option<u64>)
    ensures
        set_order(*old(s)).len() == 0 ==> r is None && set_order(*final(s)) == set_order(*old(s)),
        set_order(*old(s)).len() > 0 ==> r == Some(set_order(*old(s))[0]) && set_order(*final(s))
            == set_order(*old(s)).drop_first(),
{
    s.pop_front()
}

/// The windows of the screen, by name, in the order they were opened; the
/// one shown; and the windows with unread messages, by position, in the
/// order they got one.
pub struct WindowsView {
    pub windows: Seq<Seq<char>>,
    pub current: Option<Seq<char>>,
    pub unread: Seq<u64>,
}

pub struct WindowList {
    windows: Vec<String>,
    current: Option<String>,
    unread: LinkedHashSet<u64>,
}

pub open spec fn names(v: Seq<String>) -> Seq<Seq<char>> {
    v.map_values(|s: String| s@)
}

/// The first position of `w` in `ws`.
pub open spec fn first_position(ws: Seq<Seq<char>>, w: Seq<char>) -> int {
    choose|i: int| 0 <= i < ws.len() && ws[i] == w && forall|j: int| 0 <= j < i ==> ws[j] != w
}

/// The last position of `w` in `ws`.
pub open spec fn last_position(ws: Seq<Seq<char>>, w: Seq<char>) -> int {
    choose|i: int| 0 <= i < ws.len() && ws[i] == w && forall|j: int| i < j < ws.len() ==> ws[j] != w
}

/// The window to show after moving one window forward or back from the
/// current one: nothing past either end, and the first window when none
/// is shown.
pub open spec fn moved(v: WindowsView, forward: bool) -> Option<Seq<char>> {
    match v.current {
        Some(c) => {
            let i = first_position(v.windows, c);
            if forward && i < v.windows.len() - 1 {
                Some(v.windows[i + 1])
            } else if !forward && i > 0 {
                Some(v.windows[i - 1])
            } else {
                None
            }
        },
        None => if v.windows.len() > 0 {
            Some(v.windows[0])
        } else {
            None
        },
    }
}

impl WindowList {
    pub closed spec fn view(&self) -> WindowsView {
        WindowsView {
            windows: names(self.windows@),
            current: match self.current {
                Some(c) => Some(c@),
                None => None,
            },
            unread: set_order(self.unread),
        }
    }

    /// Unread windows are windows, each counted once.
    pub open spec fn wf(&self) -> bool {
        &&& self@.unread.no_duplicates()
        &&& forall|k: int| 0 <= k < self@.unread.len() ==> #[trigger] self@.unread[k] < self@.windows.len()
    }

    pub fn new() -> (r: Self)
        ensures
            r.wf(),
            r@.windows == Seq::<Seq<char>>::empty(),
            r@.current is None,
            r@.unread == Seq::<u64>::empty(),
    {
        WindowList { windows: Vec::new(), current: None, unread: set_new() }
    }

    /// Open a window named `name`, last.
    pub fn add_window(&mut self, name: String)
        requires
            old(self).wf(),
        ensures
            final(self).wf(),
            final(self)@ == (WindowsView { windows: old(self)@.windows.push(name@), ..old(self)@ }),
    {
        self.windows.push(name);
        assert(names(self.windows@) =~= old(self)@.windows.push(name@));
    }

    /// Show the window named `window`.
    pub fn change_window(&mut self, window: &str)
        requires
            old(self).wf(),
        ensures
            final(self).wf(),
            final(self)@ == (WindowsView { current: Some(window@), ..old(self)@ }),
    {
        self.current = Some(copy_str(window));
    }

    /// The names of the windows.
    pub fn get_windows(&self) -> (r: Vec<String>)
        ensures
            names(r@) == self@.windows,
    {
        let mut r: Vec<String> = Vec::new();
        let mut i: usize = 0;
        while i < self.windows.len()
            invariant
                0 <= i <= self.windows.len(),
                names(r@) == names(self.windows@).take(i as int),
            decreases self.windows.len() - i,
        {
            assert(names(self.windows@)[i as int] == self.windows@[i as int]@);
            let ghost prev = r@;
            r.push(copy_str(self.windows[i].as_str()));
            assert(names(r@) =~= names(prev).push(self.windows@[i as int]@));
            assert(names(r@) =~= names(self.windows@).take(i + 1));
            i = i + 1;
        }
        assert(names(self.windows@).take(i as int) =~= names(self.windows@));
        r
    }

    fn position_of(&self, window: &str) -> (r: Option<usize>)
        ensures
            r matches Some(i) ==> i == first_position(self@.windows, window@) && i < self@.windows.len()
                && self@.windows[i as int] == window@,
            r is None <==> !self@.windows.contains(window@),
    {
        let mut i: usize = 0;
        while i < self.windows.len()
            invariant
                0 <= i <= self.windows.len(),
                forall|j: int| 0 <= j < i ==> #[trigger] self@.windows[j] != window@,
            decreases self.windows.len() - i,
        {
            if str_eq(self.windows[i].as_str(), window) {
                assert(self@.windows[i as int] == window@);
                let ghost p = first_position(self@.windows, window@);
                proof {
                    assert(0 <= i < self@.windows.len() && self@.windows[i as int] == window@ && forall|j: int|
                        0 <= j < i ==> self@.windows[j] != window@);
                    if p != i {
                        if p < i {
                            assert(self@.windows[p] != window@);
                        } else {
                            assert(self@.windows[i as int] != window@);
                        }
                    }
                }
                return Some(i);
            }
            i = i + 1;
        }
        proof {
            if self@.windows.contains(window@) {
                let k = choose|k: int| 0 <= k < self@.windows.len() && self@.windows[k] == window@;
                assert(self@.windows[k] != window@);
            }
        }
        None
    }

    fn step(&mut self, forward: bool) -> (r: Option<String>)
        requires
            old(self).wf(),
            old(self)@.current matches Some(c) ==> old(self)@.windows.contains(c),
        ensures
            final(self).wf(),
            r matches Some(w) ==> moved(old(self)@, forward) == Some(w@),
            r is None <==> moved(old(self)@, forward) is None,
            final(self)@ == (WindowsView {
                current: match moved(old(self)@, forward) {
                    Some(w) => Some(w),
                    None => old(self)@.current,
                },
                ..old(self)@
            }),
    {
        let target = match &self.current {
            Some(c) => {
                let p = self.position_of(c.as_str());
                assert(p is Some);
                let i = p.unwrap();
                assert(names(self.windows@).len() == self.windows@.len());
                assert(i < self.windows.len());
                if forward && i + 1 < self.windows.len() {
                    Some(copy_str(self.windows[i + 1].as_str()))
                } else if !forward && i > 0 {
                    Some(copy_str(self.windows[i - 1].as_str()))
                } else {
                    None
                }
            },
            None => if self.windows.len() > 0 {
                Some(copy_str(self.windows[0].as_str()))
            } else {
                None
            },
        };
        match &target {
            Some(w) => self.change_window(w.as_str()),
            None => {},
        }
        target
    }

    /// Show the window after the current one, or the first one when none
    /// is shown; returns the window shown, or `None` at the last window.
    pub fn next_window(&mut self) -> (r: Option<String>)
        requires
            old(self).wf(),
            old(self)@.current matches Some(c) ==> old(self)@.windows.contains(c),
        ensures
            final(self).wf(),
            r matches Some(w) ==> moved(old(self)@, true) == Some(w@),
            r is None <==> moved(old(self)@, true) is None,
            final(self)@ == (WindowsView {
                current: match moved(old(self)@, true) {
                    Some(w) => Some(w),
                    None => old(self)@.current,
                },
                ..old(self)@
            }),
    {
        self.step(true)
    }

    /// Show the window before the current one, or the first one when none
    /// is shown; returns the window shown, or `None` at the first window.
    pub fn prev_window(&mut self) -> (r: Option<String>)
        requires
            old(self).wf(),
            old(self)@.current matches Some(c) ==> old(self)@.windows.contains(c),
        ensures
            final(self).wf(),
            r matches Some(w) ==> moved(old(self)@, false) == Some(w@),
            r is None <==> moved(old(self)@, false) is None,
            final(self)@ == (WindowsView {
                current: match moved(old(self)@, false) {
                    Some(w) => Some(w),
                    None => old(self)@.current,
                },
                ..old(self)@
            }),
    {
        self.step(false)
    }

    /// Show the window named `window` if there is one; returns whether
    /// there is.
    pub fn show_window(&mut self, window: &str) -> (r: bool)
        requires
            old(self).wf(),
        ensures
            final(self).wf(),
            r == old(self)@.windows.contains(window@),
            r ==> final(self)@ == (WindowsView { current: Some(window@), ..old(self)@ }),
            !r ==> final(self)@ == old(self)@,
    {
        match self.position_of(window) {
            Some(_) => {
                self.change_window(window);
                true
            },
            None => false,
        }
    }

    /// A message came from `from`: the last window of that name, unless it
    /// is the one shown, is marked unread, after the others.
    pub fn message_from(&mut self, from: &str)
        requires
            old(self).wf(),
        ensures
            final(self).wf(),
            old(self)@.windows.contains(from@) && old(self)@.current != Some(from@) ==> final(self)@ == (WindowsView {
                unread: old(self)@.unread.filter(|x: u64| x != last_position(old(self)@.windows, from@) as u64).push(
                    last_position(old(self)@.windows, from@) as u64,
                ),
                ..old(self)@
            }),
            !(old(self)@.windows.contains(from@) && old(self)@.current != Some(from@)) ==> final(self)@ == old(
                self,
            )@,
    {
        let shown = match &self.current {
            Some(c) => str_eq(c.as_str(), from),
            None => false,
        };
        if shown {
            return;
        }
        let mut found: Option<usize> = None;
        let mut i: usize = self.windows.len();
        while i > 0
            invariant
                0 <= i <= self.windows.len(),
                self@ == old(self)@,
                self.wf(),
                found is None ==> forall|j: int| i <= j < self@.windows.len() ==> #[trigger] self@.windows[j] != from@,
                found matches Some(k) ==> k < self@.windows.len() && self@.windows[k as int] == from@ && forall|j: int|
                    k < j < self@.windows.len() ==> #[trigger] self@.windows[j] != from@,
                found is Some ==> i == 0,
            decreases i,
        {
            i = i - 1;
            if str_eq(self.windows[i].as_str(), from) {
                assert(names(self.windows@)[i as int] == self.windows@[i as int]@);
                found = Some(i);
                i = 0;
            }
        }
        match found {
            Some(k) => {
                proof {
                    let ws = self@.windows;
                    assert(ws[k as int] == from@);
                    let p = last_position(ws, from@);
                    assert(0 <= k < ws.len() && ws[k as int] == from@ && forall|j: int| k < j < ws.len() ==> ws[j] != from@);
                    if p != k {
                        if p < k {
                            assert(ws[k as int] != from@);
                        } else {
                            assert(ws[p] != from@);
                        }
                    }
                }
                let ghost before = set_order(self.unread);
                set_insert(&mut self.unread, k as u64);
                proof {
                    let after = set_order(self.unread);
                    assert forall|q: int| 0 <= q < after.len() implies #[trigger] after[q] < self@.windows.len() by {
                        if q < after.len() - 1 {
                            let f = before.filter(|x: u64| x != k as u64);
                            assert(after[q] == f[q]);
                            assert(f.contains(f[q]));
                            before.lemma_filter_contains_rev(|x: u64| x != k as u64, f[q]);
                            let w = choose|w: int| 0 <= w < before.len() && before[w] == f[q];
                            assert(before[w] < self@.windows.len());
                        }
                    }
                }
            },
            None => {
                proof {
                    if self@.windows.contains(from@) {
                        let q = choose|q: int| 0 <= q < self@.windows.len() && self@.windows[q] == from@;
                        assert(self@.windows[q] != from@);
                    }
                }
            },
        }
    }

    /// Show the window that got an unread message first, if any; it is no
    /// longer unread. Returns the window shown.
    pub fn next_unread(&mut self) -> (r: Option<String>)
        requires
            old(self).wf(),
        ensures
            final(self).wf(),
            old(self)@.unread.len() == 0 ==> r is None && final(self)@ == old(self)@,
            old(self)@.unread.len() > 0 ==> (r matches Some(w) && w@ == old(self)@.windows[old(self)@.unread[0] as int]
                && final(self)@ == (WindowsView {
                current: Some(w@),
                unread: old(self)@.unread.drop_first(),
                ..old(self)@
            })),
    {
        let ghost before = set_order(self.unread);
        match set_pop_front(&mut self.unread) {
            Some(k) => {
                assert(before[0] == k);
                assert(k < self@.windows.len());
                assert(names(self.windows@).len() == self.windows@.len());
                assert(k < self.windows.len());
                let name = copy_str(self.windows[k as usize].as_str());
                assert(names(self.windows@)[k as int] == self.windows@[k as int]@);
                proof {
                    assert(before.drop_first().no_duplicates()) by {
                        assert forall|a: int, b: int| 0 <= a < b < before.drop_first().len() implies before.drop_first()[a]
                            != before.drop_first()[b] by {
                            assert(before.drop_first()[a] == before[a + 1]);
                            assert(before.drop_first()[b] == before[b + 1]);
                        }
                    }
                    assert forall|q: int| 0 <= q < before.drop_first().len() implies #[trigger] before.drop_first()[q]
                        < self@.windows.len() by {
                        assert(before.drop_first()[q] == before[q + 1]);
                    }
                }
                self.change_window(name.as_str());
                Some(name)
            },
            None => None,
        }
    }
}

/// Keys of the terminal.
#[derive(Debug, Clone, Copy, PartialEq, Eq, Structural)]
pub enum Key {
    Char(char),
    Backspace,
    Delete,
    Home,
    End,
    Up,
    Down,
    Left,
    Right,
    Ctrl(char),
    Alt(char),
    PageUp,
    PageDown,
}

/// What a key does on the screen: complete the input, submit it, show the
/// next window with unread messages, or go to the views.
#[derive(Debug, Clone, Copy, PartialEq, Eq, Structural)]
pub enum KeyCommand {
    Complete,
    Submit,
    NextUnread,
    Forward,
}

/// Tab completes, Enter submits, Alt-a goes to the next unread window;
/// the views get any other key.
pub fn key_command(key: Key) -> (r: KeyCommand)
    ensures
        r == match key {
            Key::Char('\t') => KeyCommand::Complete,
            Key::Char('\n') => KeyCommand::Submit,
            Key::Alt('a') => KeyCommand::NextUnread,
            _ => KeyCommand::Forward,
        },
{
    match key {
        Key::Char('\t') => KeyCommand::Complete,
        Key::Char('\n') => KeyCommand::Submit,
        Key::Alt('a') => KeyCommand::NextUnread,
        _ => KeyCommand::Forward,
    }
}

/// An edit of the input line.
#[derive(Debug, Clone, Copy, PartialEq, Eq, Structural)]
pub enum InputAction {
    Insert(char),
    Backspace,
    Delete,
    Home,
    End,
    Previous,
    Next,
    Left,
    Right,
    BackwardDeleteWord,
    DeleteToStart,
    DeleteToEnd,
}

/// The edit a key makes on the input line, with the usual line-editing
/// control keys; `None` for a key that does not edit it.
pub fn input_action(key: Key) -> (r: Option<InputAction>)
    ensures
        r == match key {
            Key::Char(c) => Some(InputAction::Insert(c)),
            Key::Backspace | Key::Ctrl('h') => Some(InputAction::Backspace),
            Key::Delete => Some(InputAction::Delete),
            Key::Home | Key::Ctrl('a') => Some(InputAction::Home),
            Key::End | Key::Ctrl('e') => Some(InputAction::End),
            Key::Up => Some(InputAction::Previous),
            Key::Down => Some(InputAction::Next),
            Key::Left | Key::Ctrl('b') => Some(InputAction::Left),
            Key::Right | Key::Ctrl('f') => Some(InputAction::Right),
            Key::Ctrl('w') => Some(InputAction::BackwardDeleteWord),
            Key::Ctrl('u') => Some(InputAction::DeleteToStart),
            Key::Ctrl('k') => Some(InputAction::DeleteToEnd),
            _ => None,
        },
{
    match key {
        Key::Char(c) => Some(InputAction::Insert(c)),
        Key::Backspace | Key::Ctrl('h') => Some(InputAction::Backspace),
        Key::Delete => Some(InputAction::Delete),
        Key::Home | Key::Ctrl('a') => Some(InputAction::Home),
        Key::End | Key::Ctrl('e') => Some(InputAction::End),
        Key::Up => Some(InputAction::Previous),
        Key::Down => Some(InputAction::Next),
        Key::Left | Key::Ctrl('b') => Some(InputAction::Left),
        Key::Right | Key::Ctrl('f') => Some(InputAction::Right),
        Key::Ctrl('w') => Some(InputAction::BackwardDeleteWord),
        Key::Ctrl('u') => Some(InputAction::DeleteToStart),
        Key::Ctrl('k') => Some(InputAction::DeleteToEnd),
        _ => None,
    }
}

/// What a submitted input line becomes: the answer to a password prompt,
/// a command, a message to the shown conversation, or nothing.
#[derive(Debug, Clone, Copy, PartialEq, Eq, Structural)]
pub enum Submission {
    Password,
    Command,
    Message,
    Nothing,
}

/// A line typed at a password prompt answers it; otherwise a line that
/// starts with `/` is a command, and any other non-empty line a message.
pub fn submission(raw_buf: &str, password: bool) -> (r: Submission)
    ensures
        r == if password {
            Submission::Password
        } else if raw_buf@.len() > 0 && raw_buf@[0] == '/' {
            Submission::Command
        } else if raw_buf@.len() > 0 {
            Submission::Message
        } else {
            Submission::Nothing
        },
{
    if password {
        return Submission::Password;
    }
    let cs = chars_of(raw_buf);
    if cs.len() > 0 && cs[0] == '/' {
        Submission::Command
    } else if cs.len() > 0 {
        Submission::Message
    } else {
        Submission::Nothing
    }
}

/// Whether a conversation is with one contact or in a multi-user channel.
#[derive(Debug, Clone, Copy, PartialEq, Eq, Structural)]
pub enum ConversationKind {
    Chat,
    Channel,
}

/// A conversation: its kind and the address of the contact or channel.
#[derive(Debug, Clone)]
pub struct ConversationId {
    pub kind: ConversationKind,
    pub address: String,
}

impl ConversationId {
    /// The name of the conversation's window: its address.
    pub fn window_name(&self) -> (r: String)
        ensures
            r@ == self.address@,
    {
        copy_str(self.address.as_str())
    }
}

/// What reaches a conversation window: a message received from an
/// address or sent to one, a key, or an occupant seen in a channel with
/// the role it holds there.
#[derive(Debug)]
pub enum ChatEvent {
    IncomingMessage { kind: ConversationKind, from: String },
    OutgoingMessage { kind: ConversationKind, to: String },
    Key(Key),
    Occupant { channel: String, role: String },
    Other,
}

/// What a conversation window does with an event.
#[derive(Debug)]
pub enum WindowAction {
    ShowMessage,
    PageUp,
    PageDown,
    AddOccupant { role: String },
    Nothing,
}

/// A conversation window shows the messages of its kind received from its
/// address or sent to it, scrolls on PageUp and PageDown, and, for a
/// channel, lists each occupant of that channel under its role.
pub fn conversation_window_action(conv: &ConversationId, event: &ChatEvent) -> (r: WindowAction)
    ensures
        match *event {
            ChatEvent::IncomingMessage { kind, from } =>
                if kind == conv.kind && from@ == conv.address@ { r is ShowMessage } else { r is Nothing },
            ChatEvent::OutgoingMessage { kind, to } =>
                if kind == conv.kind && to@ == conv.address@ { r is ShowMessage } else { r is Nothing },
            ChatEvent::Key(Key::PageUp) => r is PageUp,
            ChatEvent::Key(Key::PageDown) => r is PageDown,
            ChatEvent::Occupant { channel, role } =>
                if conv.kind == ConversationKind::Channel && channel@ == conv.address@ {
                    r matches WindowAction::AddOccupant { role: shown } && shown@ == role@
                } else {
                    r is Nothing
                },
            _ => r is Nothing,
        },
{
    match event {
        ChatEvent::IncomingMessage { kind, from } => {
            if *kind == conv.kind && str_eq(from.as_str(), conv.address.as_str()) {
                WindowAction::ShowMessage
            } else {
                WindowAction::Nothing
            }
        },
        ChatEvent::OutgoingMessage { kind, to } => {
            if *kind == conv.kind && str_eq(to.as_str(), conv.address.as_str()) {
                WindowAction::ShowMessage
            } else {
                WindowAction::Nothing
            }
        },
        ChatEvent::Key(Key::PageUp) => WindowAction::PageUp,
        ChatEvent::Key(Key::PageDown) => WindowAction::PageDown,
        ChatEvent::Occupant { channel, role } => {
            if conv.kind == ConversationKind::Channel && str_eq(channel.as_str(), conv.address.as_str()) {
                WindowAction::AddOccupant { role: copy_str(role.as_str()) }
            } else {
                WindowAction::Nothing
            }
        },
        _ => WindowAction::Nothing,
    }
}

/// A conversation needs a window of its own when no window has its name.
pub fn needs_window(known: &Vec<String>, name: &str) -> (r: bool)
    ensures
        r == !names(known@).contains(name@),
{
    let mut i: usize = 0;
    while i < known.len()
        invariant
            i <= known.len(),
            forall|k: int| 0 <= k < i ==> known@[k]@ != name@,
        decreases known.len() - i,
    {
        if str_eq(known[i].as_str(), name) {
            assert(names(known@)[i as int] == name@);
            return false;
        }
        i = i + 1;
    }
    assert forall|k: int| 0 <= k < names(known@).len() implies names(known@)[k] != name@ by {
        assert(names(known@)[k] == known@[k]@);
    }
    true
}

/// The roster groups a contact is listed under: each of its own groups,
/// or "Contacts" when it has none.
pub open spec fn contact_groups(groups: Seq<String>) -> Seq<Seq<char>> {
    if groups.len() > 0 {
        names(groups)
    } else {
        seq!["Contacts"@]
    }
}

/// The groups a contact goes into in the roster.
pub fn roster_groups(groups: &Vec<String>) -> (r: Vec<String>)
    ensures
        names(r@) == contact_groups(groups@),
{
    if groups.len() == 0 {
        let mut r: Vec<String> = Vec::new();
        r.push(copy_str("Contacts"));
        assert(names(r@) =~= seq!["Contacts"@]);
        return r;
    }
    let mut r: Vec<String> = Vec::new();
    let mut i: usize = 0;
    while i < groups.len()
        invariant
            i <= groups.len(),
            r@.len() == i,
            forall|k: int| 0 <= k < i ==> #[trigger] r@[k]@ == groups@[k]@,
        decreases groups.len() - i,
    {
        let g = copy_str(groups[i].as_str());
        r.push(g);
        i = i + 1;
    }
    assert(names(r@) =~= names(groups@)) by {
        assert forall|k: int| 0 <= k < r@.len() implies names(r@)[k] == names(groups@)[k] by {
            assert(r@[k]@ == groups@[k]@);
        }
    }
    r
}

/// What reaches the roster: the account got connected, a contact was
/// received or changed (with its groups), a bookmark was received or
/// deleted, a window was opened.
#[derive(Debug)]
pub enum RosterEvent {
    Connected,
    Contact { groups: Vec<String> },
    Bookmark,
    DeletedBookmark,
    AddWindow,
    Other,
}

/// A change of the roster: groups to show, the groups the event's item
/// goes into, the group it leaves, or none.
#[derive(Debug)]
pub enum RosterUpdate {
    AddGroups(Vec<String>),
    Insert(Vec<String>),
    Remove(String),
    Nothing,
}

/// On connection the roster shows the groups "Windows", "Contacts" and
/// "Bookmarks"; a contact goes into its groups, a bookmark into
/// "Bookmarks", a window into "Windows"; a deleted bookmark leaves
/// "Bookmarks".
pub fn roster_update(event: &RosterEvent) -> (r: RosterUpdate)
    ensures
        match *event {
            RosterEvent::Connected => r matches RosterUpdate::AddGroups(g)
                && names(g@) == seq!["Windows"@, "Contacts"@, "Bookmarks"@],
            RosterEvent::Contact { groups } => r matches RosterUpdate::Insert(g)
                && names(g@) == contact_groups(groups@),
            RosterEvent::Bookmark => r matches RosterUpdate::Insert(g) && names(g@) == seq!["Bookmarks"@],
            RosterEvent::DeletedBookmark => r matches RosterUpdate::Remove(g) && g@ == "Bookmarks"@,
            RosterEvent::AddWindow => r matches RosterUpdate::Insert(g) && names(g@) == seq!["Windows"@],
            RosterEvent::Other => r is Nothing,
        },
{
    match event {
        RosterEvent::Connected => {
            let mut g: Vec<String> = Vec::new();
            g.push(copy_str("Windows"));
            g.push(copy_str("Contacts"));
            g.push(copy_str("Bookmarks"));
            assert(names(g@) =~= seq!["Windows"@, "Contacts"@, "Bookmarks"@]);
            RosterUpdate::AddGroups(g)
        },
        RosterEvent::Contact { groups } => RosterUpdate::Insert(roster_groups(groups)),
        RosterEvent::Bookmark => {
            let mut g: Vec<String> = Vec::new();
            g.push(copy_str("Bookmarks"));
            assert(names(g@) =~= seq!["Bookmarks"@]);
            RosterUpdate::Insert(g)
        },
        RosterEvent::DeletedBookmark => RosterUpdate::Remove(copy_str("Bookmarks")),
        RosterEvent::AddWindow => {
            let mut g: Vec<String> = Vec::new();
            g.push(copy_str("Windows"));
            assert(names(g@) =~= seq!["Windows"@]);
            RosterUpdate::Insert(g)
        },
        RosterEvent::Other => RosterUpdate::Nothing,
    }
}

/// Moving to the next window and back returns to the window shown, when
/// windows have distinct names and the shown one is not the last.
pub proof fn lemma_next_then_prev(v: WindowsView, c: Seq<char>)
    requires
        v.current == Some(c),
        v.windows.no_duplicates(),
        v.windows.contains(c),
        first_position(v.windows, c) < v.windows.len() - 1,
    ensures
        (moved(v, true) matches Some(n) && moved(WindowsView { current: Some(n), ..v }, false) == Some(c)),
{
    let i = first_position(v.windows, c);
    let k = choose|k: int| 0 <= k < v.windows.len() && v.windows[k] == c;
    assert(0 <= k < v.windows.len() && v.windows[k] == c && forall|j: int| 0 <= j < k ==> v.windows[j] != c);
    let n = v.windows[i + 1];
    let j = first_position(v.windows, n);
    assert(0 <= i + 1 < v.windows.len() && v.windows[i + 1] == n && forall|q: int| 0 <= q < i + 1 ==> v.windows[q] != n);
    assert(j == i + 1);
}

} // verus!
