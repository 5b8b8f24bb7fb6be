use aparte::registers::{MotionType, RegisterValue, Registers};


fn val(text: &str) -> RegisterValue {
    RegisterValue {
        text: text.to_string(),
        kind: MotionType::Char,
    }
}

#[test]
fn set_get_roundtrip() {
    let mut r = Registers::new();
    r.set('a', val("hello"));
    assert_eq!(r.get('a').unwrap().text, "hello");
}

#[test]
fn get_empty_returns_none() {
    let r = Registers::new();
    assert!(r.get('z').is_none());
}

#[test]
fn overwrite_replaces_value() {
    let mut r = Registers::new();
    r.set('a', val("first"));
    r.set('a', val("second"));
    assert_eq!(r.get('a').unwrap().text, "second");
}

#[test]
fn registers_are_independent() {
    let mut r = Registers::new();
    r.set('a', val("alpha"));
    assert!(r.get('b').is_none());
}

#[test]
fn uppercase_set_appends_to_lowercase() {
    let mut r = Registers::new();
    r.set('a', val("hello "));
    r.set('A', val("world"));
    assert_eq!(r.get('a').unwrap().text, "hello world");
}

#[test]
fn uppercase_set_on_empty_creates_entry() {
    let mut r = Registers::new();
    r.set('A', val("new"));
    assert_eq!(r.get('a').unwrap().text, "new");
}

#[test]
fn uppercase_get_reads_lowercase() {
    let mut r = Registers::new();
    r.set('a', val("data"));
    assert_eq!(r.get('A').unwrap().text, "data");
}

#[test]
fn yank_named_also_sets_unnamed() {
    let mut r = Registers::new();
    r.yank(Some('a'), val("yanked"));
    assert_eq!(r.get('a').unwrap().text, "yanked");
    assert_eq!(r.get(Registers::UNNAMED).unwrap().text, "yanked");
}

#[test]
fn yank_none_sets_only_unnamed() {
    let mut r = Registers::new();
    r.yank(None, val("anon"));
    assert_eq!(r.get(Registers::UNNAMED).unwrap().text, "anon");
    assert!(r.get('a').is_none());
}

#[test]
fn yank_uppercase_appends_and_updates_unnamed() {
    let mut r = Registers::new();
    r.set('a', val("line1\n"));
    r.yank(Some('A'), val("line2"));
    assert_eq!(r.get('a').unwrap().text, "line1\nline2");
    assert_eq!(r.get(Registers::UNNAMED).unwrap().text, "line1\nline2");
}

#[test]
fn motion_type_default_is_char() {
    assert_eq!(MotionType::default(), MotionType::Char);
}

#[test]
fn unnamed_constant_is_double_quote() {
    assert_eq!(Registers::UNNAMED, '"');
}

