use aparte::screen::BufferedScreen;

#[test]
fn screen_holds_writes_until_cleared() {
    let mut screen = BufferedScreen::new();
    assert_eq!(screen.write(b"ab"), 2);
    assert_eq!(screen.write(b""), 0);
    assert_eq!(screen.write(b"cd"), 2);
    assert_eq!(screen.pending(), b"abcd");
    screen.clear();
    assert!(screen.pending().is_empty());
    screen.write(b"e");
    assert_eq!(screen.pending(), b"e");
}
