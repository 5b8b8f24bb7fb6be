use aparte::motion::{Action, ActionParser, Motion, Operator, ParseResult};


fn feed_all(seq: &str) -> ParseResult {
    let mut parser = ActionParser::new();
    let mut result = ParseResult::Invalid;
    for c in seq.chars() {
        result = parser.feed(c);
    }
    result
}

fn complete(
    count: usize,
    register: Option<char>,
    operator: Operator,
    motion: Motion,
) -> ParseResult {
    ParseResult::Complete(Action {
        count,
        register,
        operator,
        motion,
    })
}

// ── Single motions (no operator) ────────────────────────────────────────

#[test]
fn single_motion_w() {
    assert_eq!(
        feed_all("w"),
        complete(1, None, Operator::Move, Motion::WordForward)
    );
}

#[test]
fn single_motion_dollar() {
    assert_eq!(
        feed_all("$"),
        complete(1, None, Operator::Move, Motion::LineEnd)
    );
}

#[test]
fn single_motion_gg() {
    assert_eq!(
        feed_all("gg"),
        complete(1, None, Operator::Move, Motion::FileTop)
    );
}

#[test]
fn single_motion_big_g() {
    assert_eq!(
        feed_all("G"),
        complete(1, None, Operator::Move, Motion::FileBottom)
    );
}

#[test]
fn single_motion_h() {
    assert_eq!(
        feed_all("h"),
        complete(1, None, Operator::Move, Motion::Left)
    );
}

#[test]
fn single_motion_l() {
    assert_eq!(
        feed_all("l"),
        complete(1, None, Operator::Move, Motion::Right)
    );
}

#[test]
fn single_motion_b() {
    assert_eq!(
        feed_all("b"),
        complete(1, None, Operator::Move, Motion::WordBackward)
    );
}

#[test]
fn single_motion_e() {
    assert_eq!(
        feed_all("e"),
        complete(1, None, Operator::Move, Motion::WordEnd)
    );
}

#[test]
fn single_motion_zero() {
    assert_eq!(
        feed_all("0"),
        complete(1, None, Operator::Move, Motion::LineStart)
    );
}

#[test]
fn single_motion_caret() {
    assert_eq!(
        feed_all("^"),
        complete(1, None, Operator::Move, Motion::FirstNonBlank)
    );
}

#[test]
fn single_motion_j() {
    assert_eq!(
        feed_all("j"),
        complete(1, None, Operator::Move, Motion::Down)
    );
}

#[test]
fn single_motion_k() {
    assert_eq!(feed_all("k"), complete(1, None, Operator::Move, Motion::Up));
}

#[test]
fn single_motion_n() {
    assert_eq!(
        feed_all("n"),
        complete(1, None, Operator::Move, Motion::SearchNext)
    );
}

#[test]
fn single_motion_big_n() {
    assert_eq!(
        feed_all("N"),
        complete(1, None, Operator::Move, Motion::SearchPrev)
    );
}

// ── Count prefix ────────────────────────────────────────────────────────

#[test]
fn count_3_w() {
    assert_eq!(
        feed_all("3w"),
        complete(3, None, Operator::Move, Motion::WordForward)
    );
}

#[test]
fn count_12_j() {
    assert_eq!(
        feed_all("12j"),
        complete(12, None, Operator::Move, Motion::Down)
    );
}

#[test]
fn count_5_h() {
    assert_eq!(
        feed_all("5h"),
        complete(5, None, Operator::Move, Motion::Left)
    );
}

// ── Operators + motions ─────────────────────────────────────────────────

#[test]
fn operator_delete_word_forward() {
    assert_eq!(
        feed_all("dw"),
        complete(1, None, Operator::Delete, Motion::WordForward)
    );
}

#[test]
fn operator_delete_line_end() {
    assert_eq!(
        feed_all("d$"),
        complete(1, None, Operator::Delete, Motion::LineEnd)
    );
}

#[test]
fn operator_delete_line_start() {
    assert_eq!(
        feed_all("d0"),
        complete(1, None, Operator::Delete, Motion::LineStart)
    );
}

#[test]
fn operator_change_word() {
    assert_eq!(
        feed_all("cw"),
        complete(1, None, Operator::Change, Motion::WordForward)
    );
}

#[test]
fn operator_yank_word() {
    assert_eq!(
        feed_all("yw"),
        complete(1, None, Operator::Yank, Motion::WordForward)
    );
}

// ── Count + operator + motion ───────────────────────────────────────────

#[test]
fn pre_count_3_dw() {
    assert_eq!(
        feed_all("3dw"),
        complete(3, None, Operator::Delete, Motion::WordForward)
    );
}

#[test]
fn op_count_d3w() {
    assert_eq!(
        feed_all("d3w"),
        complete(3, None, Operator::Delete, Motion::WordForward)
    );
}

#[test]
fn pre_and_op_count_2d3w() {
    assert_eq!(
        feed_all("2d3w"),
        complete(6, None, Operator::Delete, Motion::WordForward)
    );
}

// ── Operator doubling (whole-line) ──────────────────────────────────────

#[test]
fn operator_dd() {
    assert_eq!(
        feed_all("dd"),
        complete(1, None, Operator::Delete, Motion::WholeLine)
    );
}

#[test]
fn operator_yy() {
    assert_eq!(
        feed_all("yy"),
        complete(1, None, Operator::Yank, Motion::WholeLine)
    );
}

#[test]
fn operator_cc() {
    assert_eq!(
        feed_all("cc"),
        complete(1, None, Operator::Change, Motion::WholeLine)
    );
}

#[test]
fn count_2_dd() {
    assert_eq!(
        feed_all("2dd"),
        complete(2, None, Operator::Delete, Motion::WholeLine)
    );
}

// ── Register prefix ─────────────────────────────────────────────────────

#[test]
fn register_a_dw() {
    assert_eq!(
        feed_all("\"adw"),
        complete(1, Some('a'), Operator::Delete, Motion::WordForward)
    );
}

#[test]
fn register_upper_a_yy() {
    assert_eq!(
        feed_all("\"Ayy"),
        complete(1, Some('A'), Operator::Yank, Motion::WholeLine)
    );
}

#[test]
fn register_unnamed_yw() {
    assert_eq!(
        feed_all("\"\"yw"),
        complete(1, Some('"'), Operator::Yank, Motion::WordForward)
    );
}

// ── Shorthands ──────────────────────────────────────────────────────────

#[test]
fn shorthand_x_deletes_right() {
    assert_eq!(
        feed_all("x"),
        complete(1, None, Operator::Delete, Motion::Right)
    );
}

#[test]
fn shorthand_upper_x_deletes_left() {
    assert_eq!(
        feed_all("X"),
        complete(1, None, Operator::Delete, Motion::Left)
    );
}

#[test]
fn count_3_x() {
    assert_eq!(
        feed_all("3x"),
        complete(3, None, Operator::Delete, Motion::Right)
    );
}

// ── Paste ────────────────────────────────────────────────────────────────

#[test]
fn paste_after() {
    assert_eq!(
        feed_all("p"),
        complete(1, None, Operator::Move, Motion::PasteAfter)
    );
}

#[test]
fn paste_before() {
    assert_eq!(
        feed_all("P"),
        complete(1, None, Operator::Move, Motion::PasteBefore)
    );
}

#[test]
fn register_paste_after() {
    assert_eq!(
        feed_all("\"ap"),
        complete(1, Some('a'), Operator::Move, Motion::PasteAfter)
    );
}

// ── Pending states ───────────────────────────────────────────────────────

#[test]
fn pending_after_operator_d() {
    assert_eq!(feed_all("d"), ParseResult::Pending);
}

#[test]
fn pending_after_g_prefix() {
    assert_eq!(feed_all("g"), ParseResult::Pending);
}

#[test]
fn pending_after_quote() {
    assert_eq!(feed_all("\""), ParseResult::Pending);
}

#[test]
fn pending_after_count() {
    assert_eq!(feed_all("3"), ParseResult::Pending);
}

#[test]
fn pending_after_register_name() {
    assert_eq!(feed_all("\"a"), ParseResult::Pending);
}

#[test]
fn pending_after_operator_and_count() {
    assert_eq!(feed_all("d3"), ParseResult::Pending);
}

// ── Invalid sequences ────────────────────────────────────────────────────

#[test]
fn invalid_d_q() {
    assert_eq!(feed_all("dq"), ParseResult::Invalid);
}

#[test]
fn invalid_z() {
    assert_eq!(feed_all("z"), ParseResult::Invalid);
}

#[test]
fn invalid_unknown_register() {
    assert_eq!(feed_all("\"1"), ParseResult::Invalid);
}

#[test]
fn invalid_g_other() {
    assert_eq!(feed_all("gz"), ParseResult::Invalid);
}

// ── Parser resets after complete ─────────────────────────────────────────

#[test]
fn parser_resets_after_complete() {
    let mut parser = ActionParser::new();
    let r1 = parser.feed('w');
    assert!(matches!(r1, ParseResult::Complete(_)));
    assert!(!parser.is_pending());
    assert_eq!(parser.pending(), "");
    // Next sequence starts fresh.
    let r2 = parser.feed('b');
    assert!(matches!(r2, ParseResult::Complete(_)));
}

#[test]
fn parser_resets_after_invalid() {
    let mut parser = ActionParser::new();
    let r1 = parser.feed('z');
    assert_eq!(r1, ParseResult::Invalid);
    assert!(!parser.is_pending());
    // Next sequence starts fresh.
    let r2 = parser.feed('w');
    assert!(matches!(r2, ParseResult::Complete(_)));
}

// ── Text objects (aw / iw) ───────────────────────────────────────────────

#[test]
fn change_around_word_caw() {
    assert_eq!(
        feed_all("caw"),
        complete(1, None, Operator::Change, Motion::AWord)
    );
}

#[test]
fn delete_around_word_daw() {
    assert_eq!(
        feed_all("daw"),
        complete(1, None, Operator::Delete, Motion::AWord)
    );
}

#[test]
fn yank_around_word_yaw() {
    assert_eq!(
        feed_all("yaw"),
        complete(1, None, Operator::Yank, Motion::AWord)
    );
}

#[test]
fn change_inner_word_ciw() {
    assert_eq!(
        feed_all("ciw"),
        complete(1, None, Operator::Change, Motion::IWord)
    );
}

#[test]
fn delete_inner_word_diw() {
    assert_eq!(
        feed_all("diw"),
        complete(1, None, Operator::Delete, Motion::IWord)
    );
}

#[test]
fn register_a_caw() {
    assert_eq!(
        feed_all("\"acaw"),
        complete(1, Some('a'), Operator::Change, Motion::AWord)
    );
}

#[test]
fn register_a_ciw() {
    assert_eq!(
        feed_all("\"aciw"),
        complete(1, Some('a'), Operator::Change, Motion::IWord)
    );
}

#[test]
fn text_object_unknown_cax_is_invalid() {
    assert_eq!(feed_all("cax"), ParseResult::Invalid);
}

#[test]
fn text_object_unknown_cix_is_invalid() {
    assert_eq!(feed_all("cix"), ParseResult::Invalid);
}

#[test]
fn pending_after_ca() {
    assert_eq!(feed_all("ca"), ParseResult::Pending);
}

#[test]
fn pending_after_ci() {
    assert_eq!(feed_all("ci"), ParseResult::Pending);
}

// ── Inclusivity flag ────────────────────────────────────────────────────

#[test]
fn word_end_is_inclusive() {
    assert!(Motion::WordEnd.is_inclusive());
}

#[test]
fn line_end_is_inclusive() {
    assert!(Motion::LineEnd.is_inclusive());
}

#[test]
fn aword_is_inclusive() {
    assert!(Motion::AWord.is_inclusive());
}

#[test]
fn iword_is_not_inclusive() {
    assert!(!Motion::IWord.is_inclusive());
}

#[test]
fn word_forward_is_exclusive() {
    assert!(!Motion::WordForward.is_inclusive());
}

// ── Navigation flag ──────────────────────────────────────────────────────

#[test]
fn down_is_navigation() {
    assert!(Motion::Down.is_navigation());
}

#[test]
fn word_forward_is_not_navigation() {
    assert!(!Motion::WordForward.is_navigation());
}


#[test]
fn pending_exactly_when_characters_are_held() {
    let mut parser = ActionParser::new();
    assert_eq!(parser.is_pending(), !parser.pending().is_empty());
    for c in "2\"ad3iwqd".chars() {
        let r = parser.feed(c);
        assert_eq!(parser.is_pending(), matches!(r, ParseResult::Pending));
        assert_eq!(parser.is_pending(), !parser.pending().is_empty());
    }
    parser.feed('d');
    parser.reset();
    assert!(!parser.is_pending());
    assert_eq!(parser.pending(), "");
}
