//! Vim normal-mode motions, operators and the key-sequence parser that
//! turns typed characters into actions.

use vstd::prelude::*;
use crate::unicode::push_char;

verus! {

/// A vim-style motion for Normal mode: where the cursor moves, or the range
/// an operator covers.
#[derive(Clone, Copy, Debug, PartialEq, Eq, Structural)]
pub enum Motion {
    Left,
    Right,
    WordForward,
    WordBackward,
    WordEnd,
    BigWordForward,
    BigWordBackward,
    BigWordEnd,
    LineStart,
    FirstNonBlank,
    LineEnd,
    WholeLine,
    AWord,
    IWord,
    PasteAfter,
    PasteBefore,
    Up,
    Down,
    FileTop,
    FileBottom,
    SearchNext,
    SearchPrev,
}

pub open spec fn is_inclusive_spec(m: Motion) -> bool {
    m is WordEnd || m is BigWordEnd || m is LineEnd || m is AWord
}

pub open spec fn is_navigation_spec(m: Motion) -> bool {
    m is Up || m is Down || m is FileTop || m is FileBottom || m is SearchNext || m is SearchPrev
}

impl Motion {
    /// Whether the character at the motion target is included in the
    /// operator range (vim "inclusive" motions).
    pub fn is_inclusive(&self) -> (r: bool)
        ensures
            r == is_inclusive_spec(*self),
    {
        match self {
            Motion::WordEnd | Motion::BigWordEnd | Motion::LineEnd | Motion::AWord => true,
            _ => false,
        }
    }

    /// Whether this motion drives scroll-window navigation rather than editing.
    pub fn is_navigation(&self) -> (r: bool)
        ensures
            r == is_navigation_spec(*self),
    {
        match self {
            Motion::Up | Motion::Down | Motion::FileTop | Motion::FileBottom | Motion::SearchNext
            | Motion::SearchPrev => true,
            _ => false,
        }
    }
}

/// The operator half of a vim action.
#[derive(Clone, Copy, Debug, PartialEq, Eq, Structural)]
pub enum Operator {
    Move,
    Delete,
    Change,
    Yank,
}

/// A fully parsed vim Normal-mode action.
#[derive(Clone, Copy, Debug, PartialEq, Eq, Structural)]
pub struct Action {
    /// Repetition count (1 when omitted).
    pub count: usize,
    /// Named register (`None` is the unnamed register).
    pub register: Option<char>,
    pub operator: Operator,
    pub motion: Motion,
}

/// Result of feeding one character to the parser.
#[derive(Clone, Copy, Debug, PartialEq, Eq, Structural)]
pub enum ParseResult {
    /// The sequence is a valid prefix; more characters are expected.
    Pending,
    /// A complete action has been parsed.
    Complete(Action),
    /// The sequence cannot form a valid action.
    Invalid,
}

/// States of the parser between two characters.
#[derive(Clone, Copy, Debug, PartialEq, Eq, Structural)]
pub enum ParserState {
    /// Counting digits before anything else (0: nothing typed yet).
    Count(usize),
    /// Just saw `"`: waiting for the register name.
    WaitRegisterName { pre_count: usize },
    /// Have `"x`: waiting for an operator or motion.
    AfterRegister { pre_count: usize, reg: char },
    /// Have an operator: waiting for a motion or a count.
    AfterOperator { pre_count: usize, reg: Option<char>, op: Operator },
    /// Have an operator and count digits: waiting for the motion.
    AfterOperatorCount { pre_count: usize, reg: Option<char>, op: Operator, op_count: usize },
    /// Just saw `g`: waiting for the second character.
    GPrefix { pre_count: usize, reg: Option<char> },
    /// Have an operator and `a`/`i`: waiting for the text-object character.
    AfterTextObjectPrefix { pre_count: usize, reg: Option<char>, op: Operator, around: bool },
}

/// The motion a single character stands for, if any.
pub open spec fn char_to_motion_spec(c: char) -> Option<Motion> {
    if c == 'h' {
        Some(Motion::Left)
    } else if c == 'l' {
        Some(Motion::Right)
    } else if c == 'w' {
        Some(Motion::WordForward)
    } else if c == 'b' {
        Some(Motion::WordBackward)
    } else if c == 'e' {
        Some(Motion::WordEnd)
    } else if c == 'W' {
        Some(Motion::BigWordForward)
    } else if c == 'B' {
        Some(Motion::BigWordBackward)
    } else if c == 'E' {
        Some(Motion::BigWordEnd)
    } else if c == '0' {
        Some(Motion::LineStart)
    } else if c == '^' {
        Some(Motion::FirstNonBlank)
    } else if c == '$' {
        Some(Motion::LineEnd)
    } else if c == 'j' {
        Some(Motion::Down)
    } else if c == 'k' {
        Some(Motion::Up)
    } else if c == 'G' {
        Some(Motion::FileBottom)
    } else if c == 'n' {
        Some(Motion::SearchNext)
    } else if c == 'N' {
        Some(Motion::SearchPrev)
    } else {
        None
    }
}

fn char_to_motion(c: char) -> (r: Option<Motion>)
    ensures
        r == char_to_motion_spec(c),
{
    match c {
        'h' => Some(Motion::Left),
        'l' => Some(Motion::Right),
        'w' => Some(Motion::WordForward),
        'b' => Some(Motion::WordBackward),
        'e' => Some(Motion::WordEnd),
        'W' => Some(Motion::BigWordForward),
        'B' => Some(Motion::BigWordBackward),
        'E' => Some(Motion::BigWordEnd),
        '0' => Some(Motion::LineStart),
        '^' => Some(Motion::FirstNonBlank),
        '$' => Some(Motion::LineEnd),
        'j' => Some(Motion::Down),
        'k' => Some(Motion::Up),
        'G' => Some(Motion::FileBottom),
        'n' => Some(Motion::SearchNext),
        'N' => Some(Motion::SearchPrev),
        _ => None,
    }
}

pub open spec fn is_digit(c: char) -> bool {
    '0' <= c && c <= '9'
}

pub open spec fn is_nonzero_digit(c: char) -> bool {
    '1' <= c && c <= '9'
}

pub open spec fn digit_value(c: char) -> int {
    (c as u32) - ('0' as u32)
}

pub open spec fn is_register_name(c: char) -> bool {
    ('a' <= c && c <= 'z') || ('A' <= c && c <= 'Z') || c == '"' || c == '+' || c == '*' || c
        == '-'
}

pub open spec fn complete(count: int, reg: Option<char>, op: Operator, m: Motion) -> ParseResult {
    ParseResult::Complete(Action { count: count as usize, register: reg, operator: op, motion: m })
}

/// The step from the initial state (or after a register / count), with the
/// accumulated `pre_count` and register.
pub open spec fn on_init_spec(pre_count: int, reg: Option<char>, c: char) -> (
    Option<ParserState>,
    ParseResult,
) {
    if is_nonzero_digit(c) {
        (Some(ParserState::Count(digit_value(c) as usize)), ParseResult::Pending)
    } else if c == '"' {
        (
            Some(ParserState::WaitRegisterName { pre_count: pre_count as usize }),
            ParseResult::Pending,
        )
    } else if c == 'd' || c == 'c' || c == 'y' {
        let op = if c == 'd' {
            Operator::Delete
        } else if c == 'c' {
            Operator::Change
        } else {
            Operator::Yank
        };
        (
            Some(ParserState::AfterOperator { pre_count: pre_count as usize, reg, op }),
            ParseResult::Pending,
        )
    } else if c == 'g' {
        (Some(ParserState::GPrefix { pre_count: pre_count as usize, reg }), ParseResult::Pending)
    } else if c == 'x' {
        (None, complete(pre_count, reg, Operator::Delete, Motion::Right))
    } else if c == 'X' {
        (None, complete(pre_count, reg, Operator::Delete, Motion::Left))
    } else if c == 'p' {
        (None, complete(pre_count, reg, Operator::Move, Motion::PasteAfter))
    } else if c == 'P' {
        (None, complete(pre_count, reg, Operator::Move, Motion::PasteBefore))
    } else {
        match char_to_motion_spec(c) {
            Some(m) => (None, complete(pre_count, reg, Operator::Move, m)),
            None => (None, ParseResult::Invalid),
        }
    }
}

pub open spec fn op_char(op: Operator) -> char {
    match op {
        Operator::Delete => 'd',
        Operator::Change => 'c',
        _ => 'y',
    }
}

/// One transition of the parser: the next state and the result.
pub open spec fn transition_spec(state: ParserState, c: char) -> (Option<ParserState>, ParseResult) {
    match state {
        ParserState::Count(n) => {
            if n == 0 {
                on_init_spec(1, None, c)
            } else if is_digit(c) {
                (Some(ParserState::Count((n * 10 + digit_value(c)) as usize)), ParseResult::Pending)
            } else {
                on_init_spec(n as int, None, c)
            }
        },
        ParserState::WaitRegisterName { pre_count } => {
            if is_register_name(c) {
                (Some(ParserState::AfterRegister { pre_count, reg: c }), ParseResult::Pending)
            } else {
                (None, ParseResult::Invalid)
            }
        },
        ParserState::AfterRegister { pre_count, reg } => on_init_spec(pre_count as int, Some(reg), c),
        ParserState::AfterOperator { pre_count, reg, op } => {
            if c == op_char(op) {
                (None, complete(pre_count as int, reg, op, Motion::WholeLine))
            } else if is_nonzero_digit(c) {
                (
                    Some(
                        ParserState::AfterOperatorCount {
                            pre_count,
                            reg,
                            op,
                            op_count: digit_value(c) as usize,
                        },
                    ),
                    ParseResult::Pending,
                )
            } else if c == 'a' || c == 'i' {
                (
                    Some(ParserState::AfterTextObjectPrefix { pre_count, reg, op, around: c == 'a' }),
                    ParseResult::Pending,
                )
            } else {
                match char_to_motion_spec(c) {
                    Some(m) => (None, complete(pre_count as int, reg, op, m)),
                    None => (None, ParseResult::Invalid),
                }
            }
        },
        ParserState::AfterOperatorCount { pre_count, reg, op, op_count } => {
            if is_digit(c) {
                (
                    Some(
                        ParserState::AfterOperatorCount {
                            pre_count,
                            reg,
                            op,
                            op_count: (op_count * 10 + digit_value(c)) as usize,
                        },
                    ),
                    ParseResult::Pending,
                )
            } else {
                match char_to_motion_spec(c) {
                    Some(m) => (None, complete(pre_count * op_count, reg, op, m)),
                    None => (None, ParseResult::Invalid),
                }
            }
        },
        ParserState::GPrefix { pre_count, reg } => {
            if c == 'g' {
                (None, complete(pre_count as int, reg, Operator::Move, Motion::FileTop))
            } else {
                (None, ParseResult::Invalid)
            }
        },
        ParserState::AfterTextObjectPrefix { pre_count, reg, op, around } => {
            if c == 'w' {
                (
                    None,
                    complete(
                        pre_count as int,
                        reg,
                        op,
                        if around {
                            Motion::AWord
                        } else {
                            Motion::IWord
                        },
                    ),
                )
            } else {
                (None, ParseResult::Invalid)
            }
        },
    }
}

/// Whether feeding `c` in `state` stays within machine integers (the counts
/// accumulated from digits fit in `usize`).
pub open spec fn transition_ok(state: ParserState, c: char) -> bool {
    match state {
        ParserState::Count(n) => n != 0 && is_digit(c) ==> n * 10 + digit_value(c) <= usize::MAX,
        ParserState::AfterOperatorCount { pre_count, op_count, .. } => if is_digit(c) {
            op_count * 10 + digit_value(c) <= usize::MAX
        } else {
            char_to_motion_spec(c) is Some ==> pre_count * op_count <= usize::MAX
        },
        _ => true,
    }
}

/// Parses vim Normal-mode key sequences into actions.
///
/// Grammar: `[count]["register][operator][count][motion]`. After `feed`
/// returns `Complete` or `Invalid` the parser resets itself.
#[derive(Debug)]
pub struct ActionParser {
    state: Option<ParserState>,
    buffer: String,
}

/// An operator is pending only for deleting, changing or yanking.
pub open spec fn state_ok(s: ParserState) -> bool {
    match s {
        ParserState::AfterOperator { op, .. } => op != Operator::Move,
        ParserState::AfterOperatorCount { op, .. } => op != Operator::Move,
        ParserState::AfterTextObjectPrefix { op, .. } => op != Operator::Move,
        _ => true,
    }
}

impl ActionParser {
    /// The parser's state and the characters fed since the last reset.
    pub closed spec fn view(&self) -> (Option<ParserState>, Seq<char>) {
        (self.state, self.buffer@)
    }

    /// Every parser is inside a sequence exactly when it holds characters
    /// of it, and a pending operator is never a plain move.
    #[verifier::type_invariant]
    spec fn inv(self) -> bool {
        &&& (self.state is Some) == (self.buffer@.len() > 0)
        &&& (self.state matches Some(st) ==> state_ok(st))
    }

    pub fn new() -> (p: Self)
        ensures
            p@.0 is None,
            p@.1 == Seq::<char>::empty(),
    {
        ActionParser { state: None, buffer: String::new() }
    }

    /// Abandon any pending sequence and reset to the initial state.
    pub fn reset(&mut self)
        ensures
            final(self)@.0 is None,
            final(self)@.1 == Seq::<char>::empty(),
    {
        *self = ActionParser { state: None, buffer: String::new() };
    }

    /// Characters accumulated since the last reset.
    pub fn pending(&self) -> (s: &str)
        ensures
            s@ == self@.1,
    {
        self.buffer.as_str()
    }

    /// Whether a sequence is under way: exactly when characters of it are
    /// held.
    pub fn is_pending(&self) -> (r: bool)
        ensures
            r == self@.0 is Some,
            r == (self@.1.len() > 0),
    {
        proof {
            use_type_invariant(self);
        }
        self.state.is_some()
    }

    fn on_init(next: &mut Option<ParserState>, pre_count: usize, reg: Option<char>, c: char) -> (r: ParseResult)
        ensures
            (*final(next), r) == on_init_spec(pre_count as int, reg, c),
    {
        if '1' <= c && c <= '9' {
            *next = Some(ParserState::Count(((c as u32) - ('0' as u32)) as usize));
            ParseResult::Pending
        } else if c == '"' {
            *next = Some(ParserState::WaitRegisterName { pre_count });
            ParseResult::Pending
        } else if c == 'd' {
            *next = Some(ParserState::AfterOperator { pre_count, reg, op: Operator::Delete });
            ParseResult::Pending
        } else if c == 'c' {
            *next = Some(ParserState::AfterOperator { pre_count, reg, op: Operator::Change });
            ParseResult::Pending
        } else if c == 'y' {
            *next = Some(ParserState::AfterOperator { pre_count, reg, op: Operator::Yank });
            ParseResult::Pending
        } else if c == 'g' {
            *next = Some(ParserState::GPrefix { pre_count, reg });
            ParseResult::Pending
        } else {
            *next = None;
            let op_motion = if c == 'x' {
                Some((Operator::Delete, Motion::Right))
            } else if c == 'X' {
                Some((Operator::Delete, Motion::Left))
            } else if c == 'p' {
                Some((Operator::Move, Motion::PasteAfter))
            } else if c == 'P' {
                Some((Operator::Move, Motion::PasteBefore))
            } else {
                match char_to_motion(c) {
                    Some(m) => Some((Operator::Move, m)),
                    None => None,
                }
            };
            match op_motion {
                Some((op, m)) => ParseResult::Complete(
                    Action { count: pre_count, register: reg, operator: op, motion: m },
                ),
                None => ParseResult::Invalid,
            }
        }
    }

    fn transition(next: &mut Option<ParserState>, state: ParserState, c: char) -> (r: ParseResult)
        requires
            transition_ok(state, c),
        ensures
            (*final(next), r) == transition_spec(state, c),
    {
        match state {
            ParserState::Count(n) => {
                if n == 0 {
                    Self::on_init(next, 1, None, c)
                } else if '0' <= c && c <= '9' {
                    *next = Some(
                        ParserState::Count(n * 10 + ((c as u32) - ('0' as u32)) as usize),
                    );
                    ParseResult::Pending
                } else {
                    Self::on_init(next, n, None, c)
                }
            },
            ParserState::WaitRegisterName { pre_count } => {
                if ('a' <= c && c <= 'z') || ('A' <= c && c <= 'Z') || c == '"' || c == '+' || c
                    == '*' || c == '-' {
                    *next = Some(ParserState::AfterRegister { pre_count, reg: c });
                    ParseResult::Pending
                } else {
                    *next = None;
                    ParseResult::Invalid
                }
            },
            ParserState::AfterRegister { pre_count, reg } => Self::on_init(next, pre_count, Some(reg), c),
            ParserState::AfterOperator { pre_count, reg, op } => {
                let oc = match op {
                    Operator::Delete => 'd',
                    Operator::Change => 'c',
                    _ => 'y',
                };
                if c == oc {
                    *next = None;
                    ParseResult::Complete(
                        Action { count: pre_count, register: reg, operator: op, motion: Motion::WholeLine },
                    )
                } else if '1' <= c && c <= '9' {
                    *next = Some(
                        ParserState::AfterOperatorCount {
                            pre_count,
                            reg,
                            op,
                            op_count: ((c as u32) - ('0' as u32)) as usize,
                        },
                    );
                    ParseResult::Pending
                } else if c == 'a' || c == 'i' {
                    *next = Some(
                        ParserState::AfterTextObjectPrefix { pre_count, reg, op, around: c == 'a' },
                    );
                    ParseResult::Pending
                } else {
                    *next = None;
                    match char_to_motion(c) {
                        Some(m) => ParseResult::Complete(
                            Action { count: pre_count, register: reg, operator: op, motion: m },
                        ),
                        None => ParseResult::Invalid,
                    }
                }
            },
            ParserState::AfterOperatorCount { pre_count, reg, op, op_count } => {
                if '0' <= c && c <= '9' {
                    *next = Some(
                        ParserState::AfterOperatorCount {
                            pre_count,
                            reg,
                            op,
                            op_count: op_count * 10 + ((c as u32) - ('0' as u32)) as usize,
                        },
                    );
                    ParseResult::Pending
                } else {
                    *next = None;
                    match char_to_motion(c) {
                        Some(m) => ParseResult::Complete(
                            Action {
                                count: pre_count * op_count,
                                register: reg,
                                operator: op,
                                motion: m,
                            },
                        ),
                        None => ParseResult::Invalid,
                    }
                }
            },
            ParserState::GPrefix { pre_count, reg } => {
                *next = None;
                if c == 'g' {
                    ParseResult::Complete(
                        Action { count: pre_count, register: reg, operator: Operator::Move, motion: Motion::FileTop },
                    )
                } else {
                    ParseResult::Invalid
                }
            },
            ParserState::AfterTextObjectPrefix { pre_count, reg, op, around } => {
                *next = None;
                if c == 'w' {
                    ParseResult::Complete(
                        Action {
                            count: pre_count,
                            register: reg,
                            operator: op,
                            motion: if around {
                                Motion::AWord
                            } else {
                                Motion::IWord
                            },
                        },
                    )
                } else {
                    ParseResult::Invalid
                }
            },
        }
    }

    /// Feed one character. On `Complete` or `Invalid` the parser resets.
    pub fn feed(&mut self, c: char) -> (r: ParseResult)
        requires
            transition_ok(
                match old(self)@.0 {
                    Some(s) => s,
                    None => ParserState::Count(0),
                },
                c,
            ),
        ensures
            ({
                let state = match old(self)@.0 {
                    Some(s) => s,
                    None => ParserState::Count(0),
                };
                let (next, res) = transition_spec(state, c);
                &&& r == res
                &&& r is Pending ==> final(self)@ == (next, old(self)@.1.push(c))
                &&& !(r is Pending) ==> final(self)@ == (None::<ParserState>, Seq::<char>::empty())
            }),
            (r is Pending) == (final(self)@.0 is Some),
    {
        proof {
            use_type_invariant(&*self);
        }
        let state = match self.state {
            Some(s) => s,
            None => ParserState::Count(0),
        };
        let mut next: Option<ParserState> = None;
        let result = Self::transition(&mut next, state, c);
        match result {
            ParseResult::Pending => {
                let mut buffer = self.buffer.clone();
                push_char(&mut buffer, c);
                *self = ActionParser { state: next, buffer };
            },
            _ => {
                *self = ActionParser { state: None, buffer: String::new() };
            },
        }
        result
    }
}

} // verus!
