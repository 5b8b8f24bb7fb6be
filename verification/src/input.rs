//! The input bar: a text editor with a history of validated lines and a
//! password mode.

use std::marker::PhantomData;
use vstd::prelude::*;
use crate::charxel::{Charxel, CharxelView, Charxels};
use crate::layout::{CursorPos, CursorStyle, Dimensions, MeasureSpecs, RequestedDimension, RequestedDimensions};
use crate::rendering::{write_run, BufferView, PenState, ScreenFrame};
use crate::text::is_clean;
use crate::unicode::{concat_range, display_width, grapheme_clusters, graphemes, text_display_width, views};
use crate::text_editor::{after, before, between, clamp, clusters, end_view, sat_sub, Cursor, TextEditor};

verus! {

/// The first column shown once the cursor at `cursor` is brought into a
/// view of `width` columns that started at `view` (one column is kept for
/// the cursor after the text).
pub open spec fn input_view(cursor: int, view: int, width: int) -> int {
    if cursor < view {
        if cursor < width - 1 {
            0
        } else {
            cursor - (width - 1)
        }
    } else if cursor > view + (width - 1) {
        cursor - (width - 1)
    } else {
        view
    }
}

/// Total width of grapheme clusters, each counted as a `u16`.
pub open spec fn widths_sum(gs: Seq<Seq<char>>) -> int
    decreases gs.len(),
{
    if gs.len() == 0 {
        0
    } else {
        widths_sum(gs.drop_last()) + (text_display_width(gs.last()) as u16)
    }
}

/// The text shown from grapheme `view` in `width` columns.
pub open spec fn visible_text(buf: Seq<char>, view: int, width: int) -> Seq<char> {
    between(buf, view, view + (width - 1))
}

/// The column of the cursor after the text shown.
pub open spec fn cursor_col(buf: Seq<char>, view: int, cursor: int) -> int {
    widths_sum(grapheme_clusters(between(buf, view, cursor)))
}

/// The cells of a clean text, one per cluster, blank-styled.
pub open spec fn text_cells(s: Seq<char>) -> Seq<CharxelView> {
    Seq::new(
        grapheme_clusters(s).len(),
        |i: int| CharxelView { grapheme: grapheme_clusters(s)[i], ..Charxel::blank_view() },
    )
}

/// The buffer once the cursor is placed at `pos` with priority one.
pub open spec fn cursor_placed(v: BufferView, pos: CursorPos) -> BufferView {
    if 1 >= v.cursor_priority {
        BufferView { cursor: pos, cursor_priority: 1, ..v }
    } else {
        v
    }
}

/// The prompt shown in password mode.
pub open spec fn password_prompt() -> Seq<char> {
    seq!['p', 'a', 's', 's', 'w', 'o', 'r', 'd', ':', ' ']
}

/// What the frame holds after the input is drawn in it.
pub open spec fn input_frame(
    b: BufferView,
    area: Dimensions,
    pen: CursorPos,
    cells: Seq<CharxelView>,
    cursor: CursorPos,
    style: CursorStyle,
    visible: bool,
) -> BufferView {
    let written = BufferView {
        lines: write_run(
            PenState { lines: b.lines, left: pen.left as int, stopped: false },
            cells,
            area,
            pen.top as int,
        ).lines,
        ..b
    };
    BufferView { cursor_style: style, show_cursor: visible, ..cursor_placed(written, cursor) }
}

/// The input bar. `E` is the type of the events it handles.
pub struct Input<E> {
    pub editor: TextEditor,
    /// The line being typed before browsing the history.
    pub tmp_buf: Option<String>,
    pub password: bool,
    pub history: Vec<String>,
    pub history_index: usize,
    pub show_cursor: bool,
    pub cursor_style: CursorStyle,
    /// The area the input was last laid out in.
    pub dimensions: Option<Dimensions>,
    pub events: PhantomData<E>,
}

impl<E> Input<E> {
    /// The history index points into the history or just past it.
    pub open spec fn wf(&self) -> bool {
        self.history_index <= self.history.len()
    }

    pub fn new() -> (r: Self)
        ensures
            r.editor.buf@ == Seq::<char>::empty(),
            r.editor.cursor.index == 0,
            r.editor.view.index == 0,
            r.tmp_buf is None,
            !r.password,
            r.history@.len() == 0,
            r.history_index == 0,
            r.show_cursor,
            r.cursor_style == CursorStyle::SteadyBar,
            r.wf(),
    {
        Input {
            editor: TextEditor::new(),
            tmp_buf: None,
            password: false,
            history: Vec::new(),
            history_index: 0,
            show_cursor: true,
            cursor_style: CursorStyle::SteadyBar,
            dimensions: None,
            events: PhantomData,
        }
    }

    /// Focus changes leave the input as it is; its cursor follows the mode.
    pub fn on_focus_change(&mut self, _focused: bool)
        ensures
            *final(self) == *old(self),
    {
    }

    /// The input takes typed text.
    pub fn insertable(&self) -> (r: bool)
        ensures
            r,
    {
        true
    }

    /// One row, as wide as allowed.
    pub fn measure(&self, _measure_specs: &MeasureSpecs) -> (r: RequestedDimensions)
        ensures
            r.width == RequestedDimension::ExpandMax,
            r.height == RequestedDimension::Absolute(1),
    {
        RequestedDimensions { width: RequestedDimension::ExpandMax, height: RequestedDimension::Absolute(1) }
    }

    /// Remember the area the input is laid out in.
    pub fn layout(&mut self, dimensions: &Dimensions)
        ensures
            *final(self) == (Input { dimensions: Some(*dimensions), ..*old(self) }),
    {
        self.dimensions = Some(*dimensions);
    }

    /// Draw the input in `frame`: in password mode the prompt alone,
    /// otherwise the part of the line that keeps the cursor in view, with
    /// the terminal cursor after the text shown.
    #[verifier::rlimit(40)]
    pub fn render(&mut self, frame: &mut ScreenFrame)
        requires
            old(frame).wf(),
            old(self).password ==> old(frame).area().left + 10 <= u16::MAX,
            !old(self).password ==> old(frame).area().width > 0,
            !old(self).password ==> is_clean(visible_text(
                old(self).editor.buf@,
                input_view(
                    old(self).editor.cursor.index as int,
                    old(self).editor.view.index as int,
                    old(frame).area().width as int,
                ),
                old(frame).area().width as int,
            )),
            !old(self).password ==> old(frame).area().left + cursor_col(
                old(self).editor.buf@,
                input_view(
                    old(self).editor.cursor.index as int,
                    old(self).editor.view.index as int,
                    old(frame).area().width as int,
                ),
                old(self).editor.cursor.index as int,
            ) <= u16::MAX,
        ensures
            final(frame).wf(),
            final(frame).area() == old(frame).area(),
            final(self).editor.width == old(frame).area().width,
            old(self).password ==> final(self).editor.view == old(self).editor.view,
            !old(self).password ==> final(self).editor.view.index == input_view(
                old(self).editor.cursor.index as int,
                old(self).editor.view.index as int,
                old(frame).area().width as int,
            ),
            *final(self) == (Input {
                editor: TextEditor {
                    view: final(self).editor.view,
                    width: final(self).editor.width,
                    ..old(self).editor
                },
                ..*old(self)
            }),
            old(self).password ==> final(frame).buffer() == input_frame(
                old(frame).buffer(),
                old(frame).area(),
                old(frame).pen(),
                text_cells(password_prompt()),
                CursorPos { top: old(frame).area().top, left: (old(frame).area().left + 10) as u16 },
                old(self).cursor_style,
                old(self).show_cursor,
            ),
            !old(self).password ==> final(frame).buffer() == input_frame(
                old(frame).buffer(),
                old(frame).area(),
                old(frame).pen(),
                text_cells(visible_text(
                    old(self).editor.buf@,
                    final(self).editor.view.index as int,
                    old(frame).area().width as int,
                )),
                CursorPos {
                    top: old(frame).area().top,
                    left: (old(frame).area().left + cursor_col(
                        old(self).editor.buf@,
                        final(self).editor.view.index as int,
                        old(self).editor.cursor.index as int,
                    )) as u16,
                },
                old(self).cursor_style,
                old(self).show_cursor,
            ),
    {
        let d = frame.dimensions();
        self.editor.width = d.width as usize;
        if self.password {
            let prompt = "password: ";
            proof {
                reveal_strlit("password: ");
            }
            assert(prompt@ =~= password_prompt());
            let cells = Charxels::from_str(prompt);
            assert(cells@ =~= text_cells(password_prompt()));
            frame.write(cells);
            frame.set_cursor_with_priority(CursorPos { top: d.top, left: d.left + 10 }, 1);
        } else {
            let width = d.width as usize;
            let max_size = width - 1;
            let cursor = self.editor.cursor.index;
            let view = self.editor.view.index;
            if cursor < view {
                if cursor < max_size {
                    self.editor.view.set(0);
                } else {
                    self.editor.view.set(cursor - (width - 1));
                }
            } else if cursor - view > width - 1 {
                self.editor.view.set(cursor - (width - 1));
            }
            let view = self.editor.view.index;
            let gs = graphemes(self.editor.buf.as_str());
            let n = gs.len();
            let lo = if view < n {
                view
            } else {
                n
            };
            let hi = if view < n && max_size < n - view {
                view + max_size
            } else {
                n
            };
            let shown = concat_range(&gs, lo, hi);
            assert(shown@ =~= visible_text(self.editor.buf@, view as int, width as int));
            let cells = Charxels::from_str(shown.as_str());
            assert(cells@ =~= text_cells(shown@));
            frame.write(cells);
            let chi = if cursor < n {
                cursor
            } else {
                n
            };
            let before_cursor = if lo < chi {
                concat_range(&gs, lo, chi)
            } else {
                String::new()
            };
            assert(before_cursor@ =~= between(self.editor.buf@, view as int, cursor as int));
            let cgs = graphemes(before_cursor.as_str());
            let mut col: u16 = 0;
            let ghost ws = views(cgs@);
            assert(ws.take(0) =~= Seq::<Seq<char>>::empty());
            proof {
                lemma_widths_sum_prefix(ws, 0);
            }
            for k in 0..cgs.len()
                invariant
                    ws == views(cgs@),
                    ws == grapheme_clusters(before_cursor@),
                    col == widths_sum(ws.take(k as int)),
                    d.left + widths_sum(ws) <= u16::MAX,
            {
                proof {
                    lemma_widths_sum_prefix(ws, k + 1);
                    assert(ws.take(k + 1).drop_last() =~= ws.take(k as int));
                }
                assert(ws[k as int] == cgs@[k as int]@);
                col = col + display_width(cgs[k].as_str()) as u16;
            }
            assert(ws.take(cgs.len() as int) =~= ws);
            frame.set_cursor_with_priority(CursorPos { top: d.top, left: d.left + col }, 1);
        }
        frame.set_cursor_style(self.cursor_style);
        frame.set_cursor_visible(self.show_cursor);
    }

    pub fn set_show_cursor(&mut self, visible: bool)
        ensures
            *final(self) == (Input { show_cursor: visible, ..*old(self) }),
    {
        self.show_cursor = visible;
    }

    pub fn set_cursor_style(&mut self, style: CursorStyle)
        ensures
            *final(self) == (Input { cursor_style: style, ..*old(self) }),
    {
        self.cursor_style = style;
    }

    pub fn key(&mut self, c: char)
        requires
            old(self).editor.cursor.index < usize::MAX,
        ensures
            final(self).editor.buf@ == before(old(self).editor.buf@, old(self).editor.pos()) + seq![c]
                + after(old(self).editor.buf@, old(self).editor.pos()),
            final(self).editor.cursor.index == old(self).editor.cursor.index + 1,
            final(self).editor.view == old(self).editor.view,
            final(self).editor.width == old(self).editor.width,
            *final(self) == (Input { editor: final(self).editor, ..*old(self) }),
    {
        self.editor.key(c);
    }

    pub fn backspace(&mut self)
        requires
            old(self).editor.cursor.index > 0 && old(self).editor.pos() - 1 >= old(self).editor.len()
                ==> (old(self).editor.buf@.len() > 0 && (old(self).editor.buf@.last() as u32) < 0x80),
        ensures
            old(self).editor.cursor.index == 0 ==> final(self).editor.buf == old(self).editor.buf
                && final(self).editor.cursor == old(self).editor.cursor,
            old(self).editor.cursor.index > 0 ==> final(self).editor.buf@ == old(self).editor.buf@.remove(
                TextEditor::backspace_target(old(self).editor.buf@, old(self).editor.pos()),
            ) && final(self).editor.cursor.index == old(self).editor.cursor.index - 1,
            final(self).editor.view == old(self).editor.view,
            final(self).editor.width == old(self).editor.width,
            *final(self) == (Input { editor: final(self).editor, ..*old(self) }),
    {
        self.editor.backspace();
    }

    pub fn backward_delete_word(&mut self)
        ensures
            ({
                let ed = old(self).editor;
                let ws = sat_sub(ed.pos(), TextEditor::word_back_count(ed.buf@, ed.pos()));
                &&& final(self).editor.buf@ == before(ed.buf@, ws) + after(ed.buf@, ed.pos())
                &&& final(self).editor.cursor.index == ws
            }),
            final(self).editor.view == old(self).editor.view,
            final(self).editor.width == old(self).editor.width,
            *final(self) == (Input { editor: final(self).editor, ..*old(self) }),
    {
        self.editor.backward_delete_word();
    }

    pub fn delete_from_cursor_to_start(&mut self)
        ensures
            final(self).editor.buf@ == after(old(self).editor.buf@, old(self).editor.pos()),
            final(self).editor.cursor.index == 0,
            final(self).editor.view.index == 0,
            final(self).editor.width == old(self).editor.width,
            *final(self) == (Input { editor: final(self).editor, ..*old(self) }),
    {
        self.editor.delete_from_cursor_to_start();
    }

    pub fn delete_from_cursor_to_end(&mut self)
        ensures
            final(self).editor.buf@ == before(old(self).editor.buf@, old(self).editor.pos()),
            final(self).editor.cursor == old(self).editor.cursor,
            final(self).editor.view == old(self).editor.view,
            final(self).editor.width == old(self).editor.width,
            *final(self) == (Input { editor: final(self).editor, ..*old(self) }),
    {
        self.editor.delete_from_cursor_to_end();
    }

    pub fn delete(&mut self)
        ensures
            old(self).editor.pos() < old(self).editor.len() ==> final(self).editor.buf@ == old(
                self,
            ).editor.buf@.remove(before(old(self).editor.buf@, old(self).editor.pos()).len() as int),
            old(self).editor.pos() >= old(self).editor.len() ==> final(self).editor.buf == old(
                self,
            ).editor.buf,
            final(self).editor.cursor == old(self).editor.cursor,
            final(self).editor.view == old(self).editor.view,
            final(self).editor.width == old(self).editor.width,
            *final(self) == (Input { editor: final(self).editor, ..*old(self) }),
    {
        self.editor.delete();
    }

    pub fn home(&mut self)
        ensures
            final(self).editor.buf == old(self).editor.buf,
            final(self).editor.cursor.index == 0,
            final(self).editor.view.index == 0,
            final(self).editor.width == old(self).editor.width,
            *final(self) == (Input { editor: final(self).editor, ..*old(self) }),
    {
        self.editor.home();
    }

    pub fn end(&mut self)
        ensures
            final(self).editor.buf == old(self).editor.buf,
            final(self).editor.cursor.index == old(self).editor.len(),
            final(self).editor.view.index == end_view(
                old(self).editor.len(),
                old(self).editor.width as int,
            ),
            final(self).editor.width == old(self).editor.width,
            *final(self) == (Input { editor: final(self).editor, ..*old(self) }),
    {
        self.editor.end();
    }

    /// Empty the line and leave password mode.
    pub fn clear(&mut self)
        ensures
            final(self).editor.buf@ == Seq::<char>::empty(),
            final(self).editor.cursor.index == 0,
            final(self).editor.view.index == 0,
            final(self).editor.width == old(self).editor.width,
            final(self).tmp_buf is None,
            !final(self).password,
            final(self).show_cursor,
            final(self).history == old(self).history,
            final(self).history_index == old(self).history_index,
            final(self).cursor_style == old(self).cursor_style,
    {
        self.editor.clear();
        self.tmp_buf = None;
        self.password = false;
        self.show_cursor = true;
    }

    pub fn left(&mut self)
        ensures
            final(self).editor.buf == old(self).editor.buf,
            final(self).editor.cursor.index == sat_sub(old(self).editor.pos(), 1),
            final(self).editor.view == old(self).editor.view,
            final(self).editor.width == old(self).editor.width,
            *final(self) == (Input { editor: final(self).editor, ..*old(self) }),
    {
        self.editor.left();
    }

    pub fn right(&mut self)
        ensures
            final(self).editor.buf == old(self).editor.buf,
            final(self).editor.cursor.index == if old(self).editor.pos() < old(self).editor.len() {
                old(self).editor.pos() + 1
            } else {
                old(self).editor.pos()
            },
            final(self).editor.view == old(self).editor.view,
            final(self).editor.width == old(self).editor.width,
            *final(self) == (Input { editor: final(self).editor, ..*old(self) }),
    {
        self.editor.right();
    }

    pub fn word_left(&mut self)
        ensures
            final(self).editor.buf == old(self).editor.buf,
            final(self).editor.cursor.index == sat_sub(
                old(self).editor.pos(),
                TextEditor::word_back_count(old(self).editor.buf@, old(self).editor.pos()),
            ),
            final(self).editor.view == old(self).editor.view,
            final(self).editor.width == old(self).editor.width,
            *final(self) == (Input { editor: final(self).editor, ..*old(self) }),
    {
        self.editor.word_left();
    }

    pub fn word_right(&mut self)
        requires
            old(self).editor.pos() + TextEditor::word_fwd_count(
                old(self).editor.buf@,
                old(self).editor.pos(),
            ) <= usize::MAX,
        ensures
            final(self).editor.buf == old(self).editor.buf,
            final(self).editor.cursor.index == old(self).editor.pos() + TextEditor::word_fwd_count(
                old(self).editor.buf@,
                old(self).editor.pos(),
            ),
            final(self).editor.view == old(self).editor.view,
            final(self).editor.width == old(self).editor.width,
            *final(self) == (Input { editor: final(self).editor, ..*old(self) }),
    {
        self.editor.word_right();
    }

    /// Enter password mode: the line is not echoed nor kept in history.
    pub fn password(&mut self)
        ensures
            *final(self) == (Input { password: true, show_cursor: false, ..*old(self) }),
    {
        self.password = true;
        self.show_cursor = false;
    }

    /// Take the typed line, returning it with whether it was a password. A
    /// line that is not a password is appended to the history, and the
    /// history index moves past the end.
    pub fn validate(&mut self) -> (r: (String, bool))
        ensures
            r.0@ == old(self).editor.buf@,
            r.1 == old(self).password,
            !old(self).password ==> final(self).history@.len() == old(self).history@.len() + 1
                && final(self).history@.take(old(self).history@.len() as int) == old(self).history@
                && final(self).history@.last()@ == old(self).editor.buf@
                && final(self).history_index == final(self).history@.len(),
            old(self).password ==> final(self).history == old(self).history
                && final(self).history_index == old(self).history_index,
            final(self).editor.buf@ == Seq::<char>::empty(),
            final(self).editor.cursor.index == 0,
            final(self).tmp_buf is None,
            !final(self).password,
            old(self).wf() ==> final(self).wf(),
    {
        if !self.password {
            self.history.push(self.editor.buf.clone());
            self.history_index = self.history.len();
            assert(self.history@.take(old(self).history@.len() as int) =~= old(self).history@);
        }
        let buf = self.editor.buf.clone();
        let password = self.password;
        self.clear();
        (buf, password)
    }

    /// The editor showing `buf` with the cursor at its end.
    pub open spec fn recalled(self, buf: String) -> TextEditor {
        TextEditor {
            buf,
            cursor: Cursor { index: clusters(buf@).len() as usize },
            view: Cursor {
                index: end_view(clusters(buf@).len() as int, self.editor.width as int) as usize,
            },
            width: self.editor.width,
        }
    }

    /// The input after recalling the previous history entry.
    pub open spec fn previous_spec(self) -> Self {
        if self.history_index == 0 {
            self
        } else {
            Input {
                tmp_buf: if self.tmp_buf is None {
                    Some(self.editor.buf)
                } else {
                    self.tmp_buf
                },
                history_index: (self.history_index - 1) as usize,
                editor: self.recalled(self.history@[self.history_index - 1]),
                ..self
            }
        }
    }

    /// The input after recalling the next history entry, or the saved line
    /// when moving past the last one.
    pub open spec fn next_spec(self) -> Self {
        if self.history_index == self.history@.len() {
            self
        } else if self.history_index + 1 == self.history@.len() {
            Input {
                tmp_buf: None,
                history_index: (self.history_index + 1) as usize,
                editor: self.recalled(self.tmp_buf->0),
                ..self
            }
        } else {
            Input {
                history_index: (self.history_index + 1) as usize,
                editor: self.recalled(self.history@[self.history_index + 1]),
                ..self
            }
        }
    }

    /// Recall the previous history entry, saving the line being typed.
    pub fn previous(&mut self)
        requires
            old(self).wf(),
        ensures
            final(self).wf(),
            *final(self) == old(self).previous_spec(),
    {
        if self.history_index == 0 {
            return;
        }
        if self.tmp_buf.is_none() {
            self.tmp_buf = Some(self.editor.buf.clone());
        }
        self.history_index -= 1;
        self.editor.buf = self.history[self.history_index].clone();
        self.editor.end();
    }

    /// Recall the next history entry, or the saved line past the last one.
    pub fn next(&mut self)
        requires
            old(self).wf(),
            old(self).history_index + 1 == old(self).history@.len() ==> old(self).tmp_buf is Some,
        ensures
            final(self).wf(),
            *final(self) == old(self).next_spec(),
    {
        if self.history_index == self.history.len() {
            return;
        }
        self.history_index += 1;
        if self.history_index == self.history.len() {
            let t = self.tmp_buf.take();
            self.editor.buf = t.unwrap();
        } else {
            self.editor.buf = self.history[self.history_index].clone();
        }
        self.editor.end();
    }
}

proof fn lemma_widths_sum_prefix(gs: Seq<Seq<char>>, k: int)
    requires
        0 <= k <= gs.len(),
    ensures
        0 <= widths_sum(gs.take(k)) <= widths_sum(gs),
    decreases gs.len(),
{
    if k < gs.len() {
        assert(gs.drop_last().take(k) =~= gs.take(k));
        lemma_widths_sum_prefix(gs.drop_last(), k);
    } else {
        assert(gs.take(k) =~= gs);
    }
    if gs.len() > 0 {
        lemma_widths_sum_prefix(gs.drop_last(), gs.len() - 1);
        assert(gs.drop_last().take(gs.len() - 1) =~= gs.drop_last());
    }
}

/// Browsing back one entry from the line being typed and forward again
/// gives back that line, with the history position where it was.
pub proof fn lemma_previous_next_restores<E>(input: Input<E>)
    requires
        input.wf(),
        input.history_index == input.history@.len(),
        input.history_index > 0,
        input.tmp_buf is None,
    ensures
        input.previous_spec().next_spec().editor.buf == input.editor.buf,
        input.previous_spec().next_spec().history_index == input.history_index,
        input.previous_spec().next_spec().tmp_buf is None,
{
}

} // verus!
