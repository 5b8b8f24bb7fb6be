//! A single-row text label.

use vstd::prelude::*;
use crate::charxel::Charxels;
use crate::input::text_cells;
use crate::layout::{CursorPos, Dimensions, MeasureSpecs, RequestedDimension, RequestedDimensions};
use crate::rendering::{write_run, BufferView, PenState, ScreenFrame};
use crate::text::is_clean;
use crate::unicode::{copy_str, str_eq};

verus! {

/// A single-row text label. It asks for all the room it can get and shows
/// its text from its corner, cut at the area's edge.
#[derive(Debug)]
pub struct Label {
    pub text: String,
}

impl Clone for Label {
    fn clone(&self) -> (r: Self)
        ensures
            r.text@ == self.text@,
    {
        Label { text: copy_str(self.text.as_str()) }
    }
}

impl PartialEq for Label {
    fn eq(&self, other: &Self) -> (r: bool) {
        str_eq(self.text.as_str(), other.text.as_str())
    }
}

impl vstd::std_specs::cmp::PartialEqSpecImpl for Label {
    open spec fn obeys_eq_spec() -> bool {
        true
    }

    open spec fn eq_spec(&self, other: &Self) -> bool {
        self.text@ == other.text@
    }
}

impl Label {
    pub fn new(text: String) -> (r: Self)
        ensures
            r.text@ == text@,
    {
        Label { text }
    }

    pub fn measure(&self, _measure_specs: &MeasureSpecs) -> (r: RequestedDimensions)
        ensures
            r.width == RequestedDimension::ExpandMax,
            r.height == RequestedDimension::ExpandMax,
    {
        RequestedDimensions { width: RequestedDimension::ExpandMax, height: RequestedDimension::ExpandMax }
    }

    /// A label keeps nothing of its layout.
    pub fn layout(&mut self, _dimensions: &Dimensions)
        ensures
            final(self).text@ == old(self).text@,
    {
    }

    /// Write the text from the area's corner.
    pub fn render(&self, frame: &mut ScreenFrame)
        requires
            old(frame).wf(),
            is_clean(self.text@),
        ensures
            final(frame).wf(),
            final(frame).area() == old(frame).area(),
            final(frame).buffer() == (BufferView {
                lines: write_run(
                    PenState { lines: old(frame).buffer().lines, left: 0, stopped: false },
                    text_cells(self.text@),
                    old(frame).area(),
                    0,
                ).lines,
                ..old(frame).buffer()
            }),
    {
        let cells = Charxels::from_str(self.text.as_str());
        assert(cells@ =~= text_cells(self.text@));
        frame.write_at(CursorPos { top: 0, left: 0 }, cells);
    }
}

} // verus!
