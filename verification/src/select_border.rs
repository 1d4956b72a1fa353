//! The selection toolbar: its commands, buttons and hit testing.

use vstd::prelude::*;
use crate::platform::{rect_edges_fit, spec_contains, Point, Rect};

verus! {

#[derive(Clone, Copy, Debug, PartialEq, Eq, Structural)]
pub enum MouseStatus {
    Normal,
    LBtnDown,
    Move,
}

impl Default for MouseStatus {
    fn default() -> (s: Self)
        ensures
            s == MouseStatus::Normal,
    {
        MouseStatus::Normal
    }
}

#[derive(Clone, Copy, Debug, PartialEq, Eq, Structural)]
pub enum CatchStatus {
    Init,
    SelStart,
    SelIng,
    SelFinish,
    DrawIng,
    Gifing,
}

impl Default for CatchStatus {
    fn default() -> (s: Self)
        ensures
            s == CatchStatus::Init,
    {
        CatchStatus::Init
    }
}

#[derive(Clone, Copy, Debug, PartialEq, Eq, Structural)]
pub enum ToolbarCommand {
    Rectangle,
    Ellipse,
    Text,
    Number,
    Pen,
    Arrow,
    Line,
    DashedLine,
    Mosaic,
    Gif,
    Pin,
    Ocr,
    LongScreenshot,
    Undo,
    Save,
    Cancel,
    Confirm,
}

#[derive(Clone, Copy, Debug, PartialEq, Eq, Structural)]
pub struct ToolbarButton {
    pub command: ToolbarCommand,
    pub rect: Rect,
    pub visible: bool,
}

/// Button `b` is visible and contains `(x, y)`.
pub open spec fn button_hit(b: ToolbarButton, x: i32, y: i32) -> bool {
    b.visible && spec_contains(b.rect, Point { x, y })
}

/// The command of the first button hit at `(x, y)`, looking at `buttons[i..]`.
pub open spec fn first_hit(buttons: Seq<ToolbarButton>, x: i32, y: i32, i: int) -> Option<ToolbarCommand>
    decreases buttons.len() - i,
{
    if i < 0 || i >= buttons.len() {
        None
    } else if button_hit(buttons[i], x, y) {
        Some(buttons[i].command)
    } else {
        first_hit(buttons, x, y, i + 1)
    }
}

#[derive(Clone, Debug)]
pub struct SelectBorder {
    buttons: Vec<ToolbarButton>,
}

impl Default for SelectBorder {
    fn default() -> (s: Self)
        ensures
            s@ == Seq::<ToolbarButton>::empty(),
    {
        SelectBorder { buttons: Vec::new() }
    }
}

impl View for SelectBorder {
    type V = Seq<ToolbarButton>;

    closed spec fn view(&self) -> Seq<ToolbarButton> {
        self.buttons@
    }
}

impl SelectBorder {
    pub fn set_buttons(&mut self, buttons: Vec<ToolbarButton>)
        ensures
            final(self)@ == buttons@,
    {
        self.buttons = buttons;
    }

    /// The command of the first visible button containing `(x, y)`.
    pub fn hit_test(&self, x: i32, y: i32) -> (c: Option<ToolbarCommand>)
        requires
            forall|i: int| 0 <= i < self@.len() ==> rect_edges_fit(#[trigger] self@[i].rect),
        ensures
            c == first_hit(self@, x, y, 0),
    {
        let mut i: usize = 0;
        while i < self.buttons.len()
            invariant
                i <= self@.len(),
                forall|k: int| 0 <= k < self@.len() ==> rect_edges_fit(#[trigger] self@[k].rect),
                first_hit(self@, x, y, 0) == first_hit(self@, x, y, i as int),
            decreases self@.len() - i,
        {
            let button = self.buttons[i];
            if button.visible && button.rect.contains(Point { x, y }) {
                return Some(button.command);
            }
            i += 1;
        }
        None
    }

    pub fn buttons(&self) -> (b: &[ToolbarButton])
        ensures
            b@ == self@,
    {
        self.buttons.as_slice()
    }
}

} // verus!
