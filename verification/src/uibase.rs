//! Layout records of the overlay UI.

use vstd::prelude::*;
use crate::platform::Rect;

verus! {

#[derive(Clone, Copy, Debug, PartialEq, Eq, Structural)]
pub struct Margin {
    pub left: i32,
    pub top: i32,
    pub right: i32,
    pub bottom: i32,
}

#[derive(Clone, Copy, Debug, PartialEq, Eq, Structural)]
pub struct Padding {
    pub left: i32,
    pub top: i32,
    pub right: i32,
    pub bottom: i32,
}

impl Default for Margin {
    fn default() -> (m: Self)
        ensures
            m == (Margin { left: 0, top: 0, right: 0, bottom: 0 }),
    {
        Margin { left: 0, top: 0, right: 0, bottom: 0 }
    }
}

impl Default for Padding {
    fn default() -> (p: Self)
        ensures
            p == (Padding { left: 0, top: 0, right: 0, bottom: 0 }),
    {
        Padding { left: 0, top: 0, right: 0, bottom: 0 }
    }
}

/// The data every UI node carries.
#[derive(Clone, Copy, Debug, PartialEq, Eq, Structural)]
pub struct UINodeBase {
    pub id: u32,
    pub rect: Rect,
    pub margin: Margin,
    pub padding: Padding,
    pub visible: bool,
}

impl UINodeBase {
    /// A visible node with no margin or padding.
    pub fn new(id: u32, rect: Rect) -> (n: Self)
        ensures
            n.id == id,
            n.rect == rect,
            n.margin == (Margin { left: 0, top: 0, right: 0, bottom: 0 }),
            n.padding == (Padding { left: 0, top: 0, right: 0, bottom: 0 }),
            n.visible,
    {
        UINodeBase { id, rect, margin: Margin::default(), padding: Padding::default(), visible: true }
    }
}

} // verus!
