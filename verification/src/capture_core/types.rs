//! The annotation tools the toolbar offers.

use vstd::prelude::*;

verus! {

#[derive(Clone, Copy, Debug, PartialEq, Eq, Structural)]
pub enum AnnotationTool {
    NoTool,
    Rectangle,
    Arrow,
    Text,
    Line,
    Freehand,
}

impl Default for AnnotationTool {
    fn default() -> (t: Self)
        ensures
            t == AnnotationTool::Rectangle,
    {
        AnnotationTool::Rectangle
    }
}

} // verus!
