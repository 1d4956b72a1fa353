//! The capture workflow: state machine, annotation model, undo history and the
//! integer core of long-screenshot stitching.

pub mod annotation_model;
pub mod command_history;
pub mod sampling;
pub mod state_machine;
pub mod stitcher;
pub mod types;

pub use state_machine::{AppEvent, AppState, ScreenshotStateMachine};
pub use stitcher::LongScreenshotStitcher;
pub use annotation_model::AnnotationModel;
pub use command_history::CommandHistory;
pub use types::AnnotationTool;
