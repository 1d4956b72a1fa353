//! Long screenshots: geometry and image types, and the session helpers that
//! clean captured frames before they are stitched.

pub mod capture;
pub mod runtime;
pub mod session;
pub mod types;

pub use types::{LongShotImage, LongShotPoint, LongShotRect, LongShotSize};
pub use session::{
    trim_image_trailing_capture_dropout, trim_trailing_capture_dropout, LongShotAppendStatus,
    tuned_row_limits, LongShotSession, LongShotSessionLimits, LongShotStartError, StitchDecision, TunedRowLimits,
    DEFAULT_LONG_SHOT_MAX_OUTPUT_HEIGHT,
};
pub use runtime::{AppendReaction, LongShotRuntime, LongShotRuntimeConfig, LongShotRuntimeError, LongShotRuntimeModel};
