//! Settings and pixel preparation for the GIF recorder and pinned-image windows.

pub mod gifdlg;
pub mod pindlg;
