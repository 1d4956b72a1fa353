//! Screenshot tooling core: geometry, pixel buffers, PNG encoding, the capture
//! state machine and the long-screenshot building blocks.

pub mod platform;
pub mod bytes;
pub mod png;
pub mod capture_core;
pub mod longshot;
pub mod common;
pub mod raster;
pub mod config;
pub mod select_border;
pub mod uibase;
pub mod dc_control;
pub mod windows;
pub mod win32;
