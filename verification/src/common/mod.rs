//! Animated GIF recording: a frame cache with size and duration limits, and
//! the encoder calls that turn it into a GIF file.

pub mod gif;
pub mod gif_encoder;
