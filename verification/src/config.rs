//! The plain parts of the user settings.

use vstd::prelude::*;

verus! {

/// The drawing colour as stored in the settings file.
#[derive(Clone, Copy, Debug, PartialEq, Eq, Structural)]
pub struct ConfigColor {
    pub r: u8,
    pub g: u8,
    pub b: u8,
    pub a: u8,
}

/// How the mosaic tool hides content.
#[derive(Clone, Copy, Debug, PartialEq, Eq, Structural)]
pub enum MosaicStyle {
    Pixelate,
    Blur,
}

} // verus!
