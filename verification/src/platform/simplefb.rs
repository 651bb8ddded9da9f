//! Description of a firmware-provided linear framebuffer, as read out of
//! the boot information blob.

use vstd::prelude::*;

verus! {

/// Pixel layout of a firmware framebuffer.
#[derive(Clone, Copy, Debug, Eq, PartialEq, Structural)]
pub enum SimpleFbFormat {
    X8R8G8B8,
    A8R8G8B8,
}

/// Location and geometry of a firmware framebuffer.
#[derive(Clone, Copy, Debug, Eq, PartialEq, Structural)]
pub struct SimpleFbInfo {
    pub addr: u64,
    pub size: u64,
    pub width: u32,
    pub height: u32,
    pub stride: u32,
    pub format: SimpleFbFormat,
}

} // verus!
