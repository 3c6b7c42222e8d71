//! A rendered picture as the viewport wants it.

use vstd::prelude::*;

verus! {

/// sRGB-encoded 8-bit RGBA, row-major, no padding.
#[derive(Clone, Debug)]
pub struct Frame {
    pub width: u32,
    pub height: u32,
    pub rgba: Vec<u8>,
}

impl Frame {
    /// The size of the pixel data in bytes.
    pub fn bytes(&self) -> (r: usize)
        ensures
            r == self.rgba@.len(),
    {
        self.rgba.len()
    }
}

} // verus!
