//! RGBA images as the resampler reads and writes them.

use vstd::prelude::*;

verus! {

/// A borrowed RGBA image, four bytes per pixel, row by row.
#[derive(Debug, Clone, Copy)]
pub struct ImageRef<'a> {
    pub pixels: &'a [u8],
    pub width: u32,
    pub height: u32,
}

impl<'a> ImageRef<'a> {
    /// An image over `pixels`, or `None` when the buffer does not hold
    /// exactly `width * height` RGBA pixels.
    pub fn new(pixels: &'a [u8], width: u32, height: u32) -> (r: Option<Self>)
        ensures
            r is Some <==> pixels@.len() == width * height * 4,
            r matches Some(img) ==> img.pixels@ == pixels@ && img.width == width && img.height
                == height,
    {
        proof {
            assert(0 <= width * height <= 0xffff_ffffint * 0xffff_ffffint) by (nonlinear_arith)
                requires
                    0 <= width <= 0xffff_ffff,
                    0 <= height <= 0xffff_ffff,
            ;
        }
        let expected: u128 = width as u128 * height as u128 * 4;
        if pixels.len() as u128 != expected {
            return None;
        }
        Some(Self { pixels, width, height })
    }
}

/// An owned RGBA image.
#[derive(Debug, Clone)]
pub struct ImageBuf {
    pub pixels: Vec<u8>,
    pub width: u32,
    pub height: u32,
}

impl ImageBuf {
    /// Four bytes per pixel, row by row.
    pub open spec fn wf(&self) -> bool {
        self.pixels.len() == self.width * self.height * 4
    }
}

} // verus!
