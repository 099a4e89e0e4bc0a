//! Preparing a photo for the face detector.
//!
//! The webview has already decoded the image and sends its RGBA pixels; the
//! detector wants RGB. Re-encoding to a file only to decode it again would be
//! wasteful, so the pixels are checked and repacked here.

use vstd::prelude::*;
use crate::commands::{
    check_image_body, is_bare, is_size_mismatch, key_image_empty, photo_bytes, rgba_to_rgb, UiError,
};

verus! {

/// The RGB bytes the detector reads, for an RGBA body of `width` by
/// `height` pixels.
///
/// An empty image and a body of the wrong length are refused as the other
/// image commands refuse them; otherwise every pixel's alpha is dropped.
pub fn detector_input(rgba: &[u8], width: u32, height: u32) -> (r: Result<Vec<u8>, UiError>)
    ensures
        (width == 0 || height == 0) ==> r is Err && is_bare(r->Err_0, key_image_empty()),
        width > 0 && height > 0 ==> {
            &&& photo_bytes(width, height) > usize::MAX ==> r is Err && is_size_mismatch(
                r->Err_0,
                None,
                rgba@.len() as int,
            )
            &&& photo_bytes(width, height) <= usize::MAX && rgba@.len() != photo_bytes(width, height)
                ==> r is Err && is_size_mismatch(
                r->Err_0,
                Some(photo_bytes(width, height)),
                rgba@.len() as int,
            )
            &&& rgba@.len() == photo_bytes(width, height) ==> (r matches Ok(rgb) && rgb@.len() == 3
                * width * height && forall|p: int, c: int|
                0 <= p < width * height && 0 <= c < 3 ==> #[trigger] rgb@[3 * p + c] == rgba@[4 * p
                    + c])
        },
{
    match check_image_body(rgba.len(), width, height, true) {
        Err(e) => Err(e),
        Ok(()) => {
            proof {
                assert(rgba@.len() == 4 * (width * height));
                assert(rgba@.len() / 4 == width * height);
                assert((width * height) * 3 == 3 * width * height) by (nonlinear_arith);
            }
            Ok(rgba_to_rgb(rgba))
        },
    }
}

} // verus!
