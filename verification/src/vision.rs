//! What the face detector and the background segmenter can report back.
//!
//! The models themselves run outside the library; these are the outcomes the
//! rest of the program has to handle.

use vstd::prelude::*;
use vstd::string::StringExecFns;

verus! {

/// Why face detection failed.
#[derive(Debug, Clone, PartialEq, Eq)]
pub enum DetectError {
    ModelLoad(String),
    Inference(String),
    /// An expected output tensor was missing or the wrong shape.
    UnexpectedOutput(String),
}

impl DetectError {
    /// The message shown to the user.
    pub fn describe(&self) -> (s: String)
        ensures
            (match *self {
                DetectError::ModelLoad(m) => s@ == "could not load model: "@ + m@,
                DetectError::Inference(m) => s@ == "inference failed: "@ + m@,
                DetectError::UnexpectedOutput(m) => s@ == "unexpected model output: "@ + m@,
            }),
    {
        let (prefix, m) = match self {
            DetectError::ModelLoad(m) => ("could not load model: ", m),
            DetectError::Inference(m) => ("inference failed: ", m),
            DetectError::UnexpectedOutput(m) => ("unexpected model output: ", m),
        };
        let mut s = String::from_str(prefix);
        s.append(m.as_str());
        s
    }
}

/// Why background segmentation failed.
#[derive(Debug, Clone, PartialEq, Eq)]
pub enum SegmentError {
    ModelLoad(String),
    Inference(String),
    UnexpectedOutput(String),
}

impl SegmentError {
    /// The message shown to the user.
    pub fn describe(&self) -> (s: String)
        ensures
            (match *self {
                SegmentError::ModelLoad(m) => s@ == "could not load segmentation model: "@ + m@,
                SegmentError::Inference(m) => s@ == "segmentation failed: "@ + m@,
                SegmentError::UnexpectedOutput(m) => s@ == "unexpected model output: "@ + m@,
            }),
    {
        let (prefix, m) = match self {
            SegmentError::ModelLoad(m) => ("could not load segmentation model: ", m),
            SegmentError::Inference(m) => ("segmentation failed: ", m),
            SegmentError::UnexpectedOutput(m) => ("unexpected model output: ", m),
        };
        let mut s = String::from_str(prefix);
        s.append(m.as_str());
        s
    }
}

/// Which execution provider a model session ended up on. Surfaced so the UI
/// can explain a slow first run rather than appear stuck.
#[derive(Debug, Clone, Copy, PartialEq, Eq, Structural)]
pub enum Backend {
    DirectMl,
    Cpu,
}

impl Backend {
    /// The name the UI is told, as the mask response carries it.
    pub fn name(&self) -> (s: &'static str)
        ensures
            *self == Backend::DirectMl ==> s@ == "DirectMl"@,
            *self == Backend::Cpu ==> s@ == "Cpu"@,
    {
        match self {
            Backend::DirectMl => "DirectMl",
            Backend::Cpu => "Cpu",
        }
    }
}

/// The pixels `image::imageops::resize` gives, with the triangle filter,
/// for an RGB image of `width` by `height` pixels stretched to `new_width`
/// by `new_height`.
pub uninterp spec fn triangle_resized(
    rgb: Seq<u8>,
    width: u32,
    height: u32,
    new_width: u32,
    new_height: u32,
) -> Seq<u8>;

/// `image::imageops::resize` with `FilterType::Triangle` on an RGB image
/// held as raw bytes, row by row.
///
/// Claimed of it, as the crate's source shows: the result is an image of
/// the new size, so it holds three bytes per new pixel; a resize to the same
/// size is a plain copy; and the pixels are a function of the input and the
/// sizes alone. Which pixels the filter computes is left unstated: it is
/// floating-point resampling, named by [`triangle_resized`]. The crate
/// allocates a four-channel float image of `width` by `new_height` on the
/// way and panics when a buffer length overflows, which `requires` rules
/// out.
#[verifier::external_body]
fn resize_triangle(rgb: &[u8], width: u32, height: u32, new_width: u32, new_height: u32) -> (r: Vec<u8>)
    requires
        rgb@.len() == 3 * width * height,
        3 * new_width * new_height <= usize::MAX,
        4 * width * new_height <= usize::MAX,
    ensures
        r@ == triangle_resized(rgb@, width, height, new_width, new_height),
        r@.len() == 3 * new_width * new_height,
        (new_width == width && new_height == height) ==> r@ == rgb@,
{
    let image = image::RgbImage::from_raw(width, height, rgb.to_vec()).unwrap();
    image::imageops::resize(&image, new_width, new_height, image::imageops::FilterType::Triangle)
        .into_raw()
}

/// An RGB image stretched to the size a model takes, by the triangle filter
/// both models are fed through.
///
/// `None` when `rgb` does not hold exactly three bytes for each of the
/// `width` by `height` pixels, or when the new image, or the filter's
/// four-channel working copy of `width` by `new_height`, would not fit in
/// memory's address range.
pub fn scaled_rgb(rgb: &[u8], width: u32, height: u32, new_width: u32, new_height: u32) -> (r:
    Option<Vec<u8>>)
    ensures
        r is Some <==> (rgb@.len() == 3 * width * height && 3 * new_width * new_height
            <= usize::MAX && 4 * width * new_height <= usize::MAX),
        r matches Some(v) ==> v@ == triangle_resized(rgb@, width, height, new_width, new_height)
            && v@.len() == 3 * new_width * new_height,
        r matches Some(v) ==> (new_width == width && new_height == height ==> v@ == rgb@),
{
    proof {
        assert(0 <= width * height <= u32::MAX * u32::MAX) by (nonlinear_arith);
        assert(0 <= new_width * new_height <= u32::MAX * u32::MAX) by (nonlinear_arith);
        assert(0 <= width * new_height <= u32::MAX * u32::MAX) by (nonlinear_arith);
    }
    let source: u128 = 3 * (width as u128 * height as u128);
    let target: u128 = 3 * (new_width as u128 * new_height as u128);
    let working: u128 = 4 * (width as u128 * new_height as u128);
    proof {
        assert(3 * (width * height) == 3 * width * height) by (nonlinear_arith);
        assert(3 * (new_width * new_height) == 3 * new_width * new_height) by (nonlinear_arith);
        assert(4 * (width * new_height) == 4 * width * new_height) by (nonlinear_arith);
    }
    if rgb.len() as u128 != source || target > usize::MAX as u128 || working > usize::MAX as u128 {
        return None;
    }
    Some(resize_triangle(rgb, width, height, new_width, new_height))
}

} // verus!
