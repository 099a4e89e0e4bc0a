//! The checks and framing at the edge where the UI hands over requests.
//!
//! Errors crossing to the UI carry a message key plus named values, so the UI
//! can localise them; never a pre-formatted sentence. Raw request bodies are
//! split here, with every length checked before anything indexes into them.

use vstd::prelude::*;
use vstd::slice::slice_subrange;
use vstd::string::StringExecFns;
use crate::layout::LayoutError;
use crate::mask::BrushMode;
use crate::presets::PresetError;
use crate::print::PrinterInfo;

verus! {

/// A value attached to an error for the UI to show.
#[derive(Debug, Clone, PartialEq)]
pub enum ParamValue {
    /// No number could be named, for example because it overflowed.
    Null,
    Count(u64),
    Text(String),
}

/// One named value of an error.
#[derive(Debug, Clone, PartialEq)]
pub struct UiParam {
    pub name: String,
    pub value: ParamValue,
}

/// An error as the UI receives it: a message key and its values.
#[derive(Debug, Clone, PartialEq)]
pub struct UiError {
    pub key: String,
    pub params: Vec<UiParam>,
}

pub open spec fn key_size_mismatch() -> Seq<char> {
    "error.image.size_mismatch"@
}

pub open spec fn key_decode_failed() -> Seq<char> {
    "error.image.decode_failed"@
}

pub open spec fn key_image_empty() -> Seq<char> {
    "error.image.empty"@
}

/// The value a count takes in an error.
pub open spec fn count_value(n: Option<int>) -> ParamValue {
    match n {
        Some(v) => ParamValue::Count(v as u64),
        None => ParamValue::Null,
    }
}

/// `e` is a size mismatch naming `expected` (or nothing) and `got`.
pub open spec fn is_size_mismatch(e: UiError, expected: Option<int>, got: int) -> bool {
    &&& e.key@ == key_size_mismatch()
    &&& e.params@.len() == 2
    &&& e.params@[0].name@ == "expected"@
    &&& e.params@[0].value == count_value(expected)
    &&& e.params@[1].name@ == "got"@
    &&& e.params@[1].value == ParamValue::Count(got as u64)
}

/// `e` carries the key `key` and no values.
pub open spec fn is_bare(e: UiError, key: Seq<char>) -> bool {
    e.key@ == key && e.params@.len() == 0
}

impl UiError {
    /// An error with a key and no values.
    pub fn new(key: &str) -> (e: Self)
        ensures
            is_bare(e, key@),
    {
        UiError { key: String::from_str(key), params: Vec::new() }
    }

    /// An error with a key and the given values.
    pub fn with(key: &str, params: Vec<UiParam>) -> (e: Self)
        ensures
            e.key@ == key@,
            e.params@ == params@,
    {
        UiError { key: String::from_str(key), params }
    }

    /// The first value named `name`, if the error carries one.
    pub fn param(&self, name: &str) -> (r: Option<&ParamValue>)
        ensures
            match r {
                Some(v) => exists|i: int|
                    0 <= i < self.params@.len() && self.params@[i].name@ == name@ && self.params@[i].value
                        == *v && forall|j: int| 0 <= j < i ==> self.params@[j].name@ != name@,
                None => forall|i: int| 0 <= i < self.params@.len() ==> self.params@[i].name@ != name@,
            },
    {
        let mut i: usize = 0;
        while i < self.params.len()
            invariant
                i <= self.params@.len(),
                forall|j: int| 0 <= j < i ==> self.params@[j].name@ != name@,
            decreases self.params@.len() - i,
        {
            if crate::text::same_text(self.params[i].name.as_str(), name) {
                return Some(&self.params[i].value);
            }
            i += 1;
        }
        None
    }
}

fn count_param(name: &str, n: Option<usize>) -> (p: UiParam)
    ensures
        p.name@ == name@,
        p.value == count_value(
            match n {
                Some(v) => Some(v as int),
                None => None,
            },
        ),
{
    let value = match n {
        Some(v) => ParamValue::Count(v as u64),
        None => ParamValue::Null,
    };
    UiParam { name: String::from_str(name), value }
}

/// The size mismatch error for a body of `got` bytes.
fn size_mismatch(expected: Option<usize>, got: usize) -> (e: UiError)
    ensures
        is_size_mismatch(
            e,
            match expected {
                Some(v) => Some(v as int),
                None => None,
            },
            got as int,
        ),
{
    let mut params: Vec<UiParam> = Vec::new();
    params.push(count_param("expected", expected));
    params.push(count_param("got", Some(got)));
    UiError::with("error.image.size_mismatch", params)
}

proof fn lemma_u32_product(a: u32, b: u32)
    ensures
        0 <= a * b <= 0xffff_ffff * 0xffff_ffff,
{
    assert(0 <= a * b <= 0xffff_ffff * 0xffff_ffff) by (nonlinear_arith)
        requires
            a <= 0xffff_ffff,
            b <= 0xffff_ffff,
    ;
}

/// The little-endian number in four bytes.
pub open spec fn le_u32(b0: u8, b1: u8, b2: u8, b3: u8) -> int {
    b0 + 256 * b1 + 65536 * b2 + 16777216 * b3
}

/// Split a request body into its leading JSON header and the bytes after it.
///
/// The body starts with the header's length as a little-endian `u32`, then
/// the header, then the pixels. A body too short for either is refused as
/// undecodable.
pub fn split_request_frame(body: &[u8]) -> (r: Result<(&[u8], &[u8]), UiError>)
    ensures
        body@.len() < 4 ==> r is Err && is_bare(r->Err_0, key_decode_failed()),
        body@.len() >= 4 ==> {
            let n = le_u32(body@[0], body@[1], body@[2], body@[3]);
            &&& n > body@.len() - 4 ==> r is Err && is_bare(r->Err_0, key_decode_failed())
            &&& n <= body@.len() - 4 ==> r is Ok && r->Ok_0.0@ == body@.subrange(4, 4 + n)
                && r->Ok_0.1@ == body@.subrange(4 + n, body@.len() as int)
        },
{
    if body.len() < 4 {
        return Err(UiError::new("error.image.decode_failed"));
    }
    let n: u64 = body[0] as u64 + 256 * (body[1] as u64) + 65536 * (body[2] as u64) + 16777216 * (
    body[3] as u64);
    let rest_len = body.len() - 4;
    if n > rest_len as u64 {
        return Err(UiError::new("error.image.decode_failed"));
    }
    let n = n as usize;
    let json = slice_subrange(body, 4, 4 + n);
    let pixels = slice_subrange(body, 4 + n, body.len());
    Ok((json, pixels))
}

/// Mask dimensions and the colour to put behind the subject. The mask bytes
/// follow the photo in the raw body.
#[derive(Debug, Clone, Copy, PartialEq, Eq)]
pub struct BackgroundPayload {
    pub mask_width: u32,
    pub mask_height: u32,
    pub colour: [u8; 3],
}

/// The pixel buffers that accompany a print request, split out of the body.
pub struct PrintPixels<'a> {
    pub rgba: &'a [u8],
    pub mask: &'a [u8],
}

/// Bytes of a `width` by `height` RGBA photo.
pub open spec fn photo_bytes(width: u32, height: u32) -> int {
    width * height * 4
}

/// Bytes of the mask that follows the photo, if a background is replaced.
pub open spec fn mask_bytes(background: Option<BackgroundPayload>) -> int {
    match background {
        Some(b) => b.mask_width * b.mask_height,
        None => 0,
    }
}

/// Split the pixel section into the photo and, if one is expected, the mask.
///
/// The photo is followed by the mask with nothing between them: both lengths
/// follow from the dimensions. A total too large for memory is reported as a
/// mismatch naming no expected size; any other wrong length names it.
pub fn split_print_body<'a>(
    body: &'a [u8],
    width: u32,
    height: u32,
    background: Option<&BackgroundPayload>,
) -> (r: Result<PrintPixels<'a>, UiError>)
    ensures
        ({
            let bg = match background {
                Some(b) => Some(*b),
                None => None,
            };
            let total = photo_bytes(width, height) + mask_bytes(bg);
            &&& total > usize::MAX ==> r is Err && is_size_mismatch(r->Err_0, None, body@.len() as int)
            &&& total <= usize::MAX && body@.len() != total ==> r is Err && is_size_mismatch(
                r->Err_0,
                Some(total),
                body@.len() as int,
            )
            &&& body@.len() == total ==> r is Ok && r->Ok_0.rgba@ == body@.subrange(
                0,
                photo_bytes(width, height),
            ) && r->Ok_0.mask@ == body@.subrange(photo_bytes(width, height), total)
        }),
{
    proof {
        lemma_u32_product(width, height);
    }
    let photo_len: u128 = (width as u128) * (height as u128) * 4;
    let mask_len: u128 = match background {
        Some(b) => {
            proof {
                lemma_u32_product(b.mask_width, b.mask_height);
            }
            (b.mask_width as u128) * (b.mask_height as u128)
        },
        None => 0,
    };
    let total: u128 = photo_len + mask_len;
    if total > usize::MAX as u128 {
        return Err(size_mismatch(None, body.len()));
    }
    let total = total as usize;
    if body.len() != total {
        return Err(size_mismatch(Some(total), body.len()));
    }
    let photo_len = photo_len as usize;
    Ok(PrintPixels { rgba: slice_subrange(body, 0, photo_len), mask: slice_subrange(body, photo_len, total) })
}

/// Check an RGBA body against the dimensions sent with it.
///
/// With `require_pixels`, a zero width or height is refused as an empty
/// image before the length is looked at.
pub fn check_image_body(len: usize, width: u32, height: u32, require_pixels: bool) -> (r: Result<
    (),
    UiError,
>)
    ensures
        require_pixels && (width == 0 || height == 0) ==> r is Err && is_bare(
            r->Err_0,
            key_image_empty(),
        ),
        !(require_pixels && (width == 0 || height == 0)) ==> {
            &&& photo_bytes(width, height) > usize::MAX ==> r is Err && is_size_mismatch(
                r->Err_0,
                None,
                len as int,
            )
            &&& photo_bytes(width, height) <= usize::MAX && len != photo_bytes(width, height) ==> r is Err
                && is_size_mismatch(r->Err_0, Some(photo_bytes(width, height)), len as int)
            &&& len == photo_bytes(width, height) ==> r is Ok
        },
{
    if require_pixels && (width == 0 || height == 0) {
        return Err(UiError::new("error.image.empty"));
    }
    proof {
        lemma_u32_product(width, height);
    }
    let expected: u128 = (width as u128) * (height as u128) * 4;
    if expected > usize::MAX as u128 {
        return Err(size_mismatch(None, len));
    }
    if len as u128 != expected {
        return Err(size_mismatch(Some(expected as usize), len));
    }
    Ok(())
}

/// The RGB bytes of an RGBA buffer: every pixel's alpha dropped.
pub fn rgba_to_rgb(rgba: &[u8]) -> (rgb: Vec<u8>)
    requires
        rgba@.len() % 4 == 0,
    ensures
        rgb@.len() == rgba@.len() / 4 * 3,
        forall|p: int, c: int|
            0 <= p < rgba@.len() / 4 && 0 <= c < 3 ==> #[trigger] rgb@[3 * p + c] == rgba@[4 * p + c],
{
    let n = rgba.len() / 4;
    let mut rgb: Vec<u8> = Vec::new();
    let mut p: usize = 0;
    while p < n
        invariant
            n == rgba@.len() / 4,
            4 * n == rgba@.len(),
            rgba@.len() <= usize::MAX,
            p <= n,
            rgb@.len() == 3 * p,
            forall|q: int, c: int|
                0 <= q < p && 0 <= c < 3 ==> #[trigger] rgb@[3 * q + c] == rgba@[4 * q + c],
        decreases n - p,
    {
        assert(4 * p + 3 < rgba@.len());
        let i: usize = 4 * p;
        rgb.push(rgba[i]);
        rgb.push(rgba[i + 1]);
        rgb.push(rgba[i + 2]);
        proof {
            assert forall|q: int, c: int| 0 <= q < p + 1 && 0 <= c < 3 implies #[trigger] rgb@[3 * q
                + c] == rgba@[4 * q + c] by {
                if q < p {
                    assert(3 * q + c < 3 * p);
                }
            }
        }
        p += 1;
    }
    rgb
}

/// The message key for a layout that could not be solved.
pub open spec fn layout_error_key(e: LayoutError) -> Seq<char> {
    match e {
        LayoutError::PhotoTooLarge => "error.layout.photo_too_large"@,
        LayoutError::NoUsableArea => "error.layout.no_usable_area"@,
        LayoutError::InvalidDimensions => "error.layout.invalid_dimensions"@,
    }
}

/// A layout failure as the UI shows it.
pub fn map_layout_error(e: LayoutError) -> (u: UiError)
    ensures
        is_bare(u, layout_error_key(e)),
{
    match e {
        LayoutError::PhotoTooLarge => UiError::new("error.layout.photo_too_large"),
        LayoutError::NoUsableArea => UiError::new("error.layout.no_usable_area"),
        LayoutError::InvalidDimensions => UiError::new("error.layout.invalid_dimensions"),
    }
}

/// A refused preset as the UI shows it; an overlong name carries the limit.
pub fn map_preset_error(e: PresetError) -> (u: UiError)
    ensures
        e == PresetError::EmptyName ==> is_bare(u, "error.preset.empty_name"@),
        e == PresetError::NotFound ==> is_bare(u, "error.preset.not_found"@),
        e is NameTooLong ==> u.key@ == "error.preset.name_too_long"@ && u.params@.len() == 1
            && u.params@[0].name@ == "max"@ && u.params@[0].value == ParamValue::Count(e->max as u64),
{
    match e {
        PresetError::EmptyName => UiError::new("error.preset.empty_name"),
        PresetError::NameTooLong { max } => {
            let mut params: Vec<UiParam> = Vec::new();
            params.push(count_param("max", Some(max)));
            UiError::with("error.preset.name_too_long", params)
        },
        PresetError::NotFound => UiError::new("error.preset.not_found"),
    }
}

/// No preset by `name`; the error carries the name as typed.
pub fn preset_not_found(name: &str) -> (u: UiError)
    ensures
        u.key@ == "error.preset.not_found"@,
        u.params@.len() == 1,
        u.params@[0].name@ == "name"@,
        u.params@[0].value is Text,
        u.params@[0].value->Text_0@ == name@,
{
    let mut params: Vec<UiParam> = Vec::new();
    params.push(UiParam { name: String::from_str("name"), value: ParamValue::Text(String::from_str(name)) });
    UiError::with("error.preset.not_found", params)
}

/// Whether `d` shows exactly `p`.
pub open spec fn shows_printer(d: PrinterDto, p: PrinterInfo) -> bool {
    d.name@ == p.name@ && d.driver@ == p.driver@ && d.is_default == p.is_default
}

/// A printer as the UI lists it.
#[derive(Debug, Clone, PartialEq)]
pub struct PrinterDto {
    pub name: String,
    pub driver: String,
    pub is_default: bool,
}

/// The UI's view of the printers the spooler reported, in the same order.
pub fn printer_dtos(printers: &[PrinterInfo]) -> (r: Vec<PrinterDto>)
    ensures
        r@.len() == printers@.len(),
        forall|i: int| 0 <= i < r@.len() ==> shows_printer(#[trigger] r@[i], printers@[i]),
{
    let mut r: Vec<PrinterDto> = Vec::new();
    for i in 0..printers.len()
        invariant
            r@.len() == i,
            forall|j: int| 0 <= j < i ==> shows_printer(#[trigger] r@[j], printers@[j]),
    {
        let p = &printers[i];
        let d = PrinterDto { name: p.name.clone(), driver: p.driver.clone(), is_default: p.is_default };
        assert(shows_printer(d, printers@[i as int]));
        r.push(d);
    }
    r
}

/// Check a stroke request before it touches the mask: the mode must be
/// known, and a stroke needs at least one point.
pub fn check_stroke(mode: &str, point_count: usize) -> (r: Result<BrushMode, UiError>)
    ensures
        mode@ != "keep"@ && mode@ != "erase"@ ==> r is Err && is_bare(
            r->Err_0,
            "error.mask.unknown_mode"@,
        ),
        (mode@ == "keep"@ || mode@ == "erase"@) && point_count == 0 ==> r is Err && is_bare(
            r->Err_0,
            "error.mask.empty_stroke"@,
        ),
        mode@ == "keep"@ && point_count > 0 ==> r == Ok::<BrushMode, UiError>(BrushMode::Keep),
        mode@ == "erase"@ && point_count > 0 ==> r == Ok::<BrushMode, UiError>(BrushMode::Erase),
{
    let m = parse_brush_mode(mode)?;
    if point_count == 0 {
        return Err(UiError::new("error.mask.empty_stroke"));
    }
    Ok(m)
}

/// The brush a stroke request names: "keep" paints the subject back in,
/// "erase" removes it; anything else is refused.
pub fn parse_brush_mode(mode: &str) -> (r: Result<BrushMode, UiError>)
    ensures
        mode@ == "keep"@ ==> r == Ok::<BrushMode, UiError>(BrushMode::Keep),
        mode@ == "erase"@ ==> r == Ok::<BrushMode, UiError>(BrushMode::Erase),
        mode@ != "keep"@ && mode@ != "erase"@ ==> r is Err && is_bare(
            r->Err_0,
            "error.mask.unknown_mode"@,
        ),
{
    proof {
        reveal_strlit("keep");
        reveal_strlit("erase");
        assert("keep"@.len() != "erase"@.len());
    }
    if crate::text::same_text(mode, "keep") {
        Ok(BrushMode::Keep)
    } else if crate::text::same_text(mode, "erase") {
        Ok(BrushMode::Erase)
    } else {
        Err(UiError::new("error.mask.unknown_mode"))
    }
}

} // verus!
