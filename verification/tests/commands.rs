use doc_photos::commands::{
    check_image_body, check_stroke, map_layout_error, map_preset_error, parse_brush_mode,
    preset_not_found, printer_dtos, rgba_to_rgb, split_print_body, split_request_frame,
    BackgroundPayload, ParamValue, UiError,
};
use doc_photos::layout::LayoutError;
use doc_photos::mask::BrushMode;
use doc_photos::presets::PresetError;
use doc_photos::print::PrinterInfo;

/// The dimensions a print request declares for its pixels.
struct Payload {
    width: u32,
    height: u32,
    background: Option<BackgroundPayload>,
}

fn payload(width: u32, height: u32, mask: Option<(u32, u32)>) -> Payload {
    let background = mask.map(|(mw, mh)| BackgroundPayload {
        mask_width: mw,
        mask_height: mh,
        colour: [255, 255, 255],
    });
    Payload { width, height, background }
}

fn split<'a>(body: &'a [u8], p: &Payload) -> Result<doc_photos::commands::PrintPixels<'a>, UiError> {
    split_print_body(body, p.width, p.height, p.background.as_ref())
}

#[test]
fn a_photo_without_a_mask_takes_the_whole_body() {
    let p = payload(4, 3, None);
    let body = vec![0u8; 4 * 3 * 4];
    let split = split(&body, &p).ok().expect("exact length should be accepted");
    assert_eq!(split.rgba.len(), 4 * 3 * 4);
    assert!(split.mask.is_empty(), "no mask was declared");
}

#[test]
fn a_mask_is_split_off_after_the_photo() {
    let p = payload(4, 3, Some((2, 2)));
    let mut body = vec![0xAAu8; 4 * 3 * 4];
    body.extend_from_slice(&[0xBBu8; 2 * 2]);

    let split = split(&body, &p).ok().expect("exact length should be accepted");
    assert_eq!(split.rgba.len(), 4 * 3 * 4);
    assert_eq!(split.mask.len(), 2 * 2);
    assert!(split.rgba.iter().all(|&b| b == 0xAA), "photo bytes leaked into the mask");
    assert!(split.mask.iter().all(|&b| b == 0xBB), "mask bytes came from the photo");
}

#[test]
fn a_short_body_is_rejected_rather_than_indexed_past_the_end() {
    let p = payload(4, 3, Some((2, 2)));
    let body = vec![0u8; 4 * 3 * 4];
    let Err(err) = split(&body, &p) else { panic!("a short body must be refused") };
    assert_eq!(err.key, "error.image.size_mismatch");
    assert_eq!(err.param("expected"), Some(&ParamValue::Count(4 * 3 * 4 + 2 * 2)));
    assert_eq!(err.param("got"), Some(&ParamValue::Count(4 * 3 * 4)));
}

#[test]
fn a_long_body_is_refused_too() {
    let p = payload(4, 3, None);
    let body = vec![0u8; 4 * 3 * 4 + 1];
    let Err(err) = split(&body, &p) else { panic!("a long body must be refused") };
    assert_eq!(err.key, "error.image.size_mismatch");
}

#[test]
fn absurd_dimensions_are_refused_rather_than_trusted() {
    let p = payload(u32::MAX, u32::MAX, None);
    let body = vec![0u8; 16];
    let Err(err) = split(&body, &p) else { panic!("absurd dimensions must be refused") };
    assert_eq!(err.key, "error.image.size_mismatch");
}

#[test]
fn an_overflowing_mask_is_refused_too() {
    let p = payload(2, 2, Some((u32::MAX, u32::MAX)));
    let body = vec![0u8; 2 * 2 * 4];
    let Err(err) = split(&body, &p) else { panic!("an absurd mask must be refused") };
    assert_eq!(err.key, "error.image.size_mismatch");
}

#[test]
fn an_overflowing_size_names_no_expected_length() {
    let p = payload(u32::MAX, u32::MAX, None);
    let body = vec![0u8; 16];
    let Err(err) = split(&body, &p) else { panic!("must be refused") };
    assert_eq!(err.param("expected"), Some(&ParamValue::Null));
    assert_eq!(err.param("got"), Some(&ParamValue::Count(16)));
    assert_eq!(err.param("missing"), None);
}

#[test]
fn the_request_frame_splits_header_from_pixels() {
    let mut body = vec![3, 0, 0, 0];
    body.extend_from_slice(b"{}x");
    body.extend_from_slice(&[1, 2]);
    let (json, rest) = split_request_frame(&body).ok().expect("well formed");
    assert_eq!(json, b"{}x");
    assert_eq!(rest, &[1, 2]);

    let Err(short) = split_request_frame(&[1, 0]) else { panic!("too short") };
    assert_eq!(short.key, "error.image.decode_failed");
    let Err(past) = split_request_frame(&[9, 1, 0, 0, 1]) else { panic!("length past the end") };
    assert_eq!(past.key, "error.image.decode_failed");
    let (json, rest) = split_request_frame(&[0, 0, 0, 0]).ok().expect("empty header");
    assert!(json.is_empty() && rest.is_empty());
}

#[test]
fn image_bodies_are_checked_against_their_dimensions() {
    assert!(check_image_body(16, 2, 2, true).is_ok());
    assert_eq!(check_image_body(0, 0, 2, true).unwrap_err().key, "error.image.empty");
    // Without the emptiness check a zero-sized image wants an empty body.
    assert!(check_image_body(0, 0, 2, false).is_ok());
    let e = check_image_body(15, 2, 2, false).unwrap_err();
    assert_eq!(e.key, "error.image.size_mismatch");
    assert_eq!(e.param("expected"), Some(&ParamValue::Count(16)));
}

#[test]
fn alpha_is_dropped_pixel_by_pixel() {
    assert_eq!(rgba_to_rgb(&[1, 2, 3, 4, 5, 6, 7, 8]), vec![1, 2, 3, 5, 6, 7]);
    assert!(rgba_to_rgb(&[]).is_empty());
}

#[test]
fn layout_and_preset_errors_map_to_message_keys() {
    assert_eq!(map_layout_error(LayoutError::PhotoTooLarge).key, "error.layout.photo_too_large");
    assert_eq!(map_layout_error(LayoutError::NoUsableArea).key, "error.layout.no_usable_area");
    assert_eq!(
        map_layout_error(LayoutError::InvalidDimensions).key,
        "error.layout.invalid_dimensions"
    );
    assert_eq!(map_preset_error(PresetError::EmptyName).key, "error.preset.empty_name");
    let long = map_preset_error(PresetError::NameTooLong { max: 60 });
    assert_eq!(long.key, "error.preset.name_too_long");
    assert_eq!(long.param("max"), Some(&ParamValue::Count(60)));
    assert_eq!(map_preset_error(PresetError::NotFound).key, "error.preset.not_found");
    let nf = preset_not_found("Viza");
    assert_eq!(nf.param("name"), Some(&ParamValue::Text("Viza".into())));
}

#[test]
fn brush_modes_are_named_keep_and_erase() {
    assert_eq!(parse_brush_mode("keep").ok(), Some(BrushMode::Keep));
    assert_eq!(parse_brush_mode("erase").ok(), Some(BrushMode::Erase));
    assert_eq!(parse_brush_mode("paint").unwrap_err().key, "error.mask.unknown_mode");
    assert_eq!(check_stroke("keep", 0).unwrap_err().key, "error.mask.empty_stroke");
    assert_eq!(check_stroke("smudge", 0).unwrap_err().key, "error.mask.unknown_mode");
    assert_eq!(check_stroke("erase", 3).ok(), Some(BrushMode::Erase));
}

#[test]
fn printers_are_listed_as_reported() {
    let ps = vec![
        PrinterInfo { name: "A".into(), driver: "d1".into(), is_default: false },
        PrinterInfo { name: "B".into(), driver: "d2".into(), is_default: true },
    ];
    let dtos = printer_dtos(&ps);
    assert_eq!(dtos.len(), 2);
    assert_eq!((dtos[1].name.as_str(), dtos[1].driver.as_str(), dtos[1].is_default), ("B", "d2", true));
}

#[test]
fn errors_carry_their_values() {
    let e = UiError::new("k");
    assert!(e.params.is_empty());
    assert_eq!(e.param("x"), None);
}
