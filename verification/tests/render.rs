use doc_photos::render::{
    blit, draw_cut_frame, fill_placement, PixelOp, PixelRect, Raster, CUT_MARK_GREY,
};
use doc_photos::resample::ImageBuf;

fn px(r: &Raster, x: u32, y: u32) -> [u8; 4] {
    let o = ((y * r.width_px + x) * 4) as usize;
    [r.pixels[o], r.pixels[o + 1], r.pixels[o + 2], r.pixels[o + 3]]
}

#[test]
fn a_new_sheet_is_white() {
    let r = Raster::white(3, 2);
    assert_eq!((r.width_px, r.height_px), (3, 2));
    assert_eq!(r.pixels, vec![255u8; 24]);
}

#[test]
fn a_placement_is_filled_and_clipped_to_the_sheet() {
    let mut r = Raster::white(4, 4);
    fill_placement(&mut r, PixelRect { x: 2, y: 2, width: 5, height: 5 }, [1, 2, 3, 4]);
    assert_eq!(px(&r, 3, 3), [1, 2, 3, 4]);
    assert_eq!(px(&r, 2, 2), [1, 2, 3, 4]);
    assert_eq!(px(&r, 1, 2), [255; 4]);
    assert_eq!(px(&r, 3, 1), [255; 4]);
}

#[test]
fn cut_marks_frame_the_photo_and_never_touch_it() {
    let mut r = Raster::white(8, 8);
    let at = PixelRect { x: 3, y: 3, width: 2, height: 2 };
    fill_placement(&mut r, at, [10, 20, 30, 255]);
    draw_cut_frame(&mut r, at, 1, 1);
    // The photo is untouched.
    for (x, y) in [(3, 3), (4, 3), (3, 4), (4, 4)] {
        assert_eq!(px(&r, x, y), [10, 20, 30, 255]);
    }
    // The band around it, corners included, is grey with alpha kept.
    for (x, y) in [(2, 2), (5, 2), (2, 5), (5, 5), (2, 3), (5, 4), (3, 2), (4, 5)] {
        assert_eq!(px(&r, x, y), [CUT_MARK_GREY, CUT_MARK_GREY, CUT_MARK_GREY, 255]);
    }
    // Nothing further out.
    assert_eq!(px(&r, 1, 1), [255; 4]);
    assert_eq!(px(&r, 6, 3), [255; 4]);
}

#[test]
fn cut_marks_darken_but_never_lighten() {
    let mut r = Raster::white(4, 1);
    r.apply_box(0, 1, 0, 1, PixelOp::Fill([0, 0, 0, 255]));
    draw_cut_frame(&mut r, PixelRect { x: 1, y: 0, width: 1, height: 1 }, 1, 0);
    assert_eq!(px(&r, 0, 0), [0, 0, 0, 255], "a dark pixel was lightened");
    assert_eq!(px(&r, 2, 0), [CUT_MARK_GREY, CUT_MARK_GREY, CUT_MARK_GREY, 255]);
    let mut empty = Raster::white(2, 2);
    draw_cut_frame(&mut empty, PixelRect { x: 1, y: 1, width: 0, height: 1 }, 1, 1);
    assert_eq!(empty.pixels, vec![255u8; 16]);
}

#[test]
fn a_photo_is_copied_as_bgra() {
    // A 2x1 photo: red then blue.
    let photo = ImageBuf { pixels: vec![255, 0, 0, 9, 0, 0, 255, 9], width: 2, height: 1 };
    let mut r = Raster::white(3, 2);
    blit(&mut r, &photo, &PixelRect { x: 1, y: 0, width: 2, height: 1 }, false);
    assert_eq!(px(&r, 1, 0), [0, 0, 255, 255]);
    assert_eq!(px(&r, 2, 0), [255, 0, 0, 255]);
    assert_eq!(px(&r, 0, 0), [255; 4]);
    assert_eq!(px(&r, 1, 1), [255; 4]);
}

#[test]
fn a_rotated_photo_turns_a_quarter_clockwise() {
    // A 1x2 photo, red above blue, into a 2x1 placement turned clockwise:
    // the top of the photo ends up on the right.
    let photo = ImageBuf { pixels: vec![255, 0, 0, 255, 0, 0, 255, 255], width: 1, height: 2 };
    let mut r = Raster::white(2, 1);
    blit(&mut r, &photo, &PixelRect { x: 0, y: 0, width: 2, height: 1 }, true);
    assert_eq!(px(&r, 0, 0), [255, 0, 0, 255], "left should be the blue bottom");
    assert_eq!(px(&r, 1, 0), [0, 0, 255, 255], "right should be the red top");
}
