use doc_photos::background::{mask_response, SegmentInner, NEUTRAL_THRESHOLD};
use doc_photos::mask::{
    apply_threshold, composite_background, is_clear_background, subject_texels, AlphaMask,
    BrushMode, MaskEdits,
};

/// A brush stroke as the UI sends it.
#[derive(Debug, Clone, PartialEq)]
struct Stroke {
    mode: BrushMode,
    radius: f32,
    points: Vec<(f32, f32)>,
}

fn stroke_at(mode: BrushMode, radius: f32, pts: &[(f32, f32)]) -> Stroke {
    Stroke { mode, radius, points: pts.to_vec() }
}

#[test]
fn undo_removes_only_the_last_stroke() {
    let mut edits = MaskEdits::default();
    edits.push(stroke_at(BrushMode::Keep, 2.0, &[(1.0, 1.0)]));
    edits.push(stroke_at(BrushMode::Erase, 2.0, &[(5.0, 5.0)]));

    let undone = edits.undo().expect("nothing to undo");
    assert_eq!(undone.mode, BrushMode::Erase);
    assert_eq!(edits.strokes.len(), 1);
    assert_eq!(edits.strokes[0].mode, BrushMode::Keep);
}

#[test]
fn undo_with_nothing_to_undo_changes_nothing() {
    let mut edits: MaskEdits<Stroke> = MaskEdits::default();
    assert!(edits.is_empty());
    assert!(edits.undo().is_none());
    assert!(edits.is_empty());
    edits.push(stroke_at(BrushMode::Keep, 1.0, &[(0.0, 0.0)]));
    edits.clear();
    assert!(edits.is_empty());
}

#[test]
fn background_replacement_uses_the_mask() {
    // Left half subject, right half background.
    let mut rgba = vec![0u8; 8 * 4 * 4];
    for i in 0..(8 * 4) {
        rgba[i * 4] = 200;
        rgba[i * 4 + 1] = 100;
        rgba[i * 4 + 2] = 50;
        rgba[i * 4 + 3] = 255;
    }
    let mut mask_data = vec![0u8; 8 * 4];
    for y in 0..4 {
        for x in 0..4 {
            mask_data[y * 8 + x] = 255;
        }
    }
    let mask = AlphaMask::new(8, 4, mask_data).unwrap();

    composite_background(&mut rgba, 8, 4, &mask, [235, 235, 235]);

    // Subject side keeps its colour.
    assert_eq!(rgba[0], 200);
    // Background side becomes the requested grey: row 0, column 6.
    let right = 6 * 4;
    assert_eq!(rgba[right], 235);
    assert_eq!(rgba[right + 1], 235);
}

#[test]
fn a_smaller_mask_is_stretched_over_the_image() {
    let mut rgba = vec![255u8; 16 * 16 * 4];
    let mask = AlphaMask::filled(4, 4, 0);
    composite_background(&mut rgba, 16, 16, &mask, [10, 20, 30]);
    assert_eq!(rgba[0], 10);
    let last = (15 * 16 + 15) * 4;
    assert_eq!(rgba[last + 2], 30);
}

#[test]
fn a_uniform_mask_stays_uniform_when_magnified() {
    let mut rgba = vec![200u8; 32 * 32 * 4];
    let mask = AlphaMask::filled(4, 4, 255);
    composite_background(&mut rgba, 32, 32, &mask, [0, 0, 0]);
    assert!(rgba.chunks_exact(4).all(|p| p[0] == 200), "uniform mask varied");
}

#[test]
fn compositing_leaves_alpha_and_trailing_bytes_alone() {
    let mut rgba = vec![9u8; 2 * 2 * 4 + 3];
    let mask = AlphaMask::filled(1, 1, 0);
    composite_background(&mut rgba, 2, 2, &mask, [1, 2, 3]);
    assert_eq!(&rgba[0..4], &[1, 2, 3, 9]);
    assert_eq!(&rgba[16..], &[9, 9, 9]);
}

#[test]
fn a_half_covered_pixel_blends_halfway() {
    // Coverage 128 of 255 between subject 200 and background 0.
    let mut rgba = vec![200u8, 200, 200, 255];
    let mask = AlphaMask::filled(1, 1, 128);
    composite_background(&mut rgba, 1, 1, &mask, [0, 0, 0]);
    // 200 * 128 / 255 = 100.39, rounded to 100.
    assert_eq!(rgba[0], 100);
}

#[test]
fn an_empty_mask_leaves_the_photo_alone() {
    let mut rgba = vec![7u8; 4 * 4];
    let mask = AlphaMask::new(0, 0, vec![]).unwrap();
    composite_background(&mut rgba, 2, 2, &mask, [0, 0, 0]);
    assert!(rgba.iter().all(|&b| b == 7));
}

#[test]
fn neutral_threshold_changes_nothing() {
    let m = AlphaMask::new(4, 1, vec![0, 80, 180, 255]).unwrap();
    assert_eq!(apply_threshold(&m, 128), m);
}

#[test]
fn a_high_threshold_trims_the_edge() {
    let m = AlphaMask::new(3, 1, vec![64, 128, 200]).unwrap();
    let tight = apply_threshold(&m, 200);
    assert!(tight.data[0] < 64, "partial coverage was not reduced");
    assert!(tight.data[1] < 128);
    let solid = AlphaMask::new(1, 1, vec![255]).unwrap();
    assert_eq!(apply_threshold(&solid, 200).data[0], 255);
}

#[test]
fn a_low_threshold_recovers_faint_detail() {
    let m = AlphaMask::new(2, 1, vec![40, 128]).unwrap();
    let loose = apply_threshold(&m, 60);
    assert!(loose.data[0] > 40, "faint detail was not recovered");
    assert!(loose.data[1] > 128);
}

#[test]
fn threshold_keeps_the_extremes_intact() {
    let m = AlphaMask::new(2, 1, vec![0, 255]).unwrap();
    for t in [10u8, 60, 128, 200, 250] {
        let out = apply_threshold(&m, t);
        assert_eq!(out.data[0], 0, "background leaked in at threshold {t}");
        assert_eq!(out.data[1], 255, "subject was lost at threshold {t}");
    }
}

#[test]
fn threshold_curve_exact_values() {
    // Below the threshold t, v maps to round(255 v / 2t); at or above it to
    // round(255 (255 + v - 2t) / 2(255 - t)).
    let m = AlphaMask::new(3, 1, vec![64, 128, 200]).unwrap();
    let out = apply_threshold(&m, 200);
    // 255 * 64 / 400 = 40.8 -> 41; 255 * 128 / 400 = 81.6 -> 82;
    // 255 * (255 + 200 - 400) / 110 = 127.5 -> 128.
    assert_eq!(out.data, vec![41, 82, 128]);
    assert_eq!(out.width, 3);
    assert_eq!(out.height, 1);
}

#[test]
fn mismatched_mask_dimensions_are_rejected() {
    assert!(AlphaMask::new(4, 4, vec![0; 10]).is_none());
}

#[test]
fn mask_lookup_reads_rows_and_treats_outside_as_background() {
    let m = AlphaMask::new(2, 2, vec![1, 2, 3, 4]).unwrap();
    assert_eq!(m.at(1, 0), 2);
    assert_eq!(m.at(0, 1), 3);
    assert_eq!(m.at(2, 0), 0);
    assert_eq!(m.at(0, 5), 0);
    let f = AlphaMask::filled(3, 2, 9);
    assert_eq!(f.data, vec![9; 6]);
}

#[test]
fn subject_texels_count_coverage_above_the_midpoint() {
    let m = AlphaMask::new(5, 1, vec![0, 128, 129, 200, 255]).unwrap();
    assert_eq!(subject_texels(&m), 3);
}

#[test]
fn clear_background_reads_the_covering_texel() {
    // A 2x1 mask over a 4x2 photo: the left half maps to texel 0.
    let m = AlphaMask::new(2, 1, vec![32, 33]).unwrap();
    assert!(is_clear_background(&m, 0, 0, 4, 2));
    assert!(is_clear_background(&m, 1, 1, 4, 2));
    assert!(!is_clear_background(&m, 2, 0, 4, 2));
    assert!(!is_clear_background(&m, 3, 1, 4, 2));
}

#[test]
fn mask_response_lays_out_header_name_and_mask() {
    let m = AlphaMask::new(2, 1, vec![7, 8]).unwrap();
    let out = mask_response(&m, [1, 2, 3, 4], b"Cpu");
    assert_eq!(
        out,
        vec![2, 0, 0, 0, 1, 0, 0, 0, 1, 2, 3, 4, 3, 0, 0, 0, b'C', b'p', b'u', 7, 8]
    );
    let big = AlphaMask::filled(300, 1, 0);
    let out = mask_response(&big, [0; 4], b"");
    assert_eq!(&out[0..4], &[44, 1, 0, 0]);
}

#[test]
fn the_session_refuses_edits_before_segmentation() {
    let mut s: SegmentInner<Stroke> = SegmentInner::default();
    assert!(!s.is_segmented());
    assert_eq!(s.set_threshold(200).unwrap_err().key, "error.mask.not_segmented");
    assert_eq!(
        s.add_stroke(stroke_at(BrushMode::Keep, 1.0, &[(0.0, 0.0)])).unwrap_err().key,
        "error.mask.not_segmented"
    );
    assert_eq!(s.undo_stroke().unwrap_err().key, "error.mask.not_segmented");
    assert_eq!(s.reset_edits().unwrap_err().key, "error.mask.not_segmented");
    assert!(s.thresholded().is_none());
    assert!(s.strokes_in_order().is_empty());
}

#[test]
fn the_session_keeps_strokes_across_a_new_mask_and_clears_fully() {
    let mut s: SegmentInner<Stroke> = SegmentInner::default();
    s.set_auto_mask(AlphaMask::new(2, 1, vec![64, 200]).unwrap());
    s.add_stroke(stroke_at(BrushMode::Keep, 1.0, &[(0.0, 0.0)])).unwrap();
    s.add_stroke(stroke_at(BrushMode::Erase, 2.0, &[(1.0, 0.0)])).unwrap();
    s.set_auto_mask(AlphaMask::new(2, 1, vec![0, 255]).unwrap());
    assert_eq!(s.strokes_in_order().len(), 2, "strokes lost when the mask changed");
    s.undo_stroke().unwrap();
    assert_eq!(s.strokes_in_order().len(), 1);
    assert_eq!(s.strokes_in_order()[0].mode, BrushMode::Keep);

    s.set_threshold(200).unwrap();
    let t = s.thresholded().unwrap();
    assert_eq!(t.data, vec![0, 255]);

    s.reset_edits().unwrap();
    assert!(s.strokes_in_order().is_empty());
    s.clear();
    assert!(!s.is_segmented());
    s.set_auto_mask(AlphaMask::new(1, 1, vec![64]).unwrap());
    // Back at the neutral threshold: the mask comes through unchanged.
    assert_eq!(s.thresholded().unwrap().data, vec![64]);
    assert_eq!(NEUTRAL_THRESHOLD, 128);
}

#[test]
fn threshold_zero_keeps_the_extremes_too() {
    let m = AlphaMask::new(3, 1, vec![0, 1, 255]).unwrap();
    let out = apply_threshold(&m, 0);
    assert_eq!(out.data[0], 0, "background leaked in at threshold 0");
    assert_eq!(out.data[2], 255, "subject was lost at threshold 0");
    // Everything above zero sits at or above the middle.
    assert_eq!(out.data[1], 128);
}
