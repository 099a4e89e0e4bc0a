use doc_photos::face::detector_input;
use doc_photos::overrides::effective;
use doc_photos::vision::{Backend, DetectError, SegmentError};

#[test]
fn detection_errors_read_as_sentences() {
    assert_eq!(DetectError::ModelLoad("m".into()).describe(), "could not load model: m");
    assert_eq!(DetectError::Inference("i".into()).describe(), "inference failed: i");
    assert_eq!(DetectError::UnexpectedOutput("u".into()).describe(), "unexpected model output: u");
    assert_eq!(
        SegmentError::ModelLoad("m".into()).describe(),
        "could not load segmentation model: m"
    );
    assert_eq!(SegmentError::Inference("i".into()).describe(), "segmentation failed: i");
    assert_eq!(SegmentError::UnexpectedOutput("u".into()).describe(), "unexpected model output: u");
}

#[test]
fn backends_are_named_as_the_ui_expects() {
    assert_eq!(Backend::DirectMl.name(), "DirectMl");
    assert_eq!(Backend::Cpu.name(), "Cpu");
    assert_eq!(Backend::Cpu.name(), format!("{:?}", Backend::Cpu));
}

#[test]
fn the_detector_gets_rgb_from_a_checked_body() {
    let rgba = [1, 2, 3, 255, 4, 5, 6, 255];
    assert_eq!(detector_input(&rgba, 2, 1).ok(), Some(vec![1, 2, 3, 4, 5, 6]));
    assert_eq!(detector_input(&rgba, 0, 1).unwrap_err().key, "error.image.empty");
    assert_eq!(detector_input(&rgba, 3, 1).unwrap_err().key, "error.image.size_mismatch");
}

#[test]
fn an_override_wins_over_the_automatic_value() {
    assert_eq!(effective(&1.5f64, &None), 1.5);
    assert_eq!(effective(&1.5f64, &Some(2.5)), 2.5);
    assert_eq!(effective(&"auto".to_string(), &Some("user".to_string())), "user");
}

#[test]
fn scaling_changes_the_size_and_keeps_a_flat_colour() {
    let rgb: Vec<u8> = [100u8, 150, 200].repeat(4 * 4);
    let out = doc_photos::vision::scaled_rgb(&rgb, 4, 4, 2, 2).unwrap();
    assert_eq!(out, [100u8, 150, 200].repeat(2 * 2));
    let up = doc_photos::vision::scaled_rgb(&rgb, 4, 4, 6, 3).unwrap();
    assert_eq!(up.len(), 6 * 3 * 3);
    assert!(up.chunks(3).all(|p| p == [100, 150, 200]));
}

#[test]
fn scaling_to_the_same_size_copies() {
    let rgb: Vec<u8> = (0..2 * 3 * 3).map(|i| (i * 13) as u8).collect();
    assert_eq!(doc_photos::vision::scaled_rgb(&rgb, 2, 3, 2, 3), Some(rgb.clone()));
}

#[test]
fn scaling_refuses_a_buffer_of_the_wrong_length() {
    assert_eq!(doc_photos::vision::scaled_rgb(&[0u8; 11], 2, 2, 1, 1), None);
    assert_eq!(doc_photos::vision::scaled_rgb(&[0u8; 13], 2, 2, 1, 1), None);
}
