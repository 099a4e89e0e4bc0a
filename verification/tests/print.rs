use doc_photos::print::{
    clamp_dpi, offered_resolutions, to_wide, DeviceDpi, PrintError, PrintJob, WindowsPrintBackend,
};

fn job(w: u32, h: u32, len: usize) -> PrintJob {
    PrintJob {
        printer: "test".into(),
        pixels: vec![0u8; len],
        width_px: w,
        height_px: h,
        document_name: "test".into(),
    }
}

#[test]
fn correctly_sized_raster_validates() {
    assert_eq!(job(10, 10, 400).validate(), Ok(()));
}

#[test]
fn zero_dimension_rejected() {
    assert_eq!(job(0, 10, 0).validate(), Err(PrintError::EmptyRaster));
}

#[test]
fn short_buffer_rejected() {
    assert_eq!(
        job(10, 10, 399).validate(),
        Err(PrintError::RasterSizeMismatch { expected: 400, got: 399 })
    );
}

#[test]
fn expected_length_is_four_bytes_a_pixel() {
    assert_eq!(job(3, 7, 0).expected_len(), 84);
    assert_eq!(job(10, 0, 5).validate(), Err(PrintError::EmptyRaster));
}

#[test]
fn print_errors_read_as_sentences() {
    assert_eq!(PrintError::PrinterNotFound("P".into()).describe(), "printer not found: P");
    assert_eq!(PrintError::EmptyRaster.describe(), "raster has zero width or height");
    assert_eq!(
        PrintError::RasterSizeMismatch { expected: 400, got: 399 }.describe(),
        "raster size mismatch: expected 400 bytes, got 399"
    );
    assert_eq!(PrintError::Backend("x".into()).describe(), "print backend error: x");
    assert_eq!(PrintError::Unsupported("y").describe(), "unsupported: y");
}

#[test]
fn requested_resolution_is_capped_for_devmode() {
    assert_eq!(clamp_dpi(300), 300);
    assert_eq!(clamp_dpi(32766), 32766);
    assert_eq!(clamp_dpi(32767), 32767);
    assert_eq!(clamp_dpi(100_000), 32767);
}

#[test]
fn offered_resolutions_are_sorted_positive_and_unique() {
    // Pairs (x, y): 600x600, 300x300, a bogus -1x300, 300x300 again, 300x600.
    let raw = [600, 600, 300, 300, -1, 300, 300, 300, 300, 600];
    let out = offered_resolutions(&raw, 5);
    assert_eq!(
        out,
        vec![
            DeviceDpi { x: 300, y: 300 },
            DeviceDpi { x: 300, y: 600 },
            DeviceDpi { x: 600, y: 600 }
        ]
    );
    // Only the pairs the driver says it wrote are read.
    assert_eq!(offered_resolutions(&raw, 1), vec![DeviceDpi { x: 600, y: 600 }]);
}

#[test]
fn wide_strings_end_in_a_nul() {
    assert_eq!(to_wide("Ab"), vec![65, 98, 0]);
    assert_eq!(to_wide(""), vec![0]);
    // A character outside the basic plane takes a surrogate pair.
    assert_eq!(to_wide("\u{1F600}"), vec![0xD83D, 0xDE00, 0]);
}

#[test]
fn the_windows_backend_holds_nothing() {
    assert_eq!(WindowsPrintBackend::new(), WindowsPrintBackend);
}
