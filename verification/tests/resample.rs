use doc_photos::resample::ImageRef;

#[test]
fn mismatched_buffer_is_rejected() {
    let px = vec![0u8; 10];
    assert!(ImageRef::new(&px, 100, 100).is_none());
}

#[test]
fn an_exactly_sized_buffer_is_accepted() {
    let px = vec![0u8; 2 * 3 * 4];
    let img = ImageRef::new(&px, 2, 3).expect("exact size");
    assert_eq!((img.width, img.height, img.pixels.len()), (2, 3, 24));
    assert!(ImageRef::new(&px, 3, 3).is_none());
}
