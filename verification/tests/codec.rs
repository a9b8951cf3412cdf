use pluriview::codec::rgba_from_bgra;

#[test]
fn swap_exact_two_pixels() {
    let bgra = vec![1u8, 2, 3, 4, 5, 6, 7, 8];
    let rgba = rgba_from_bgra(&bgra);
    assert_eq!(rgba, vec![3u8, 2, 1, 4, 7, 6, 5, 8]);
}

#[test]
fn swap_round_trip_whole_pixels() {
    let original: Vec<u8> = (0u8..=255).collect();
    let once = rgba_from_bgra(&original);
    let twice = rgba_from_bgra(&once);
    assert_eq!(twice, original);
}

#[test]
fn swap_round_trip_single_pixel() {
    let original = vec![9u8, 0, 200, 255];
    assert_eq!(rgba_from_bgra(&rgba_from_bgra(&original)), original);
}

#[test]
fn swap_zeroes_trailing_partial_pixel() {
    let bgra = vec![1u8, 2, 3, 4, 9, 9];
    let rgba = rgba_from_bgra(&bgra);
    assert_eq!(rgba, vec![3u8, 2, 1, 4, 0, 0]);
}

#[test]
fn swap_empty_buffer() {
    let rgba = rgba_from_bgra(&[]);
    assert!(rgba.is_empty());
}
