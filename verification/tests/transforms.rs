use pixel_ops::{convert_to_grayscale, invert_colors};

#[test]
fn grayscale_example_pixel() {
    // floor(0.299*10 + 0.587*20 + 0.114*30) == floor(18.15) == 18
    let mut buf: Vec<u8> = vec![10, 20, 30, 255];
    convert_to_grayscale(&mut buf, 1, 1);
    assert_eq!(buf, vec![18, 18, 18, 255]);
}

#[test]
fn invert_example_pixel() {
    let mut buf: Vec<u8> = vec![0, 128, 255, 40];
    invert_colors(&mut buf, 1, 1);
    assert_eq!(buf, vec![255, 127, 0, 40]);
}

#[test]
fn grayscale_empty_buffer() {
    let mut buf: Vec<u8> = vec![];
    convert_to_grayscale(&mut buf, 0, 0);
    assert_eq!(buf, Vec::<u8>::new());
}

#[test]
fn invert_empty_buffer() {
    let mut buf: Vec<u8> = vec![];
    invert_colors(&mut buf, 0, 0);
    assert_eq!(buf, Vec::<u8>::new());
}

#[test]
fn grayscale_partial_trailing_group() {
    // Length 7: the first complete group is transformed, the trailing three
    // bytes are left byte-for-byte unchanged.
    let mut buf: Vec<u8> = vec![10, 20, 30, 255, 7, 8, 9];
    convert_to_grayscale(&mut buf, 1, 1);
    assert_eq!(buf, vec![18, 18, 18, 255, 7, 8, 9]);
}

#[test]
fn invert_partial_trailing_group() {
    let mut buf: Vec<u8> = vec![0, 128, 255, 40, 7, 8, 9];
    invert_colors(&mut buf, 1, 1);
    assert_eq!(buf, vec![255, 127, 0, 40, 7, 8, 9]);
}

#[test]
fn grayscale_buffer_shorter_than_one_group() {
    let mut buf: Vec<u8> = vec![1, 2, 3];
    convert_to_grayscale(&mut buf, 0, 0);
    assert_eq!(buf, vec![1, 2, 3]);
}

#[test]
fn grayscale_formula_values() {
    let cases: Vec<([u8; 3], u8)> = vec![
        ([0, 0, 0], 0),
        ([255, 255, 255], 255),
        ([100, 100, 100], 100),
        ([255, 0, 0], 76),  // floor(0.299 * 255) == floor(76.245)
        ([0, 255, 0], 149), // floor(0.587 * 255) == floor(149.685)
        ([0, 0, 255], 29),  // floor(0.114 * 255) == floor(29.07)
        ([1, 1, 1], 1),
        ([1, 0, 0], 0),     // floor(0.299) == 0
    ];
    for ([r, g, b], gray) in cases {
        let mut buf: Vec<u8> = vec![r, g, b, 77];
        convert_to_grayscale(&mut buf, 1, 1);
        assert_eq!(buf, vec![gray, gray, gray, 77], "pixel ({r},{g},{b})");
    }
}

#[test]
fn grayscale_idempotent() {
    let mut once: Vec<u8> = vec![10, 20, 30, 255, 200, 150, 100, 0, 1, 2, 3, 4, 9, 9];
    let mut twice = once.clone();
    convert_to_grayscale(&mut once, 3, 1);
    convert_to_grayscale(&mut twice, 3, 1);
    convert_to_grayscale(&mut twice, 3, 1);
    assert_eq!(once, twice);
}

#[test]
fn invert_involution() {
    let original: Vec<u8> = vec![0, 128, 255, 40, 17, 34, 51, 68, 5, 6];
    let mut buf = original.clone();
    invert_colors(&mut buf, 2, 1);
    invert_colors(&mut buf, 2, 1);
    assert_eq!(buf, original);
}

#[test]
fn alpha_bytes_unchanged() {
    let original: Vec<u8> = vec![10, 20, 30, 0, 200, 150, 100, 127, 1, 2, 3, 255];
    let mut gray = original.clone();
    let mut inv = original.clone();
    convert_to_grayscale(&mut gray, 3, 1);
    invert_colors(&mut inv, 3, 1);
    for k in 0..3 {
        assert_eq!(gray[4 * k + 3], original[4 * k + 3]);
        assert_eq!(inv[4 * k + 3], original[4 * k + 3]);
    }
}

#[test]
fn dimensions_are_informational_only() {
    // Mismatched width and height neither stop nor limit the traversal:
    // every complete group is still processed.
    let mut buf: Vec<u8> = vec![0, 128, 255, 40, 10, 20, 30, 255];
    invert_colors(&mut buf, 1000, 1000);
    assert_eq!(buf, vec![255, 127, 0, 40, 245, 235, 225, 255]);
}
