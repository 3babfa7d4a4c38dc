use raytrace::{encode_ppm, pixel_line, ppm_header, FrameError, Rgb};

fn text(bytes: Vec<u8>) -> String {
    String::from_utf8(bytes).unwrap()
}

#[test]
fn pixel_line_of_encoded_color() {
    assert_eq!("255 0 127", text(pixel_line(255, 0, 127)));
}

#[test]
fn pixel_line_of_black() {
    assert_eq!("0 0 0", text(pixel_line(0, 0, 0)));
}

#[test]
fn pixel_line_of_out_of_range_channels() {
    assert_eq!("-1 256 1000", text(pixel_line(-1, 256, 1000)));
}

#[test]
fn pixel_line_of_extreme_channels() {
    assert_eq!(
        "-9223372036854775808 9223372036854775807 10",
        text(pixel_line(i64::MIN, i64::MAX, 10))
    );
}

#[test]
fn header_of_default_frame() {
    assert_eq!("P3\n400 225\n255", text(ppm_header(400, 225)));
}

#[test]
fn encode_two_by_one_frame() {
    let pixels: Vec<Rgb> = vec![(255, 0, 127), (0, 0, 0)];
    let bytes = encode_ppm(2, 1, &pixels).unwrap();
    assert_eq!("P3\n2 1\n255\n255 0 127\n0 0 0\n", text(bytes));
}

#[test]
fn encode_keeps_raster_order() {
    let pixels: Vec<Rgb> = vec![(1, 2, 3), (4, 5, 6), (7, 8, 9), (10, 11, 12)];
    let bytes = encode_ppm(2, 2, &pixels).unwrap();
    assert_eq!("P3\n2 2\n255\n1 2 3\n4 5 6\n7 8 9\n10 11 12\n", text(bytes));
}

#[test]
fn encode_rows_apart_and_joined() {
    let pixels: Vec<Rgb> = vec![(1, 2, 3), (4, 5, 6), (7, 8, 9), (10, 11, 12)];
    let whole = text(encode_ppm(2, 2, &pixels).unwrap());
    let mut joined = text(ppm_header(2, 2));
    joined.push('\n');
    for p in &pixels {
        joined.push_str(&text(pixel_line(p.0, p.1, p.2)));
        joined.push('\n');
    }
    assert_eq!(whole, joined);
}

#[test]
fn encode_twice_is_identical() {
    let pixels: Vec<Rgb> = vec![(12, 34, 56), (255, 255, 255)];
    let first = encode_ppm(1, 2, &pixels).unwrap();
    let second = encode_ppm(1, 2, &pixels).unwrap();
    assert_eq!(first, second);
}

#[test]
fn encode_rejects_zero_width() {
    let pixels: Vec<Rgb> = Vec::new();
    assert_eq!(Err(FrameError::EmptyFrame), encode_ppm(0, 2, &pixels));
}

#[test]
fn encode_rejects_zero_height() {
    let pixels: Vec<Rgb> = Vec::new();
    assert_eq!(Err(FrameError::EmptyFrame), encode_ppm(2, 0, &pixels));
}

#[test]
fn encode_rejects_wrong_pixel_count() {
    let pixels: Vec<Rgb> = vec![(0, 0, 0); 3];
    assert_eq!(Err(FrameError::PixelCount), encode_ppm(2, 2, &pixels));
}

#[test]
fn encode_rejects_overflowing_dimensions() {
    let pixels: Vec<Rgb> = vec![(0, 0, 0)];
    assert_eq!(Err(FrameError::PixelCount), encode_ppm(usize::MAX, 2, &pixels));
}
