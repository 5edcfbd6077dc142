use base64::Engine;
use stepdiff::compare::{
    bitmap_from_raw, combined_ignore_ranges, compare_steps, data_uri_payload, data_uri_to_bitmap,
    png_data_uri, CompareError,
};
use stepdiff::image_diff::{subtract_and_prevent_overflow, subtract_image, Bitmap};
use stepdiff::models::TestCase;

fn bitmap(width: u32, height: u32, pixels: Vec<u8>) -> Bitmap {
    bitmap_from_raw(width, height, pixels).unwrap()
}

fn png_uri(width: u32, height: u32, pixels: &[u8]) -> String {
    let mut buf: Vec<u8> = Vec::new();
    image::codecs::png::PngEncoder::new(&mut buf)
        .encode(pixels, width, height, image::ColorType::Rgba8)
        .unwrap();
    format!("data:image/png;base64,{}", base64::engine::general_purpose::STANDARD.encode(&buf))
}

fn decode_uri(uri: &str) -> (u32, u32, Vec<u8>) {
    let payload = uri.split_once(',').unwrap().1;
    let bytes = base64::engine::general_purpose::STANDARD.decode(payload).unwrap();
    let img = image::load_from_memory(&bytes).unwrap().to_rgba8();
    (img.width(), img.height(), img.into_raw())
}

#[test]
fn one_pixel_red_change_scores_ten_of_295() {
    let a = bitmap(1, 1, vec![10, 10, 10, 255]);
    let b = bitmap(1, 1, vec![20, 10, 10, 255]);
    let (score, diff) = subtract_image(&a, &b, &[]);
    assert_eq!(score.changed, 10);
    assert_eq!(score.total, 295);
    let percent = score.changed as f64 * 100.0 / score.total as f64;
    assert!((percent - 3.3898).abs() < 0.001);
    assert!(score.contains_changes());
    assert_eq!(diff.pixels, vec![245, 255, 255, 255]);
}

#[test]
fn identical_images_show_no_change() {
    let px = vec![1, 2, 3, 4, 200, 100, 50, 0, 9, 9, 9, 9, 0, 0, 0, 0, 255, 255, 255, 255, 7, 8, 9, 10];
    let a = bitmap(3, 2, px.clone());
    let b = bitmap(3, 2, px);
    let (score, diff) = subtract_image(&a, &b, &[]);
    assert_eq!(score.changed, 0);
    assert!(!score.contains_changes());
    assert_eq!(diff.pixels, vec![255u8; 24]);
    assert_eq!((diff.width, diff.height), (3, 2));
}

#[test]
fn fully_ignored_images_score_zero() {
    let a = bitmap(2, 2, vec![0; 16]);
    let b = bitmap(2, 2, vec![255; 16]);
    let (score, diff) = subtract_image(&a, &b, &[((0, 0), (0, 1)), ((1, 0), (5, 5))]);
    assert_eq!(score.changed, 0);
    assert_eq!(score.total, 0);
    assert!(!score.contains_changes());
    assert_eq!(diff.pixels, vec![255u8; 16]);
}

#[test]
fn ignore_rectangle_corners_are_inclusive() {
    let a = bitmap(3, 1, vec![0, 0, 0, 0, 0, 0, 0, 0, 0, 0, 0, 0]);
    let b = bitmap(3, 1, vec![1, 1, 1, 1, 2, 2, 2, 2, 3, 3, 3, 3]);
    let (score, diff) = subtract_image(&a, &b, &[((1, 0), (1, 0))]);
    assert_eq!(score.changed, 4 + 12);
    assert_eq!(score.total, 4 + 12);
    assert_eq!(diff.pixels, vec![254, 254, 254, 254, 255, 255, 255, 255, 252, 252, 252, 252]);
}

#[test]
fn absolute_difference_either_order() {
    assert_eq!(subtract_and_prevent_overflow(3, 250), 247);
    assert_eq!(subtract_and_prevent_overflow(250, 3), 247);
    assert_eq!(subtract_and_prevent_overflow(7, 7), 0);
}

#[test]
fn bitmap_needs_four_bytes_per_pixel() {
    assert_eq!(bitmap_from_raw(2, 1, vec![0; 7]).err(), Some(CompareError::UnsupportedOrCorruptImage));
    assert!(bitmap_from_raw(2, 1, vec![0; 8]).is_ok());
}

#[test]
fn payload_needs_exactly_one_comma() {
    assert_eq!(data_uri_payload("data:x;base64,QUJD"), Some("QUJD".as_bytes()));
    assert_eq!(data_uri_payload("no separator"), None);
    assert_eq!(data_uri_payload("a,b,c"), None);
    assert_eq!(data_uri_payload("prefix,"), Some("".as_bytes()));
}

#[test]
fn decodes_png_data_uri() {
    let uri = png_uri(2, 1, &[1, 2, 3, 4, 5, 6, 7, 8]);
    let bm = data_uri_to_bitmap(&uri).unwrap();
    assert_eq!((bm.width, bm.height), (2, 1));
    assert_eq!(bm.pixels, vec![1, 2, 3, 4, 5, 6, 7, 8]);
}

#[test]
fn compare_reports_change_and_diff_image() {
    let left = png_uri(1, 1, &[10, 10, 10, 255]);
    let right = png_uri(1, 1, &[20, 10, 10, 255]);
    let (changed, uri) = compare_steps(&left, &right, &[]).unwrap();
    assert!(changed);
    assert!(uri.starts_with("data:@file/png;base64,"));
    assert_eq!(decode_uri(&uri), (1, 1, vec![245, 255, 255, 255]));
}

#[test]
fn compare_same_image_reports_no_change() {
    let img = png_uri(2, 2, &[9, 8, 7, 6, 5, 4, 3, 2, 1, 0, 1, 2, 3, 4, 5, 6]);
    let (changed, uri) = compare_steps(&img, &img, &[]).unwrap();
    assert!(!changed);
    assert_eq!(decode_uri(&uri), (2, 2, vec![255u8; 16]));
}

#[test]
fn compare_ignores_covered_pixels() {
    let left = png_uri(2, 1, &[0, 0, 0, 255, 5, 5, 5, 255]);
    let right = png_uri(2, 1, &[90, 0, 0, 255, 5, 5, 5, 255]);
    let (changed, _) = compare_steps(&left, &right, &[((0, 0), (0, 0))]).unwrap();
    assert!(!changed);
}

#[test]
fn compare_errors() {
    let good = png_uri(1, 1, &[0, 0, 0, 255]);
    let wide = png_uri(2, 1, &[0, 0, 0, 255, 0, 0, 0, 255]);
    assert_eq!(compare_steps("nocomma", &good, &[]).err(), Some(CompareError::InvalidEncoding));
    assert_eq!(compare_steps("a,b,c", &good, &[]).err(), Some(CompareError::InvalidEncoding));
    assert_eq!(compare_steps("data:,@@@", &good, &[]).err(), Some(CompareError::InvalidEncoding));
    assert_eq!(
        compare_steps("data:,QUJD", &good, &[]).err(),
        Some(CompareError::UnsupportedOrCorruptImage)
    );
    assert_eq!(compare_steps(&good, &wide, &[]).err(), Some(CompareError::DimensionMismatch));
    assert_eq!(compare_steps(&good, "x", &[]).err(), Some(CompareError::InvalidEncoding));
}

#[test]
fn png_data_uri_prefix() {
    assert_eq!(png_data_uri("QUJD"), "data:@file/png;base64,QUJD");
}

#[test]
fn ignore_ranges_of_both_cases_are_concatenated() {
    let mk = |ranges: Vec<((u32, u32), (u32, u32))>| TestCase {
        id: 1,
        run_id: 1,
        name: "c".to_string(),
        ignore_ranges: ranges,
        created_at: 0,
    };
    let l = mk(vec![((0, 0), (1, 1)), ((2, 2), (3, 3))]);
    let r = mk(vec![((0, 0), (1, 1))]);
    assert_eq!(
        combined_ignore_ranges(&l, &r),
        vec![((0, 0), (1, 1)), ((2, 2), (3, 3)), ((0, 0), (1, 1))]
    );
}
