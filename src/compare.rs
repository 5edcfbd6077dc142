use vstd::prelude::*;
use vstd::string::*;

use crate::image_diff::{
    changed_sum, diff_pixels, is_ignored, lemma_all_ignored, lemma_identical_images, subtract_image,
    Bitmap,
};
use crate::models::{IgnoreRange, TestCase};

verus! {

/// Why comparing two encoded screenshots failed.
#[derive(Clone, Copy, Debug, PartialEq, Eq, Structural)]
pub enum CompareError {
    /// The data URI lacks its single comma, or its payload is not base64.
    InvalidEncoding,
    /// The decoded bytes are not a PNG image.
    UnsupportedOrCorruptImage,
    /// The two images differ in width or height.
    DimensionMismatch,
    /// The difference image could not be encoded.
    EncodingFailed,
}

#[verifier::external_type_specification]
#[verifier::external_body]
pub struct ExDecodeError(base64::DecodeError);

#[verifier::external_type_specification]
#[verifier::external_body]
pub struct ExImageError(image::ImageError);

/// The bytes that standard base64 (with padding) decodes `text` to, if it
/// is valid base64.
pub uninterp spec fn base64_decoded(text: Seq<u8>) -> Option<Seq<u8>>;

/// The standard base64 text (with padding) of `bytes`.
pub uninterp spec fn base64_encoded(bytes: Seq<u8>) -> Seq<char>;

/// Width, height and RGBA8 pixels of the PNG image in `bytes`, if it is one.
pub uninterp spec fn png_decoded(bytes: Seq<u8>) -> Option<(u32, u32, Seq<u8>)>;

/// The PNG file that encodes an RGBA8 image, if it can be encoded.
pub uninterp spec fn png_encoded(width: u32, height: u32, pixels: Seq<u8>) -> Option<Seq<u8>>;

/// Relies on `base64::Engine::decode` of `base64::engine::general_purpose::STANDARD`:
/// the bytes, or an error for text that is not valid base64; the outcome
/// depends on the text alone.
#[verifier::external_body]
fn decode_base64(text: &[u8]) -> (r: Result<Vec<u8>, base64::DecodeError>)
    ensures
        match r {
            Ok(bytes) => base64_decoded(text@) == Some(bytes@),
            Err(_) => base64_decoded(text@) is None,
        },
{
    base64::Engine::decode(&base64::engine::general_purpose::STANDARD, text)
}

/// Relies on `base64::Engine::encode` of `base64::engine::general_purpose::STANDARD`,
/// which panics only when the encoded length overflows `usize`.
#[verifier::external_body]
fn encode_base64(bytes: &[u8]) -> (r: String)
    requires
        4 * ((bytes@.len() + 2) / 3) <= usize::MAX,
    ensures
        r@ == base64_encoded(bytes@),
{
    base64::Engine::encode(&base64::engine::general_purpose::STANDARD, bytes)
}

/// Relies on `image::load` with `ImageFormat::Png` and
/// `DynamicImage::to_rgba8`: the decoded image as RGBA8, or an error for
/// bytes that are no PNG; the outcome depends on the bytes alone.
#[verifier::external_body]
fn decode_png(bytes: &[u8]) -> (r: Result<(u32, u32, Vec<u8>), image::ImageError>)
    ensures
        match r {
            Ok(img) => png_decoded(bytes@) == Some((img.0, img.1, img.2@)),
            Err(_) => png_decoded(bytes@) is None,
        },
{
    match image::load(std::io::Cursor::new(bytes), image::ImageFormat::Png) {
        Ok(img) => {
            let rgba = img.to_rgba8();
            Ok((rgba.width(), rgba.height(), rgba.into_raw()))
        },
        Err(e) => Err(e),
    }
}

/// Relies on `image::codecs::png::PngEncoder::encode` with
/// `ColorType::Rgba8`: the PNG bytes, or an error (for instance for a zero
/// width or height); the outcome depends on its arguments alone.
#[verifier::external_body]
fn encode_png(width: u32, height: u32, pixels: &[u8]) -> (r: Result<Vec<u8>, image::ImageError>)
    ensures
        match r {
            Ok(bytes) => png_encoded(width, height, pixels@) == Some(bytes@),
            Err(_) => png_encoded(width, height, pixels@) is None,
        },
{
    let mut bytes: Vec<u8> = Vec::new();
    let encoder = image::codecs::png::PngEncoder::new(&mut bytes);
    match encoder.encode(pixels, width, height, image::ColorType::Rgba8) {
        Ok(()) => Ok(bytes),
        Err(e) => Err(e),
    }
}

/// Whether `k` is the only position of a comma in `s`.
pub open spec fn only_comma_at(s: Seq<u8>, k: int) -> bool {
    &&& 0 <= k < s.len()
    &&& s[k] == 44u8
    &&& forall|j: int| 0 <= j < s.len() && j != k ==> s[j] != 44u8
}

/// The payload of a data URI: what follows its comma, when it has exactly
/// one.
pub open spec fn payload_of(uri: Seq<u8>) -> Option<Seq<u8>> {
    if exists|k: int| only_comma_at(uri, k) {
        let k = choose|k: int| only_comma_at(uri, k);
        Some(uri.subrange(k + 1, uri.len() as int))
    } else {
        None
    }
}

/// Decoding a data URI given as UTF-8 bytes into width, height and pixels.
pub open spec fn decoded_image(uri: Seq<u8>) -> Result<(u32, u32, Seq<u8>), CompareError> {
    match payload_of(uri) {
        None => Err(CompareError::InvalidEncoding),
        Some(payload) => match base64_decoded(payload) {
            None => Err(CompareError::InvalidEncoding),
            Some(bytes) => match png_decoded(bytes) {
                None => Err(CompareError::UnsupportedOrCorruptImage),
                Some(img) => if img.2.len() == 4 * img.0 * img.1 {
                    Ok(img)
                } else {
                    Err(CompareError::UnsupportedOrCorruptImage)
                },
            },
        },
    }
}

/// The prefix put before the base64 text of the difference image.
pub open spec fn png_uri_prefix() -> Seq<char> {
    "data:@file/png;base64,"@
}

/// The outcome of comparing two data URIs (as UTF-8 bytes): whether any
/// channel of a pixel not ignored differs, and the difference image as a
/// PNG data URI.
pub open spec fn comparison(
    left: Seq<u8>,
    right: Seq<u8>,
    ranges: Seq<IgnoreRange>,
) -> Result<(bool, Seq<char>), CompareError> {
    match decoded_image(left) {
        Err(e) => Err(e),
        Ok(a) => match decoded_image(right) {
            Err(e) => Err(e),
            Ok(b) => if a.0 != b.0 || a.1 != b.1 {
                Err(CompareError::DimensionMismatch)
            } else {
                let n = (a.0 * a.1) as nat;
                match png_encoded(a.0, a.1, diff_pixels(a.2, b.2, a.0 as nat, ranges, n)) {
                    None => Err(CompareError::EncodingFailed),
                    Some(png) => if png.len() > usize::MAX / 2 {
                        Err(CompareError::EncodingFailed)
                    } else {
                        Ok(
                            (
                                changed_sum(a.2, b.2, a.0 as nat, ranges, n) > 0,
                                png_uri_prefix() + base64_encoded(png),
                            ),
                        )
                    },
                }
            },
        },
    }
}

/// The payload of a data URI: the bytes after its comma, or `None` unless it
/// has exactly one comma.
pub fn data_uri_payload(data_uri: &str) -> (r: Option<&[u8]>)
    ensures
        match r {
            Some(p) => payload_of(data_uri.spec_bytes()) == Some(p@),
            None => payload_of(data_uri.spec_bytes()) is None,
        },
{
    let bytes = data_uri.as_bytes();
    let ghost s = bytes@;
    let mut i: usize = 0;
    while i < bytes.len()
        invariant
            s == bytes@,
            i <= s.len(),
            forall|j: int| 0 <= j < i ==> s[j] != 44u8,
        ensures
            i <= s.len(),
            forall|j: int| 0 <= j < i ==> s[j] != 44u8,
            i < s.len() ==> s[i as int] == 44u8,
        decreases s.len() - i,
    {
        if bytes[i] == 44u8 {
            break;
        }
        i = i + 1;
    }
    if i == bytes.len() {
        assert(!exists|k: int| only_comma_at(s, k));
        return None;
    }
    let k = i;
    let mut j: usize = k + 1;
    while j < bytes.len()
        invariant
            s == bytes@,
            s == data_uri.spec_bytes(),
            k < j <= s.len(),
            s[k as int] == 44u8,
            forall|t: int| 0 <= t < j && t != k ==> s[t] != 44u8,
        decreases s.len() - j,
    {
        if bytes[j] == 44u8 {
            assert(!exists|m: int| only_comma_at(s, m)) by {
                if exists|m: int| only_comma_at(s, m) {
                    let m = choose|m: int| only_comma_at(s, m);
                    assert(s[j as int] == 44u8);
                }
            }
            return None;
        }
        j = j + 1;
    }
    assert(only_comma_at(s, k as int));
    proof {
        let m = choose|m: int| only_comma_at(s, m);
        assert(m == k);
    }
    let len = bytes.len();
    Some(&bytes[k + 1..len])
}

/// A bitmap from width, height and RGBA8 pixels, refused unless there are
/// exactly four bytes per pixel.
pub fn bitmap_from_raw(width: u32, height: u32, pixels: Vec<u8>) -> (r: Result<Bitmap, CompareError>)
    ensures
        match r {
            Ok(bm) => pixels@.len() == 4 * width * height && bm.width == width && bm.height
                == height && bm.pixels@ == pixels@ && bm.wf(),
            Err(e) => pixels@.len() != 4 * width * height && e
                == CompareError::UnsupportedOrCorruptImage,
        },
{
    let w = width as u128;
    let h = height as u128;
    assert(w * h <= 0xffff_ffff_ffff_ffff) by (nonlinear_arith)
        requires
            w <= 0xffff_ffff,
            h <= 0xffff_ffff,
    ;
    let expected: u128 = 4 * (w * h);
    assert(expected == 4 * width * height) by (nonlinear_arith)
        requires
            expected == 4 * (w * h),
            w == width,
            h == height,
    ;
    if pixels.len() as u128 == expected {
        Ok(Bitmap { width, height, pixels })
    } else {
        Err(CompareError::UnsupportedOrCorruptImage)
    }
}

/// Decodes a data URI: splits it at its single comma, base64-decodes what
/// follows, and reads the bytes as a PNG image.
pub fn data_uri_to_bitmap(data_uri: &str) -> (r: Result<Bitmap, CompareError>)
    ensures
        match r {
            Ok(bm) => decoded_image(data_uri.spec_bytes()) == Ok::<_, CompareError>(
                (bm.width, bm.height, bm.pixels@),
            )
                && bm.wf(),
            Err(e) => decoded_image(data_uri.spec_bytes()) == Err::<(u32, u32, Seq<u8>), _>(e),
        },
{
    let payload = match data_uri_payload(data_uri) {
        Some(p) => p,
        None => return Err(CompareError::InvalidEncoding),
    };
    let bytes = match decode_base64(payload) {
        Ok(b) => b,
        Err(_) => return Err(CompareError::InvalidEncoding),
    };
    let (width, height, pixels) = match decode_png(bytes.as_slice()) {
        Ok(img) => img,
        Err(_) => return Err(CompareError::UnsupportedOrCorruptImage),
    };
    bitmap_from_raw(width, height, pixels)
}

/// The PNG data URI of a base64 payload: `data:@file/png;base64,` then the
/// payload.
pub fn png_data_uri(base64_text: &str) -> (r: String)
    ensures
        r@ == png_uri_prefix() + base64_text@,
{
    let mut uri = String::new();
    uri.append("data:@file/png;base64,");
    uri.append(base64_text);
    uri
}

/// Compares two screenshots given as data URIs, skipping the pixels inside
/// `ignore_ranges`: whether any compared channel differs, and the
/// difference image as a PNG data URI.
pub fn compare_steps(
    left_data_uri: &str,
    right_data_uri: &str,
    ignore_ranges: &[IgnoreRange],
) -> (r: Result<(bool, String), CompareError>)
    ensures
        match (r, comparison(left_data_uri.spec_bytes(), right_data_uri.spec_bytes(), ignore_ranges@)) {
            (Ok(v), Ok(w)) => v.0 == w.0 && v.1@ == w.1,
            (Err(e), Err(f)) => e == f,
            _ => false,
        },
{
    let l_img = match data_uri_to_bitmap(left_data_uri) {
        Ok(img) => img,
        Err(e) => return Err(e),
    };
    let r_img = match data_uri_to_bitmap(right_data_uri) {
        Ok(img) => img,
        Err(e) => return Err(e),
    };
    if l_img.width != r_img.width || l_img.height != r_img.height {
        return Err(CompareError::DimensionMismatch);
    }
    let (score, out_img) = subtract_image(&l_img, &r_img, ignore_ranges);
    let contains_changes = score.contains_changes();
    let png = match encode_png(out_img.width, out_img.height, out_img.pixels.as_slice()) {
        Ok(bytes) => bytes,
        Err(_) => return Err(CompareError::EncodingFailed),
    };
    if png.len() > usize::MAX / 2 {
        return Err(CompareError::EncodingFailed);
    }
    let text = encode_base64(png.as_slice());
    Ok((contains_changes, png_data_uri(text.as_str())))
}

/// The ignore rectangles of a comparison between steps of two test cases:
/// the left case's rectangles, then the right case's.
pub fn combined_ignore_ranges(left: &TestCase, right: &TestCase) -> (r: Vec<IgnoreRange>)
    ensures
        r@ == left.ignore_ranges@ + right.ignore_ranges@,
{
    let mut all: Vec<IgnoreRange> = Vec::new();
    let mut i: usize = 0;
    while i < left.ignore_ranges.len()
        invariant
            i <= left.ignore_ranges@.len(),
            all@ == left.ignore_ranges@.subrange(0, i as int),
        decreases left.ignore_ranges@.len() - i,
    {
        all.push(left.ignore_ranges[i]);
        proof {
            assert(all@ =~= left.ignore_ranges@.subrange(0, i + 1));
        }
        i = i + 1;
    }
    let mut j: usize = 0;
    while j < right.ignore_ranges.len()
        invariant
            j <= right.ignore_ranges@.len(),
            all@ == left.ignore_ranges@ + right.ignore_ranges@.subrange(0, j as int),
        decreases right.ignore_ranges@.len() - j,
    {
        all.push(right.ignore_ranges[j]);
        proof {
            assert(all@ =~= left.ignore_ranges@ + right.ignore_ranges@.subrange(0, j + 1));
        }
        j = j + 1;
    }
    proof {
        assert(left.ignore_ranges@.subrange(0, left.ignore_ranges@.len() as int) =~= left.ignore_ranges@);
        assert(right.ignore_ranges@.subrange(0, right.ignore_ranges@.len() as int) =~= right.ignore_ranges@);
    }
    all
}

/// An image shown when two steps are compared.
#[derive(Clone, Copy, Debug, PartialEq, Eq, Structural)]
pub enum Panel {
    Left,
    Diff,
    Right,
}

/// The images shown for a step comparison: the left screenshot, the
/// difference image only when something changed, then the right screenshot.
pub fn comparison_panels(contains_changes: bool) -> (r: Vec<Panel>)
    ensures
        r@ == (if contains_changes {
            seq![Panel::Left, Panel::Diff, Panel::Right]
        } else {
            seq![Panel::Left, Panel::Right]
        }),
{
    let mut panels: Vec<Panel> = Vec::new();
    panels.push(Panel::Left);
    if contains_changes {
        panels.push(Panel::Diff);
    }
    panels.push(Panel::Right);
    proof {
        if contains_changes {
            assert(panels@ =~= seq![Panel::Left, Panel::Diff, Panel::Right]);
        } else {
            assert(panels@ =~= seq![Panel::Left, Panel::Right]);
        }
    }
    panels
}

/// Comparing a screenshot with itself, nothing ignored, reports no change
/// whenever the comparison succeeds, and the difference image is then all
/// white.
pub proof fn lemma_compare_same_uri(uri: Seq<u8>)
    ensures
        comparison(uri, uri, Seq::empty()) matches Ok(v) ==> !v.0,
        decoded_image(uri) matches Ok(img) ==> diff_pixels(
            img.2,
            img.2,
            img.0 as nat,
            Seq::empty(),
            (img.0 * img.1) as nat,
        ) == Seq::new(4 * ((img.0 * img.1) as nat), |j: int| 255u8),
{
    if let Ok(img) = decoded_image(uri) {
        let n = (img.0 * img.1) as nat;
        assert(img.2.len() == 4 * n) by (nonlinear_arith)
            requires
                img.2.len() == 4 * img.0 * img.1,
                n == img.0 * img.1,
        ;
        lemma_identical_images(img.2, img.0 as nat, n);
    }
}

/// When the ignore rectangles cover every pixel of the left screenshot,
/// a successful comparison reports no change, whatever the pixels hold.
pub proof fn lemma_compare_all_ignored(left: Seq<u8>, right: Seq<u8>, ranges: Seq<IgnoreRange>)
    requires
        decoded_image(left) matches Ok(img) && forall|x: int, y: int|
            0 <= x < img.0 && 0 <= y < img.1 ==> is_ignored(x, y, ranges),
    ensures
        comparison(left, right, ranges) matches Ok(v) ==> !v.0,
{
    if let Ok(a) = decoded_image(left) {
        if let Ok(b) = decoded_image(right) {
            lemma_all_ignored(a.2, b.2, a.0 as nat, a.1 as nat, ranges);
            assert((a.0 as nat) * (a.1 as nat) == (a.0 * a.1) as nat);
        }
    }
}

} // verus!
