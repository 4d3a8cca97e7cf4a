//! Pictures: turning them upright, shrinking and compressing them.
use crate::crypto;
use image::ImageEncoder;
use vstd::prelude::*;

verus! {

broadcast use vstd::seq_lib::group_seq_properties;

// ---------------------------------------------------------------------------
// Outside types and functions
// ---------------------------------------------------------------------------

/// A decoded picture of the image crate.
#[verifier::external_type_specification]
#[verifier::external_body]
pub struct ExDynamicImage(image::DynamicImage);

/// The samples of a picture as `to_rgba8` gives them: four for each pixel, row
/// by row from the top.
pub uninterp spec fn rgba_of(img: image::DynamicImage) -> Seq<u8>;

/// The width of a picture in pixels.
pub uninterp spec fn width_of(img: image::DynamicImage) -> nat;

/// The height of a picture in pixels.
pub uninterp spec fn height_of(img: image::DynamicImage) -> nat;

/// Whether the buffer of a picture holds the samples of its pixels, as many as
/// its colour type has, and no more.
pub uninterp spec fn is_tight(img: image::DynamicImage) -> bool;

/// Whether `image::load_from_memory` gives this picture for the bytes of a file,
/// or fails with these words. The samples of a JPEG picture may differ a little
/// from machine to machine, so there may be more than one such picture.
pub uninterp spec fn decodes(bytes: Seq<u8>, outcome: Result<image::DynamicImage, Seq<char>>) -> bool;

/// The value of the Exif orientation of a picture file, if it has one.
pub uninterp spec fn exif_orientation_of(bytes: Seq<u8>) -> Option<u32>;

/// Whether `DynamicImage::resize` with a filter gives this picture for another
/// and these bounds. The samples are worked out in floating point, so there may
/// be more than one such picture.
pub uninterp spec fn resizes(
    img: image::DynamicImage,
    width: int,
    height: int,
    filter: Filter,
    outcome: image::DynamicImage,
) -> bool;

/// Whether the JPEG encoder gives this file for a picture, or none. The bytes
/// are worked out in floating point, so there may be more than one such file.
pub uninterp spec fn jpeg_encodes(img: image::DynamicImage, outcome: Option<Seq<u8>>) -> bool;

/// What the lossless WebP encoder makes of the samples of a picture.
pub uninterp spec fn webp_lossless(width: int, height: int, rgba: Seq<u8>) -> Option<Seq<u8>>;

/// How finely a picture is resampled.
#[derive(Debug, Clone, Copy, PartialEq, Eq, Structural)]
pub enum Filter {
    /// By the Lanczos filter.
    Fine,
    /// By the triangle filter.
    Rough,
}

/// The four samples of a pixel.
pub open spec fn pixel(rgba: Seq<u8>, width: int, x: int, y: int) -> Seq<u8> {
    let i = 4 * (y * width + x);
    rgba.subrange(i, i + 4)
}

/// The samples of a pixel of a picture.
pub open spec fn pixel_of(img: image::DynamicImage, x: int, y: int) -> Seq<u8> {
    pixel(rgba_of(img), width_of(img) as int, x, y)
}

/// The picture in a result, or the words of the error.
pub open spec fn picture_result(r: Result<image::DynamicImage, String>) -> Result<image::DynamicImage, Seq<char>> {
    match r {
        Ok(img) => Ok(img),
        Err(e) => Err(e@),
    }
}

/// `image::load_from_memory`: a picture from the bytes of a file, or the words
/// of the error. The buffer of the picture is made for its size and colour type.
#[verifier::external_body]
pub(crate) fn decode_image(bytes: &[u8]) -> (r: Result<image::DynamicImage, String>)
    ensures
        decodes(bytes@, picture_result(r)),
        r is Ok ==> is_tight(r->Ok_0),
{
    image::load_from_memory(bytes).map_err(|e| e.to_string())
}

/// `exif::Reader::read_from_container`, `get_field` for the orientation of the
/// primary picture, and `get_uint`: the orientation that a picture file states.
/// It depends on the bytes alone.
#[verifier::external_body]
pub(crate) fn exif_orientation(bytes: &[u8]) -> (r: Option<u32>)
    ensures
        r == exif_orientation_of(bytes@),
{
    let data = exif::Reader::new().read_from_container(&mut std::io::Cursor::new(bytes)).ok()?;
    data.get_field(exif::Tag::Orientation, exif::In::PRIMARY)?.value.get_uint(0)
}

/// Whether a picture is another mirrored left to right.
pub open spec fn mirrored(img: image::DynamicImage, r: image::DynamicImage) -> bool {
    &&& width_of(r) == width_of(img)
    &&& height_of(r) == height_of(img)
    &&& forall|x: int, y: int|
        0 <= x < width_of(r) && 0 <= y < height_of(r) ==> #[trigger] pixel_of(r, x, y) == pixel_of(
            img,
            width_of(img) - 1 - x,
            y,
        )
}

/// Whether a picture is another mirrored top to bottom.
pub open spec fn upended(img: image::DynamicImage, r: image::DynamicImage) -> bool {
    &&& width_of(r) == width_of(img)
    &&& height_of(r) == height_of(img)
    &&& forall|x: int, y: int|
        0 <= x < width_of(r) && 0 <= y < height_of(r) ==> #[trigger] pixel_of(r, x, y) == pixel_of(
            img,
            x,
            height_of(img) - 1 - y,
        )
}

/// Whether a picture is another turned by a quarter, clockwise.
pub open spec fn turned_90(img: image::DynamicImage, r: image::DynamicImage) -> bool {
    &&& width_of(r) == height_of(img)
    &&& height_of(r) == width_of(img)
    &&& forall|x: int, y: int|
        0 <= x < width_of(r) && 0 <= y < height_of(r) ==> #[trigger] pixel_of(r, x, y) == pixel_of(
            img,
            y,
            height_of(img) - 1 - x,
        )
}

/// Whether a picture is another turned by a half.
pub open spec fn turned_180(img: image::DynamicImage, r: image::DynamicImage) -> bool {
    &&& width_of(r) == width_of(img)
    &&& height_of(r) == height_of(img)
    &&& forall|x: int, y: int|
        0 <= x < width_of(r) && 0 <= y < height_of(r) ==> #[trigger] pixel_of(r, x, y) == pixel_of(
            img,
            width_of(img) - 1 - x,
            height_of(img) - 1 - y,
        )
}

/// Whether a picture is another turned by three quarters, clockwise.
pub open spec fn turned_270(img: image::DynamicImage, r: image::DynamicImage) -> bool {
    &&& width_of(r) == height_of(img)
    &&& height_of(r) == width_of(img)
    &&& forall|x: int, y: int|
        0 <= x < width_of(r) && 0 <= y < height_of(r) ==> #[trigger] pixel_of(r, x, y) == pixel_of(
            img,
            width_of(img) - 1 - y,
            x,
        )
}

/// `DynamicImage::fliph` mirrors left to right.
#[verifier::external_body]
fn fliph(img: &image::DynamicImage) -> (r: image::DynamicImage)
    ensures
        mirrored(*img, r),
{
    img.fliph()
}

/// `DynamicImage::flipv` mirrors top to bottom.
#[verifier::external_body]
fn flipv(img: &image::DynamicImage) -> (r: image::DynamicImage)
    ensures
        upended(*img, r),
{
    img.flipv()
}

/// `DynamicImage::rotate90` turns by a quarter, clockwise.
#[verifier::external_body]
fn rotate90(img: &image::DynamicImage) -> (r: image::DynamicImage)
    ensures
        turned_90(*img, r),
{
    img.rotate90()
}

/// `DynamicImage::rotate180` turns by a half.
#[verifier::external_body]
fn rotate180(img: &image::DynamicImage) -> (r: image::DynamicImage)
    ensures
        turned_180(*img, r),
{
    img.rotate180()
}

/// `DynamicImage::rotate270` turns by three quarters, clockwise.
#[verifier::external_body]
fn rotate270(img: &image::DynamicImage) -> (r: image::DynamicImage)
    ensures
        turned_270(*img, r),
{
    img.rotate270()
}

/// `DynamicImage::to_rgba8` and `into_raw`, with the width and the height: four
/// samples for each pixel at least.
#[verifier::external_body]
pub(crate) fn rgba_samples(img: &image::DynamicImage) -> (r: (u32, u32, Vec<u8>))
    ensures
        r.0 == width_of(*img),
        r.1 == height_of(*img),
        r.2@ == rgba_of(*img),
        r.2@.len() >= 4 * (r.0 * r.1),
{
    (img.width(), img.height(), img.to_rgba8().into_raw())
}

/// `DynamicImage::width`.
#[verifier::external_body]
pub(crate) fn image_width(img: &image::DynamicImage) -> (r: u32)
    ensures
        r == width_of(*img),
{
    img.width()
}

/// A bound, or one pixel where it is less.
pub open spec fn at_least_one(bound: u32) -> int {
    if bound == 0 {
        1
    } else {
        bound as int
    }
}

/// Whether bounds are so small that a picture scaled up to them fits into
/// memory.
pub open spec fn small_bounds(width: u32, height: u32) -> bool {
    width <= 10_000 && height <= 10_000
}

/// `DynamicImage::resize`: the picture scaled so that it just fits into the
/// bounds, where neither bound is less than one pixel and neither side becomes
/// empty. Unless it has that size already, the new picture has a buffer of its
/// own, with four samples for each pixel as `to_rgba8` gives them and no more.
/// Bounds that the picture does not exceed have to be small, since the picture
/// is scaled up to them.
#[verifier::external_body]
fn resize(img: &image::DynamicImage, width: u32, height: u32, filter: Filter) -> (r: image::DynamicImage)
    requires
        width_of(*img) > width || small_bounds(width, height),
    ensures
        resizes(*img, width as int, height as int, filter, r),
        width_of(*img) != width || height_of(*img) != height ==> 1 <= width_of(r) <= at_least_one(width)
            && 1 <= height_of(r) <= at_least_one(height),
        width_of(*img) != width || height_of(*img) != height ==> rgba_of(r).len() == 4 * (width_of(r) * height_of(r)),
        width_of(*img) == width && height_of(*img) == height ==> width_of(r) == width && height_of(r) == height,
        width_of(*img) != width || height_of(*img) != height || is_tight(*img) ==> is_tight(r),
{
    let kernel = match filter {
        Filter::Fine => image::imageops::FilterType::Lanczos3,
        Filter::Rough => image::imageops::FilterType::Triangle,
    };
    img.resize(width, height, kernel)
}

/// `DynamicImage::write_to` as JPEG: the bytes of the file, or nothing where it
/// cannot be written. The encoder insists on a buffer without surplus samples.
#[verifier::external_body]
fn jpeg_bytes(img: &image::DynamicImage) -> (r: Option<Vec<u8>>)
    requires
        is_tight(*img),
    ensures
        jpeg_encodes(*img, crypto::opt_seq(r)),
{
    let mut cursor = std::io::Cursor::new(Vec::new());
    img.write_to(&mut cursor, image::ImageFormat::Jpeg).ok().map(|_| cursor.into_inner())
}

/// Whether a picture has that size and those samples.
pub open spec fn is_picture(img: image::DynamicImage, width: int, height: int, rgba: Seq<u8>) -> bool {
    width_of(img) == width && height_of(img) == height && rgba_of(img) == rgba
}

/// `RgbaImage::from_raw`: the picture with those samples; nothing where they are
/// too few for its size.
#[verifier::external_body]
fn from_samples(width: u32, height: u32, rgba: Vec<u8>) -> (r: Option<image::DynamicImage>)
    ensures
        r is Some == (4 * (width * height) <= rgba@.len()),
        r is Some ==> is_picture(r->0, width as int, height as int, rgba@),
{
    image::RgbaImage::from_raw(width, height, rgba).map(image::DynamicImage::ImageRgba8)
}

/// `WebPEncoder::new_lossless` and `write_image` for samples of eight bits with
/// alpha. It refuses empty pictures, and sides of more than 16384 pixels.
#[verifier::external_body]
fn webp_encode(width: u32, height: u32, rgba: &Vec<u8>) -> (r: Option<Vec<u8>>)
    requires
        rgba@.len() == 4 * (width * height),
    ensures
        crypto::opt_seq(r) == webp_lossless(width as int, height as int, rgba@),
        r is Some == (1 <= width <= 16384 && 1 <= height <= 16384),
{
    let mut out = Vec::new();
    let encoder = image::codecs::webp::WebPEncoder::new_lossless(&mut out);
    encoder.write_image(rgba, width, height, image::ExtendedColorType::Rgba8).ok().map(|_| out)
}

// ---------------------------------------------------------------------------
// Upright pictures
// ---------------------------------------------------------------------------

/// Where a pixel of the upright picture stands in the picture as it was taken,
/// for an Exif orientation and the size of the latter.
pub open spec fn taken_at(orientation: Option<u32>, width: int, height: int, x: int, y: int) -> (int, int) {
    match orientation {
        Some(2) => (width - 1 - x, y),
        Some(3) => (width - 1 - x, height - 1 - y),
        Some(4) => (x, height - 1 - y),
        Some(5) => (y, x),
        Some(6) => (y, height - 1 - x),
        Some(7) => (width - 1 - y, height - 1 - x),
        Some(8) => (width - 1 - y, x),
        _ => (x, y),
    }
}

/// Whether an orientation swaps width and height.
pub open spec fn swaps_sides(orientation: Option<u32>) -> bool {
    match orientation {
        Some(n) => 5 <= n <= 8,
        None => false,
    }
}

/// Whether a picture is another made upright by its Exif orientation.
pub open spec fn upright(orientation: Option<u32>, img: image::DynamicImage, r: image::DynamicImage) -> bool {
    let w = width_of(img) as int;
    let h = height_of(img) as int;
    &&& width_of(r) == (if swaps_sides(orientation) {
        h
    } else {
        w
    })
    &&& height_of(r) == (if swaps_sides(orientation) {
        w
    } else {
        h
    })
    &&& forall|x: int, y: int|
        0 <= x < width_of(r) && 0 <= y < height_of(r) ==> {
            let (a, b) = taken_at(orientation, w, h, x, y);
            #[trigger] pixel_of(r, x, y) == pixel_of(img, a, b)
        }
}

/// Whether a picture is what a file holds, made upright by the orientation that
/// the file states.
pub open spec fn loads(bytes: Seq<u8>, r: image::DynamicImage) -> bool {
    exists|taken: image::DynamicImage|
        decodes(bytes, Ok(taken)) && #[trigger] upright(exif_orientation_of(bytes), taken, r)
}

/// Whether a file cannot be decoded for the reason in these words.
pub open spec fn refuses(bytes: Seq<u8>, words: Seq<char>) -> bool {
    decodes(bytes, Err(words))
}

/// Whether a file cannot be decoded, in the words in which that is reported.
pub open spec fn load_fails(bytes: Seq<u8>, message: Seq<char>) -> bool {
    exists|words: Seq<char>| #[trigger] refuses(bytes, words) && message == "Failed to load image: "@ + words
}

/// The picture made upright by its Exif orientation.
pub fn orient(img: image::DynamicImage, orientation: Option<u32>) -> (r: image::DynamicImage)
    ensures
        upright(orientation, img, r),
{
    match orientation {
        Some(2) => fliph(&img),
        Some(3) => rotate180(&img),
        Some(4) => flipv(&img),
        Some(5) => {
            let quarter = rotate90(&img);
            let r = fliph(&quarter);
            proof {
                assert forall|x: int, y: int| 0 <= x < width_of(r) && 0 <= y < height_of(r) implies #[trigger] pixel_of(
                    r,
                    x,
                    y,
                ) == pixel_of(img, y, x) by {
                    assert(pixel_of(r, x, y) == pixel_of(quarter, width_of(quarter) - 1 - x, y));
                }
            }
            r
        },
        Some(6) => rotate90(&img),
        Some(7) => {
            let three = rotate270(&img);
            let r = fliph(&three);
            proof {
                assert forall|x: int, y: int| 0 <= x < width_of(r) && 0 <= y < height_of(r) implies #[trigger] pixel_of(
                    r,
                    x,
                    y,
                ) == pixel_of(img, width_of(img) - 1 - y, height_of(img) - 1 - x) by {
                    assert(pixel_of(r, x, y) == pixel_of(three, width_of(three) - 1 - x, y));
                }
            }
            r
        },
        Some(8) => rotate270(&img),
        _ => img,
    }
}

/// The picture in a file, made upright by the orientation that the file states;
/// or the words of the error.
pub fn load_and_orient(bytes: &[u8]) -> (r: Result<image::DynamicImage, String>)
    ensures
        match r {
            Ok(img) => loads(bytes@, img),
            Err(e) => load_fails(bytes@, e@),
        },
{
    match decode_image(bytes) {
        Ok(img) => {
            let orientation = exif_orientation(bytes);
            let ghost taken = img;
            let r = orient(img, orientation);
            assert(upright(exif_orientation_of(bytes@), taken, r));
            Ok(r)
        },
        Err(e) => {
            assert(refuses(bytes@, e@));
            let mut message = "Failed to load image: ".to_owned();
            message.append(e.as_str());
            Err(message)
        },
    }
}

// ---------------------------------------------------------------------------
// Smaller pictures
// ---------------------------------------------------------------------------

/// The width of a thumbnail.
pub const THUMBNAIL: u32 = 100;

/// The widest picture that is kept from the clipboard.
pub const MAX_WIDTH: u32 = 1920;

/// The highest picture that is kept from the clipboard.
pub const MAX_HEIGHT: u32 = 1080;

/// Whether a picture of a width has to be shrunk to fit another.
pub fn is_too_wide(width: u32, max_width: u32) -> (r: bool)
    ensures
        r == (width > max_width),
{
    width > max_width
}

/// Whether a JPEG file, or none, is a picture scaled to bounds.
pub open spec fn scaled_jpeg(
    img: image::DynamicImage,
    width: int,
    height: int,
    filter: Filter,
    outcome: Option<Seq<u8>>,
) -> bool {
    exists|small: image::DynamicImage|
        resizes(img, width, height, filter, small) && #[trigger] jpeg_encodes(small, outcome)
}

fn scale_to_jpeg(img: &image::DynamicImage, width: u32, height: u32, filter: Filter) -> (r: Option<Vec<u8>>)
    requires
        is_tight(*img),
        width_of(*img) > width || small_bounds(width, height),
    ensures
        scaled_jpeg(*img, width as int, height as int, filter, crypto::opt_seq(r)),
{
    jpeg_bytes(&resize(img, width, height, filter))
}

/// Whether a file holds a picture whose thumbnail is this; no bytes stand for
/// one that could not be made.
pub open spec fn has_thumbnail(bytes: Seq<u8>, jpeg: Seq<u8>) -> bool {
    exists|img: image::DynamicImage, outcome: Option<Seq<u8>>|
        decodes(bytes, Ok(img)) && #[trigger] scaled_jpeg(img, THUMBNAIL as int, 1000, Filter::Rough, outcome) && jpeg
            == (match outcome {
            Some(j) => j,
            None => Seq::empty(),
        })
}

/// Whether a file holds no picture.
pub open spec fn holds_none(bytes: Seq<u8>) -> bool {
    exists|words: Seq<char>| #[trigger] refuses(bytes, words)
}

/// Whether this is the thumbnail of a file: no bytes where the file holds no
/// picture.
pub open spec fn thumbnail_of(bytes: Seq<u8>, jpeg: Seq<u8>) -> bool {
    has_thumbnail(bytes, jpeg) || (jpeg.len() == 0 && holds_none(bytes))
}

/// A thumbnail of a picture file as JPEG; no bytes where there is no picture in
/// it, or none can be made of it.
pub fn thumbnail(bytes: &[u8]) -> (r: Vec<u8>)
    ensures
        thumbnail_of(bytes@, r@),
{
    match decode_image(bytes) {
        Ok(img) => {
            let jpeg = scale_to_jpeg(&img, THUMBNAIL, 1000, Filter::Rough);
            let ghost outcome = crypto::opt_seq(jpeg);
            assert(scaled_jpeg(img, THUMBNAIL as int, 1000, Filter::Rough, outcome));
            let r: Vec<u8> = match jpeg {
                Some(jpeg) => jpeg,
                None => Vec::new(),
            };
            assert(r@ =~= (match outcome {
                Some(j) => j,
                None => Seq::empty(),
            }));
            r
        },
        Err(e) => {
            assert(refuses(bytes@, e@));
            Vec::new()
        },
    }
}

/// Whether a file holds a picture that is wider than a width, and this is it
/// shrunk to that width, or nothing where that could not be written.
pub open spec fn shrinks(bytes: Seq<u8>, max_width: int, outcome: Option<Seq<u8>>) -> bool {
    exists|img: image::DynamicImage|
        decodes(bytes, Ok(img)) && width_of(img) > max_width && #[trigger] scaled_jpeg(
            img,
            max_width,
            max_width * 10,
            Filter::Fine,
            outcome,
        )
}

/// Whether a file holds a picture that is not wider than a width.
pub open spec fn fits_already(bytes: Seq<u8>, max_width: int) -> bool {
    exists|img: image::DynamicImage| decodes(bytes, Ok(img)) && #[trigger] width_of(img) <= max_width
}

/// A picture file shrunk to a width, as JPEG; nothing where there is no picture
/// in it, or it is not wider than that. Nothing is shrunk to less than a pixel.
pub fn shrunk(bytes: &[u8], max_width: u32) -> (r: Option<Vec<u8>>)
    requires
        max_width <= 429_496_729,
    ensures
        shrinks(bytes@, max_width as int, crypto::opt_seq(r)) || (r is None && (fits_already(bytes@, max_width as int)
            || holds_none(bytes@))),
{
    match decode_image(bytes) {
        Ok(img) => if is_too_wide(image_width(&img), max_width) {
            scale_to_jpeg(&img, max_width, max_width * 10, Filter::Fine)
        } else {
            assert(width_of(img) <= max_width);
            None
        },
        Err(e) => {
            assert(refuses(bytes@, e@));
            None
        },
    }
}

/// A picture of a size as lossless WebP.
pub fn webp_bytes(width: u32, height: u32, rgba: &Vec<u8>) -> (r: Option<Vec<u8>>)
    requires
        rgba@.len() == 4 * (width * height),
    ensures
        crypto::opt_seq(r) == webp_lossless(width as int, height as int, rgba@),
        r is Some == (1 <= width <= 16384 && 1 <= height <= 16384),
{
    webp_encode(width, height, rgba)
}

/// Whether there are samples for every pixel.
pub open spec fn enough_samples(width: int, height: int, rgba: Seq<u8>) -> bool {
    4 * (width * height) <= rgba.len()
}

/// Whether a picture with those samples, shrunk into the bounds, is compressed
/// to those bytes.
pub open spec fn compressed_within_bounds(width: int, height: int, rgba: Seq<u8>, data: Seq<u8>) -> bool {
    exists|img: image::DynamicImage, small: image::DynamicImage|
        is_picture(img, width, height, rgba) && #[trigger] resizes(
            img,
            MAX_WIDTH as int,
            MAX_HEIGHT as int,
            Filter::Fine,
            small,
        ) && webp_lossless(width_of(small) as int, height_of(small) as int, rgba_of(small)) == Some(data)
}

/// The picture on the clipboard as it is kept: lossless WebP, shrunk first
/// where it is larger than the bounds. Nothing is kept of a picture that is
/// empty or lacks samples.
pub fn clipboard_picture(width: u32, height: u32, rgba: Vec<u8>) -> (r: Option<Vec<u8>>)
    requires
        4 * (width * height) < rgba@.len() ==> width > MAX_WIDTH || height > MAX_HEIGHT,
    ensures
        !enough_samples(width as int, height as int, rgba@) ==> r is None,
        enough_samples(width as int, height as int, rgba@) && width <= MAX_WIDTH && height <= MAX_HEIGHT
            ==> crypto::opt_seq(r) == webp_lossless(width as int, height as int, rgba@) && (r is Some == (width > 0
            && height > 0)),
        enough_samples(width as int, height as int, rgba@) && (width > MAX_WIDTH || height > MAX_HEIGHT)
            ==> r is Some && compressed_within_bounds(width as int, height as int, rgba@, r->0@),
{
    match from_samples(width, height, rgba) {
        Some(img) => if width > MAX_WIDTH || height > MAX_HEIGHT {
            let small = resize(&img, MAX_WIDTH, MAX_HEIGHT, Filter::Fine);
            let (small_width, small_height, samples) = rgba_samples(&small);
            let r = webp_bytes(small_width, small_height, &samples);
            assert(resizes(img, MAX_WIDTH as int, MAX_HEIGHT as int, Filter::Fine, small));
            r
        } else {
            let (_, _, samples) = rgba_samples(&img);
            webp_bytes(width, height, &samples)
        },
        None => None,
    }
}

// ---------------------------------------------------------------------------
// Laws
// ---------------------------------------------------------------------------

/// The orientations from two to eight are mirrored left to right, turned by a
/// half, mirrored top to bottom, mirrored along the diagonal, turned by a quarter,
/// mirrored along the other diagonal, and turned by three quarters; of any other,
/// or without one, the picture stays as it was taken.
pub proof fn orientations_are_turns(img: image::DynamicImage, orientation: Option<u32>, r: image::DynamicImage)
    requires
        call_ensures(orient, (img, orientation), r),
    ensures
        orientation == Some(2u32) ==> mirrored(img, r),
        orientation == Some(3u32) ==> turned_180(img, r),
        orientation == Some(4u32) ==> upended(img, r),
        orientation == Some(6u32) ==> turned_90(img, r),
        orientation == Some(8u32) ==> turned_270(img, r),
        orientation == Some(5u32) || orientation == Some(7u32) ==> width_of(r) == height_of(img) && height_of(r)
            == width_of(img),
        orientation == Some(5u32) ==> forall|x: int, y: int|
            0 <= x < width_of(r) && 0 <= y < height_of(r) ==> #[trigger] pixel_of(r, x, y) == pixel_of(img, y, x),
        orientation == Some(7u32) ==> forall|x: int, y: int|
            0 <= x < width_of(r) && 0 <= y < height_of(r) ==> #[trigger] pixel_of(r, x, y) == pixel_of(
                img,
                width_of(img) - 1 - y,
                height_of(img) - 1 - x,
            ),
        orientation is None || orientation->0 < 2 || orientation->0 > 8 ==> {
            &&& width_of(r) == width_of(img)
            &&& height_of(r) == height_of(img)
            &&& forall|x: int, y: int|
                0 <= x < width_of(r) && 0 <= y < height_of(r) ==> #[trigger] pixel_of(r, x, y) == pixel_of(img, x, y)
        },
{
}

/// A file is loaded where it can be decoded, and the picture is turned as its
/// Exif orientation says; otherwise the words of the decoder are reported.
pub proof fn loaded_pictures_are_upright(bytes: &[u8], r: Result<image::DynamicImage, String>)
    requires
        call_ensures(load_and_orient, (bytes,), r),
    ensures
        r matches Ok(img) ==> exists|taken: image::DynamicImage|
            decodes(bytes@, Ok(taken)) && #[trigger] upright(exif_orientation_of(bytes@), taken, img),
        r matches Err(e) ==> exists|words: Seq<char>| #[trigger]
            decodes(bytes@, Err(words)) && e@ == "Failed to load image: "@ + words,
{
    if r is Err {
        let words = choose|words: Seq<char>|
            #[trigger] refuses(bytes@, words) && r->Err_0@ == "Failed to load image: "@ + words;
        assert(decodes(bytes@, Err(words)));
    }
}

/// A picture is too wide exactly where it is wider than it may be.
pub proof fn too_wide_is_wider(width: u32, max_width: u32, r: bool)
    requires
        call_ensures(is_too_wide, (width, max_width), r),
    ensures
        width <= max_width ==> !r,
        width > max_width ==> r,
{
}

/// A thumbnail is the picture scaled to at most 100 by 1000 pixels; none is made
/// only of a file that cannot be decoded, or where it cannot be written.
pub proof fn thumbnails_are_a_hundred_wide(bytes: &[u8], r: Vec<u8>)
    requires
        call_ensures(thumbnail, (bytes,), r),
    ensures
        ({
            ||| exists|img: image::DynamicImage, small: image::DynamicImage, outcome: Option<Seq<u8>>|
                {
                    &&& decodes(bytes@, Ok(img))
                    &&& #[trigger] resizes(img, 100, 1000, Filter::Rough, small)
                    &&& #[trigger] jpeg_encodes(small, outcome)
                    &&& outcome is Some ==> r@ == outcome->0
                    &&& outcome is None ==> r@.len() == 0
                }
            ||| r@.len() == 0 && exists|words: Seq<char>| #[trigger] decodes(bytes@, Err(words))
        }),
{
    if has_thumbnail(bytes@, r@) {
        let (img, outcome) = choose|img: image::DynamicImage, outcome: Option<Seq<u8>>|
            decodes(bytes@, Ok(img)) && #[trigger] scaled_jpeg(img, THUMBNAIL as int, 1000, Filter::Rough, outcome) && r@
                == (match outcome {
                Some(j) => j,
                None => Seq::empty(),
            });
        let small = choose|small: image::DynamicImage|
            resizes(img, 100, 1000, Filter::Rough, small) && #[trigger] jpeg_encodes(small, outcome);
        assert(resizes(img, 100, 1000, Filter::Rough, small) && jpeg_encodes(small, outcome));
    } else {
        let words = choose|words: Seq<char>| #[trigger] refuses(bytes@, words);
        assert(decodes(bytes@, Err(words)));
    }
}

/// A picture file is shrunk where its picture is wider than the width asked for,
/// to that width and at most ten times as high; one that is not stays, and so does
/// a file that cannot be decoded.
pub proof fn wide_pictures_are_shrunk(bytes: &[u8], max_width: u32, r: Option<Vec<u8>>)
    requires
        max_width <= 429_496_729,
        call_ensures(shrunk, (bytes, max_width), r),
    ensures
        r is Some ==> exists|img: image::DynamicImage, small: image::DynamicImage|
            {
                &&& decodes(bytes@, Ok(img))
                &&& width_of(img) > max_width
                &&& #[trigger] resizes(img, max_width as int, 10 * max_width, Filter::Fine, small)
                &&& jpeg_encodes(small, Some(r->0@))
            },
        r is None ==> {
            ||| exists|img: image::DynamicImage| decodes(bytes@, Ok(img)) && #[trigger] width_of(img) <= max_width
            ||| exists|words: Seq<char>| #[trigger] decodes(bytes@, Err(words))
            ||| exists|img: image::DynamicImage, small: image::DynamicImage|
                {
                    &&& decodes(bytes@, Ok(img))
                    &&& width_of(img) > max_width
                    &&& #[trigger] resizes(img, max_width as int, 10 * max_width, Filter::Fine, small)
                    &&& jpeg_encodes(small, None)
                }
        },
{
    let outcome = crypto::opt_seq(r);
    if shrinks(bytes@, max_width as int, outcome) {
        let img = choose|img: image::DynamicImage|
            decodes(bytes@, Ok(img)) && width_of(img) > max_width && #[trigger] scaled_jpeg(
                img,
                max_width as int,
                max_width * 10,
                Filter::Fine,
                outcome,
            );
        let small = choose|small: image::DynamicImage|
            resizes(img, max_width as int, max_width * 10, Filter::Fine, small) && #[trigger] jpeg_encodes(small, outcome);
        assert(max_width * 10 == 10 * max_width);
        assert(resizes(img, max_width as int, 10 * max_width, Filter::Fine, small));
    } else if holds_none(bytes@) {
        let words = choose|words: Seq<char>| #[trigger] refuses(bytes@, words);
        assert(decodes(bytes@, Err(words)));
    }
}

/// A picture on the clipboard of up to 1920 by 1080 pixels is kept as it is,
/// without loss; a larger one is first scaled into those bounds. Nothing is kept
/// of one that is empty or lacks samples.
pub proof fn large_clipboard_pictures_are_scaled(width: u32, height: u32, rgba: Vec<u8>, r: Option<Vec<u8>>)
    requires
        4 * (width * height) < rgba@.len() ==> width > 1920 || height > 1080,
        call_ensures(clipboard_picture, (width, height, rgba), r),
    ensures
        4 * (width * height) > rgba@.len() ==> r is None,
        4 * (width * height) <= rgba@.len() && width <= 1920 && height <= 1080 ==> {
            &&& r is Some <==> width > 0 && height > 0
            &&& r matches Some(v) ==> webp_lossless(width as int, height as int, rgba@) == Some(v@)
        },
        4 * (width * height) <= rgba@.len() && (width > 1920 || height > 1080) ==> r is Some && exists|
            img: image::DynamicImage,
            small: image::DynamicImage,
        |
            {
                &&& width_of(img) == width && height_of(img) == height && rgba_of(img) == rgba@
                &&& #[trigger] resizes(img, 1920, 1080, Filter::Fine, small)
                &&& webp_lossless(width_of(small) as int, height_of(small) as int, rgba_of(small)) == Some(r->0@)
            },
{
    if 4 * (width * height) <= rgba@.len() && (width > 1920 || height > 1080) {
        let (img, small) = choose|img: image::DynamicImage, small: image::DynamicImage|
            is_picture(img, width as int, height as int, rgba@) && #[trigger] resizes(
                img,
                MAX_WIDTH as int,
                MAX_HEIGHT as int,
                Filter::Fine,
                small,
            ) && webp_lossless(width_of(small) as int, height_of(small) as int, rgba_of(small)) == Some(r->0@);
        assert(resizes(img, 1920, 1080, Filter::Fine, small));
    }
}

} // verus!
