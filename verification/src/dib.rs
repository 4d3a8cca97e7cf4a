//! Pictures in the form in which the Windows clipboard takes them.
use crate::image_util;
use crate::image_util::{image_width, rgba_samples};
use vstd::prelude::*;
use vstd::slice::slice_subrange;

verus! {

broadcast use vstd::seq_lib::group_seq_properties;

/// A number in two bytes, the lowest first.
pub open spec fn le16(n: int) -> Seq<u8> {
    seq![(n % 256) as u8, (n / 256 % 256) as u8]
}

/// A number in four bytes, the lowest first. Of a larger number only the lower
/// four bytes are kept.
pub open spec fn le32(n: int) -> Seq<u8> {
    seq![(n % 256) as u8, (n / 256 % 256) as u8, (n / 65536 % 256) as u8, (n / 16777216 % 256) as u8]
}

/// So many zero bytes.
pub open spec fn zeros(n: nat) -> Seq<u8> {
    Seq::new(n, |i: int| 0u8)
}

/// The header of a bitmap with 32 bits for each pixel: blue, green, red, alpha,
/// in the sRGB colour space, rows from the bottom up.
pub open spec fn header(width: int, height: int, size: int) -> Seq<u8> {
    le32(124) + le32(width) + le32(height) + le16(1) + le16(32) + le32(3) + le32(size) + zeros(16) + le32(0x00FF0000)
        + le32(0x0000FF00) + le32(0x000000FF) + le32(0xFF000000) + le32(0x73524742) + zeros(48) + le32(4) + zeros(12)
}

/// A row of samples with red and blue exchanged.
pub open spec fn bgra(rgba: Seq<u8>) -> Seq<u8> {
    Seq::new(
        rgba.len(),
        |i: int|
            if i / 4 * 4 + 4 > rgba.len() {
                rgba[i]
            } else if i % 4 == 0 {
                rgba[i + 2]
            } else if i % 4 == 2 {
                rgba[i - 2]
            } else {
                rgba[i]
            },
    )
}

/// The first whole rows of some length, the last of them first.
pub open spec fn bottom_up(data: Seq<u8>, row: int, rows: int) -> Seq<u8>
    decreases rows,
{
    if rows <= 0 {
        Seq::empty()
    } else {
        data.subrange((rows - 1) * row, rows * row) + bottom_up(data, row, rows - 1)
    }
}

/// The pixels of a bitmap: the whole rows of the samples, from the bottom up,
/// with red and blue exchanged.
pub open spec fn bitmap_pixels(width: int, rgba: Seq<u8>) -> Seq<u8> {
    bottom_up(bgra(rgba), 4 * width, rgba.len() as int / (4 * width))
}

/// A bitmap.
pub open spec fn bitmap(width: int, height: int, rgba: Seq<u8>) -> Seq<u8> {
    let pixels = bitmap_pixels(width, rgba);
    header(width, height, pixels.len() as int) + pixels
}

fn append_le16(out: &mut Vec<u8>, n: u16)
    ensures
        final(out)@ == old(out)@ + le16(n as int),
{
    out.push((n % 256) as u8);
    out.push((n / 256) as u8);
    assert(out@ =~= old(out)@ + le16(n as int));
}

fn append_le32(out: &mut Vec<u8>, n: u64)
    ensures
        final(out)@ == old(out)@ + le32(n as int),
{
    out.push((n % 256) as u8);
    out.push((n / 256 % 256) as u8);
    out.push((n / 65536 % 256) as u8);
    out.push((n / 16777216 % 256) as u8);
    assert(out@ =~= old(out)@ + le32(n as int));
}

fn append_zeros(out: &mut Vec<u8>, n: usize)
    ensures
        final(out)@ == old(out)@ + zeros(n as nat),
{
    let mut i: usize = 0;
    assert(out@ =~= old(out)@ + zeros(0));
    while i < n
        invariant
            i <= n,
            out@ == old(out)@ + zeros(i as nat),
        decreases n - i,
    {
        let ghost so_far = out@;
        out.push(0);
        assert(out@ =~= old(out)@ + zeros((i + 1) as nat));
        i += 1;
    }
}

fn exchange_red_and_blue(rgba: &Vec<u8>) -> (r: Vec<u8>)
    ensures
        r@ == bgra(rgba@),
{
    let n = rgba.len();
    let mut out: Vec<u8> = Vec::new();
    let mut i: usize = 0;
    while i < n
        invariant
            n == rgba@.len(),
            i <= n,
            out@ == bgra(rgba@).take(i as int),
        decreases n - i,
    {
        let ghost so_far = out@;
        let b: u8 = if n - i / 4 * 4 < 4 {
            rgba[i]
        } else if i % 4 == 0 {
            rgba[i + 2]
        } else if i % 4 == 2 {
            rgba[i - 2]
        } else {
            rgba[i]
        };
        out.push(b);
        proof {
            assert(b == bgra(rgba@)[i as int]);
            assert(bgra(rgba@).take(i as int + 1) =~= so_far.push(b));
        }
        i += 1;
    }
    assert(bgra(rgba@).take(n as int) =~= bgra(rgba@));
    out
}

/// A bitmap from the samples of a picture.
pub fn bitmap_bytes(width: u32, height: u32, rgba: &Vec<u8>) -> (r: Vec<u8>)
    requires
        0 < width < 0x4000_0000,
    ensures
        r@ == bitmap(width as int, height as int, rgba@),
{
    let exchanged = exchange_red_and_blue(rgba);
    let total: usize = exchanged.len();
    let row: u64 = width as u64 * 4;
    let rows: u64 = total as u64 / row;
    let ghost data = exchanged@;
    let mut pixels: Vec<u8> = Vec::new();
    let mut left: u64 = rows;
    assert(pixels@ + bottom_up(data, row as int, rows as int) =~= bottom_up(data, row as int, rows as int));
    while left > 0
        invariant
            left <= rows,
            row > 0,
            total == data.len(),
            data == exchanged@,
            rows == total as int / row as int,
            pixels@ + bottom_up(data, row as int, left as int) == bottom_up(data, row as int, rows as int),
        decreases left,
    {
        let ghost so_far = pixels@;
        let ghost k = left as int;
        proof {
            assert((k - 1) * row + row == k * row && 0 <= (k - 1) * row && k * row <= total) by (nonlinear_arith)
                requires
                    1 <= k <= total as int / row as int,
                    row > 0,
                    total >= 0,
            ;
        }
        left -= 1;
        let from = (left * row) as usize;
        let to = from + row as usize;
        pixels.extend_from_slice(slice_subrange(exchanged.as_slice(), from, to));
        proof {
            assert(pixels@ =~= so_far + data.subrange((k - 1) * row, k * row));
            assert(pixels@ + bottom_up(data, row as int, k - 1) =~= so_far + bottom_up(data, row as int, k));
        }
    }
    assert(pixels@ =~= pixels@ + bottom_up(data, row as int, 0));
    let mut out: Vec<u8> = Vec::new();
    append_le32(&mut out, 124);
    append_le32(&mut out, width as u64);
    append_le32(&mut out, height as u64);
    append_le16(&mut out, 1);
    append_le16(&mut out, 32);
    append_le32(&mut out, 3);
    append_le32(&mut out, pixels.len() as u64);
    append_zeros(&mut out, 16);
    append_le32(&mut out, 0x00FF0000);
    append_le32(&mut out, 0x0000FF00);
    append_le32(&mut out, 0x000000FF);
    append_le32(&mut out, 0xFF000000);
    append_le32(&mut out, 0x73524742);
    append_zeros(&mut out, 48);
    append_le32(&mut out, 4);
    append_zeros(&mut out, 12);
    assert(out@ =~= header(width as int, height as int, pixels@.len() as int));
    out.extend_from_slice(pixels.as_slice());
    assert(out@ =~= bitmap(width as int, height as int, rgba@));
    out
}

/// The bitmap of a picture that is not empty, and less than 2^30 pixels wide.
pub fn generate_dibv5(img: &image::DynamicImage) -> (r: Vec<u8>)
    requires
        0 < image_util::width_of(*img) < 0x4000_0000,
    ensures
        r@ == bitmap(
            image_util::width_of(*img) as int,
            image_util::height_of(*img) as int,
            image_util::rgba_of(*img),
        ),
{
    let (width, height, rgba) = rgba_samples(img);
    bitmap_bytes(width, height, &rgba)
}

/// The bitmap of a picture; nothing where it is empty or too wide.
pub fn checked_dibv5(img: &image::DynamicImage) -> (r: Option<Vec<u8>>)
    ensures
        match r {
            Some(v) => 0 < image_util::width_of(*img) < 0x4000_0000 && v@ == bitmap(
                image_util::width_of(*img) as int,
                image_util::height_of(*img) as int,
                image_util::rgba_of(*img),
            ),
            None => !(0 < image_util::width_of(*img) < 0x4000_0000),
        },
{
    let width = image_width(img);
    if 0 < width && width < 0x4000_0000 {
        Some(generate_dibv5(img))
    } else {
        None
    }
}

// ---------------------------------------------------------------------------
// Laws
// ---------------------------------------------------------------------------

/// A bitmap is as long as its header, of 124 bytes, and its pixels, of four
/// bytes each.
pub proof fn bitmap_length(width: int, height: int, rgba: Seq<u8>)
    requires
        width > 0,
        height >= 0,
        rgba.len() == 4 * (width * height),
    ensures
        bitmap(width, height, rgba).len() == 124 + rgba.len(),
{
    let row = 4 * width;
    assert(rgba.len() as int / row == height) by (nonlinear_arith)
        requires
            row == 4 * width,
            width > 0,
            height >= 0,
            rgba.len() == 4 * (width * height),
    ;
    assert(height * row == rgba.len()) by (nonlinear_arith)
        requires
            row == 4 * width,
            rgba.len() == 4 * (width * height),
    ;
    rows_length(bgra(rgba), row, height);
}

proof fn rows_length(data: Seq<u8>, row: int, rows: int)
    requires
        row > 0,
        0 <= rows,
        rows * row <= data.len(),
    ensures
        bottom_up(data, row, rows).len() == rows * row,
    decreases rows,
{
    if rows > 0 {
        assert((rows - 1) * row + row == rows * row && 0 <= (rows - 1) * row) by (nonlinear_arith)
            requires
                rows >= 1,
                row > 0,
        ;
        rows_length(data, row, rows - 1);
    } else {
        assert(rows * row == 0) by (nonlinear_arith)
            requires
                rows == 0,
        ;
    }
}

/// Where a sample of a row stands once the rows are in reverse.
proof fn reversed_row(data: Seq<u8>, row: int, rows: int, y: int, k: int)
    requires
        row > 0,
        0 <= y < rows,
        0 <= k < row,
        rows * row <= data.len(),
    ensures
        0 <= (rows - 1 - y) * row + k < bottom_up(data, row, rows).len(),
        bottom_up(data, row, rows)[(rows - 1 - y) * row + k] == data[y * row + k],
    decreases rows,
{
    assert((rows - 1) * row + row == rows * row && 0 <= (rows - 1) * row) by (nonlinear_arith)
        requires
            rows >= 1,
            row > 0,
    ;
    rows_length(data, row, rows);
    rows_length(data, row, rows - 1);
    if y == rows - 1 {
        assert((rows - 1 - y) * row == 0) by (nonlinear_arith)
            requires
                y == rows - 1,
        ;
    } else {
        reversed_row(data, row, rows - 1, y, k);
        assert((rows - 1 - y) * row == row + (rows - 1 - 1 - y) * row && (rows - 1 - 1 - y) * row >= 0) by (
            nonlinear_arith)
            requires
                y < rows - 1,
                row > 0,
        ;
        assert((rows - 1 - y) * row + k < rows * row) by (nonlinear_arith)
            requires
                0 <= y,
                0 <= k < row,
                y < rows,
        ;
    }
}

/// Each pixel of a picture is in its bitmap, in the row that is as far from the
/// bottom as it was from the top, as blue, green, red and alpha.
pub proof fn bitmap_holds_every_pixel(width: int, height: int, rgba: Seq<u8>, x: int, y: int)
    requires
        0 <= x < width,
        0 <= y < height,
        rgba.len() == 4 * (width * height),
    ensures
        ({
            let at = 124 + 4 * ((height - 1 - y) * width + x);
            let from = 4 * (y * width + x);
            let b = bitmap(width, height, rgba);
            &&& 124 <= at && at + 4 <= b.len()
            &&& b[at] == rgba[from + 2]
            &&& b[at + 1] == rgba[from + 1]
            &&& b[at + 2] == rgba[from]
            &&& b[at + 3] == rgba[from + 3]
        }),
{
    let row = 4 * width;
    let data = bgra(rgba);
    assert(rgba.len() as int / row == height && height * row == rgba.len()) by (nonlinear_arith)
        requires
            row == 4 * width,
            width > 0,
            height >= 0,
            rgba.len() == 4 * (width * height),
    ;
    assert(y * row + 4 * x == 4 * (y * width + x) && (height - 1 - y) * row + 4 * x == 4 * ((height - 1 - y) * width + x))
        by (nonlinear_arith)
        requires
            row == 4 * width,
    ;
    let from = 4 * (y * width + x);
    assert(0 <= from && from + 4 <= rgba.len()) by (nonlinear_arith)
        requires
            from == 4 * (y * width + x),
            0 <= x < width,
            0 <= y < height,
            rgba.len() == 4 * (width * height),
    ;
    assert(from % 4 == 0 && (from + 1) % 4 == 1 && (from + 2) % 4 == 2 && (from + 3) % 4 == 3);
    reversed_row(data, row, height, y, 4 * x);
    reversed_row(data, row, height, y, 4 * x + 1);
    reversed_row(data, row, height, y, 4 * x + 2);
    reversed_row(data, row, height, y, 4 * x + 3);
    let head = header(width, height, bitmap_pixels(width, rgba).len() as int);
    assert(head.len() == 124);
    assert(data[from] == rgba[from + 2]);
    assert(data[from + 1] == rgba[from + 1]);
    assert(data[from + 2] == rgba[from]);
    assert(data[from + 3] == rgba[from + 3]);
}

/// The number that four bytes at a place stand for, the lowest byte first.
pub open spec fn number_at(bytes: Seq<u8>, at: int) -> int {
    bytes[at] + 256 * (bytes[at + 1] + 256 * (bytes[at + 2] + 256 * bytes[at + 3]))
}

/// A number below 2^32 stands in its four bytes.
proof fn numbers_stand_in_four_bytes(n: int)
    requires
        0 <= n < 4294967296,
    ensures
        le32(n).len() == 4,
        number_at(le32(n), 0) == n,
{
}

/// Where the numbers of a header stand.
proof fn numbers_of_a_header(width: int, height: int, size: int)
    ensures
        ({
            let h = header(width, height, size);
            &&& h.len() == 124
            &&& h.subrange(0, 4) == le32(124) && h.subrange(4, 8) == le32(width) && h.subrange(8, 12) == le32(height)
            &&& h.subrange(12, 14) == le16(1) && h.subrange(14, 16) == le16(32)
            &&& h.subrange(16, 20) == le32(3) && h.subrange(20, 24) == le32(size)
            &&& h.subrange(24, 40) == zeros(16)
            &&& h.subrange(40, 44) == le32(0x00FF0000) && h.subrange(44, 48) == le32(0x0000FF00)
            &&& h.subrange(48, 52) == le32(0x000000FF) && h.subrange(52, 56) == le32(0xFF000000)
            &&& h.subrange(56, 60) == le32(0x73524742)
            &&& h.subrange(60, 108) == zeros(48) && h.subrange(108, 112) == le32(4) && h.subrange(112, 124) == zeros(12)
        }),
{
    let h = header(width, height, size);
    assert(h.subrange(0, 4) =~= le32(124));
    assert(h.subrange(4, 8) =~= le32(width));
    assert(h.subrange(8, 12) =~= le32(height));
    assert(h.subrange(12, 14) =~= le16(1));
    assert(h.subrange(14, 16) =~= le16(32));
    assert(h.subrange(16, 20) =~= le32(3));
    assert(h.subrange(20, 24) =~= le32(size));
    assert(h.subrange(24, 40) =~= zeros(16));
    assert(h.subrange(40, 44) =~= le32(0x00FF0000));
    assert(h.subrange(44, 48) =~= le32(0x0000FF00));
    assert(h.subrange(48, 52) =~= le32(0x000000FF));
    assert(h.subrange(52, 56) =~= le32(0xFF000000));
    assert(h.subrange(56, 60) =~= le32(0x73524742));
    assert(h.subrange(60, 108) =~= zeros(48));
    assert(h.subrange(108, 112) =~= le32(4));
    assert(h.subrange(112, 124) =~= zeros(12));
}

proof fn number_in_a_piece(bytes: Seq<u8>, at: int, n: int)
    requires
        0 <= at && at + 4 <= bytes.len(),
        0 <= n < 4294967296,
        bytes.subrange(at, at + 4) == le32(n),
    ensures
        number_at(bytes, at) == n,
{
    let piece = bytes.subrange(at, at + 4);
    numbers_stand_in_four_bytes(n);
    assert(piece[0] == bytes[at] && piece[1] == bytes[at + 1] && piece[2] == bytes[at + 2] && piece[3] == bytes[at + 3]);
}

/// A bitmap starts with its header: its own length, the width and the height of
/// the picture, one plane of 32 bits for each pixel, the length of the pixels,
/// which bits are red, green, blue and alpha, and the name of the colour space.
/// Everything else in it is zero, but for the intent.
pub proof fn bitmaps_start_with_their_size(width: u32, height: u32, rgba: Vec<u8>, r: Vec<u8>, i: int)
    requires
        0 < width < 0x4000_0000,
        call_ensures(bitmap_bytes, (width, height, &rgba), r),
    ensures
        r@.len() >= 124,
        number_at(r@, 0) == 124,
        number_at(r@, 4) == width,
        number_at(r@, 8) == height,
        r@[12] == 1 && r@[13] == 0 && r@[14] == 32 && r@[15] == 0,
        number_at(r@, 16) == 3,
        r@.len() - 124 < 4294967296 ==> number_at(r@, 20) == r@.len() - 124,
        number_at(r@, 40) == 0x00FF0000,
        number_at(r@, 44) == 0x0000FF00,
        number_at(r@, 48) == 0x000000FF,
        number_at(r@, 52) == 0xFF000000,
        number_at(r@, 56) == 0x73524742,
        number_at(r@, 108) == 4,
        24 <= i < 40 || 60 <= i < 108 || 112 <= i < 124 ==> r@[i] == 0,
{
    let pixels = bitmap_pixels(width as int, rgba@);
    let size = pixels.len() as int;
    let h = header(width as int, height as int, size);
    numbers_of_a_header(width as int, height as int, size);
    assert forall|k: int| 0 <= k < 124 implies r@[k] == #[trigger] h[k] by {}
    number_in_a_piece(h, 0, 124);
    number_in_a_piece(h, 4, width as int);
    number_in_a_piece(h, 8, height as int);
    number_in_a_piece(h, 16, 3);
    number_in_a_piece(h, 40, 0x00FF0000);
    number_in_a_piece(h, 44, 0x0000FF00);
    number_in_a_piece(h, 48, 0x000000FF);
    number_in_a_piece(h, 52, 0xFF000000);
    number_in_a_piece(h, 56, 0x73524742);
    number_in_a_piece(h, 108, 4);
    if size < 4294967296 {
        number_in_a_piece(h, 20, size);
    }
    let planes = h.subrange(12, 14);
    let bits = h.subrange(14, 16);
    assert(planes[0] == h[12] && planes[1] == h[13] && bits[0] == h[14] && bits[1] == h[15]);
    assert(le16(1)[0] == 1 && le16(1)[1] == 0 && le16(32)[0] == 32 && le16(32)[1] == 0);
    if 24 <= i < 40 {
        assert(h.subrange(24, 40)[i - 24] == h[i]);
    }
    if 60 <= i < 108 {
        assert(h.subrange(60, 108)[i - 60] == h[i]);
    }
    if 112 <= i < 124 {
        assert(h.subrange(112, 124)[i - 112] == h[i]);
    }
}

/// The whole rows of the samples are in a bitmap, the last of them first, each
/// pixel as blue, green, red and alpha; samples behind the last whole row are not.
pub proof fn bitmaps_hold_the_whole_rows(
    width: u32,
    height: u32,
    rgba: Vec<u8>,
    r: Vec<u8>,
    rows: int,
    x: int,
    y: int,
)
    requires
        0 < width < 0x4000_0000,
        call_ensures(bitmap_bytes, (width, height, &rgba), r),
        0 <= rows,
        4 * (rows * width) <= rgba@.len() < 4 * ((rows + 1) * width),
    ensures
        r@.len() == 124 + 4 * (rows * width),
        0 <= x < width && 0 <= y < rows ==> {
            let at = 124 + 4 * ((rows - 1 - y) * width + x);
            let from = 4 * (y * width + x);
            &&& 124 <= at && at + 4 <= r@.len()
            &&& r@[at] == rgba@[from + 2]
            &&& r@[at + 1] == rgba@[from + 1]
            &&& r@[at + 2] == rgba@[from]
            &&& r@[at + 3] == rgba@[from + 3]
        },
{
    let w = width as int;
    let row = 4 * w;
    let n = rgba@.len() as int;
    let data = bgra(rgba@);
    assert(n / row == rows && rows * row == 4 * (rows * w) && rows * row <= n) by (nonlinear_arith)
        requires
            row == 4 * w,
            w > 0,
            rows >= 0,
            4 * (rows * w) <= n < 4 * ((rows + 1) * w),
    ;
    rows_length(data, row, rows);
    let pixels = bitmap_pixels(w, rgba@);
    let head = header(w, height as int, pixels.len() as int);
    numbers_of_a_header(w, height as int, pixels.len() as int);
    if 0 <= x < w && 0 <= y < rows {
        let from = 4 * (y * w + x);
        assert(y * row + 4 * x == from && (rows - 1 - y) * row + 4 * x == 4 * ((rows - 1 - y) * w + x)) by (
            nonlinear_arith)
            requires
                row == 4 * w,
                from == 4 * (y * w + x),
        ;
        assert(0 <= from && from + 4 <= rows * row) by (nonlinear_arith)
            requires
                from == 4 * (y * w + x),
                row == 4 * w,
                0 <= x < w,
                0 <= y < rows,
        ;
        assert(from % 4 == 0 && (from + 1) % 4 == 1 && (from + 2) % 4 == 2 && (from + 3) % 4 == 3);
        reversed_row(data, row, rows, y, 4 * x);
        reversed_row(data, row, rows, y, 4 * x + 1);
        reversed_row(data, row, rows, y, 4 * x + 2);
        reversed_row(data, row, rows, y, 4 * x + 3);
        assert(data[from] == rgba@[from + 2]);
        assert(data[from + 1] == rgba@[from + 1]);
        assert(data[from + 2] == rgba@[from]);
        assert(data[from + 3] == rgba@[from + 3]);
    }
}

/// The bitmap of a picture is that of its samples. There is one unless the
/// picture is empty or has 2^30 pixels or more in a row.
pub proof fn pictures_have_their_samples_as_bitmap(
    img: image::DynamicImage,
    width: u32,
    height: u32,
    rgba: Vec<u8>,
    b: Vec<u8>,
    r: Option<Vec<u8>>,
)
    requires
        image_util::width_of(img) == width,
        image_util::height_of(img) == height,
        image_util::rgba_of(img) == rgba@,
        0 < width < 0x4000_0000 ==> call_ensures(bitmap_bytes, (width, height, &rgba), b),
        call_ensures(checked_dibv5, (&img,), r),
    ensures
        r is Some <==> 0 < width < 1_073_741_824,
        r matches Some(v) ==> v@ == b@,
        forall|g: Vec<u8>| #[trigger] call_ensures(generate_dibv5, (&img,), g) && r is Some ==> g@ == b@,
{
}

} // verus!
