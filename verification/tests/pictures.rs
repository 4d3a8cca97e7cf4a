//! Pictures.
use base64::Engine;
use cipherclip::commands::{picture_from_base64, picture_to_preview};
use cipherclip::dib::{bitmap_bytes, checked_dibv5, generate_dibv5};
use cipherclip::image_util::{clipboard_picture, is_too_wide, load_and_orient, orient, shrunk, thumbnail, webp_bytes};
use image::{DynamicImage, RgbaImage};

/// A picture whose pixels tell where they stand.
fn picture(width: u32, height: u32) -> DynamicImage {
    DynamicImage::ImageRgba8(RgbaImage::from_fn(width, height, |x, y| {
        image::Rgba([10 * x as u8, 20 * y as u8, 7, 255])
    }))
}

fn png(img: &DynamicImage) -> Vec<u8> {
    let mut out = std::io::Cursor::new(Vec::new());
    img.write_to(&mut out, image::ImageFormat::Png).unwrap();
    out.into_inner()
}

fn crc(bytes: &[u8]) -> u32 {
    let mut c = !0u32;
    for b in bytes {
        c ^= *b as u32;
        for _ in 0..8 {
            c = if c & 1 == 1 { 0xedb8_8320 ^ (c >> 1) } else { c >> 1 };
        }
    }
    !c
}

/// A PNG file that states an Exif orientation.
fn oriented_png(img: &DynamicImage, orientation: u8) -> Vec<u8> {
    let mut chunk = b"eXIfII*\0\x08\0\0\0\x01\0\x12\x01\x03\0\x01\0\0\0".to_vec();
    chunk.extend_from_slice(&[orientation, 0, 0, 0, 0, 0, 0, 0]);
    let file = png(img);
    let mut out = file[..33].to_vec();
    out.extend_from_slice(&(chunk.len() as u32 - 4).to_be_bytes());
    out.extend_from_slice(&chunk);
    out.extend_from_slice(&crc(&chunk).to_be_bytes());
    out.extend_from_slice(&file[33..]);
    out
}

fn taken_at(orientation: u8, w: u32, h: u32, x: u32, y: u32) -> (u32, u32) {
    match orientation {
        2 => (w - 1 - x, y),
        3 => (w - 1 - x, h - 1 - y),
        4 => (x, h - 1 - y),
        5 => (y, x),
        6 => (y, h - 1 - x),
        7 => (w - 1 - y, h - 1 - x),
        8 => (w - 1 - y, x),
        _ => (x, y),
    }
}

#[test]
fn pictures_are_made_upright() {
    let taken = picture(3, 2);
    let plain = taken.to_rgba8();
    for orientation in 0..=9u8 {
        for upright in [
            load_and_orient(&oriented_png(&taken, orientation)).unwrap(),
            orient(taken.clone(), Some(orientation as u32)),
        ] {
            let swapped = (5..=8).contains(&orientation);
            assert_eq!((upright.width(), upright.height()), if swapped { (2, 3) } else { (3, 2) });
            for (x, y, p) in upright.to_rgba8().enumerate_pixels() {
                let (a, b) = taken_at(orientation, 3, 2, x, y);
                assert_eq!(p, plain.get_pixel(a, b));
            }
        }
    }
    assert_eq!(orient(taken.clone(), None), taken);
    assert_eq!(load_and_orient(&png(&taken)).unwrap().to_rgba8(), plain);
}

#[test]
fn what_is_no_picture_is_refused() {
    let e = load_and_orient(b"no picture").unwrap_err();
    assert!(e.starts_with("Failed to load image: "));
    assert!(e.len() > 30);
    assert!(thumbnail(b"no picture").is_empty());
    assert_eq!(shrunk(b"no picture", 10), None);
}

#[test]
fn thumbnails_are_a_hundred_pixels_wide() {
    let jpeg = thumbnail(&png(&picture(20, 10)));
    let small = image::load_from_memory(&jpeg).unwrap();
    assert_eq!((small.width(), small.height()), (100, 50));
    assert_eq!(&jpeg[..2], &[0xff, 0xd8]);
    let high = image::load_from_memory(&thumbnail(&png(&picture(1, 200)))).unwrap();
    assert_eq!((high.width(), high.height()), (5, 1000));
}

#[test]
fn wide_pictures_are_shrunk() {
    let file = png(&picture(20, 10));
    let small = image::load_from_memory(&shrunk(&file, 10).unwrap()).unwrap();
    assert_eq!((small.width(), small.height()), (10, 5));
    assert_eq!(shrunk(&file, 20), None);
    let dot = image::load_from_memory(&shrunk(&file, 0).unwrap()).unwrap();
    assert_eq!((dot.width(), dot.height()), (1, 1));
    let gray = shrunk(&png(&DynamicImage::ImageLuma8(image::GrayImage::new(20, 10))), 10).unwrap();
    assert_eq!(image::load_from_memory(&gray).unwrap().color(), image::ColorType::L8);
    assert!(is_too_wide(21, 20) && !is_too_wide(20, 20));
}

#[test]
fn pictures_of_the_clipboard_are_compressed_without_loss() {
    let img = picture(5, 4).to_rgba8();
    let data = clipboard_picture(5, 4, img.as_raw().clone()).unwrap();
    assert_eq!(&data[..4], b"RIFF");
    assert_eq!(image::load_from_memory(&data).unwrap().to_rgba8(), img);
    assert_eq!(webp_bytes(5, 4, img.as_raw()), Some(data));
    assert_eq!(clipboard_picture(5, 5, img.into_raw()), None);
    assert_eq!(clipboard_picture(0, 0, Vec::new()), None);
    assert_eq!(webp_bytes(16385, 1, &vec![0; 4 * 16385]), None);
}

#[test]
fn large_pictures_of_the_clipboard_are_shrunk() {
    let data = clipboard_picture(2000, 10, vec![200; 80000]).unwrap();
    let img = image::load_from_memory(&data).unwrap();
    assert_eq!((img.width(), img.height()), (1920, 10));
    let data = clipboard_picture(4, 2160, vec![200; 4 * 4 * 2160 + 3]).unwrap();
    let img = image::load_from_memory(&data).unwrap();
    assert_eq!((img.width(), img.height()), (2, 1080));
    assert_eq!(img.to_rgba8().get_pixel(0, 0), &image::Rgba([200, 200, 200, 200]));
}

#[test]
fn a_bitmap_has_this_form() {
    let rgba = vec![1, 2, 3, 4, 5, 6, 7, 8];
    let b = bitmap_bytes(1, 2, &rgba);
    assert_eq!(b.len(), 124 + 8);
    let mut expected = vec![124, 0, 0, 0, 1, 0, 0, 0, 2, 0, 0, 0, 1, 0, 32, 0, 3, 0, 0, 0, 8, 0, 0, 0];
    expected.extend(vec![0; 16]);
    expected.extend(vec![0, 0, 255, 0, 0, 255, 0, 0, 255, 0, 0, 0, 0, 0, 0, 255]);
    expected.extend(vec![0x42, 0x47, 0x52, 0x73]);
    expected.extend(vec![0; 48]);
    expected.extend(vec![4, 0, 0, 0]);
    expected.extend(vec![0; 12]);
    expected.extend(vec![7, 6, 5, 8, 3, 2, 1, 4]);
    assert_eq!(b, expected);
    let img = DynamicImage::ImageRgba8(RgbaImage::from_raw(1, 2, rgba).unwrap());
    assert_eq!(generate_dibv5(&img), expected);
    assert_eq!(checked_dibv5(&img), Some(expected));
    assert_eq!(checked_dibv5(&DynamicImage::new_rgba8(0, 3)), None);
}

#[test]
fn every_pixel_is_in_the_bitmap() {
    let img = picture(3, 4);
    let b = generate_dibv5(&img);
    for (x, y, p) in img.to_rgba8().enumerate_pixels() {
        let at = 124 + 4 * ((3 - y as usize) * 3 + x as usize);
        assert_eq!(&b[at..at + 4], &[p.0[2], p.0[1], p.0[0], p.0[3]]);
    }
}

#[test]
fn pictures_come_in_base64() {
    assert_eq!(picture_from_base64("TWFu").unwrap(), b"Man");
    assert!(!picture_from_base64("TWF").unwrap_err().is_empty());
    let file = png(&picture(2, 2));
    let text = base64::engine::general_purpose::STANDARD.encode(&file);
    assert_eq!(picture_to_preview(&text).unwrap().to_rgba8(), picture(2, 2).to_rgba8());
    assert!(picture_to_preview("TWFu").unwrap_err().starts_with("Failed to decode image: "));
    assert_eq!(picture_to_preview("!").unwrap_err(), picture_from_base64("!").unwrap_err());
}
