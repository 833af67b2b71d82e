use rust_learning_path::picture::{color_picture, gray_pixels, picture_size, rgb_pixels, PictureError};
use std::io::Cursor;

fn png_of(img: image::DynamicImage) -> Vec<u8> {
    let mut buf = Vec::new();
    img.write_to(&mut Cursor::new(&mut buf), image::ImageFormat::Png).unwrap();
    buf
}

fn gray_png() -> Vec<u8> {
    png_of(image::DynamicImage::ImageLuma8(image::GrayImage::from_raw(2, 1, vec![7, 200]).unwrap()))
}

fn rgb_png() -> Vec<u8> {
    let raw = vec![255, 255, 255, 0, 0, 0, 0, 0, 255, 10, 20, 30];
    png_of(image::DynamicImage::ImageRgb8(image::RgbImage::from_raw(2, 2, raw).unwrap()))
}

#[test]
fn sizes_come_from_the_decoded_picture() {
    assert_eq!(picture_size(&gray_png(), None).ok(), Some((2, 1)));
    assert_eq!(picture_size(&rgb_png(), Some("pic.PNG")).ok(), Some((2, 2)));
}

#[test]
fn undecodable_bytes_and_unknown_extensions_are_refused() {
    assert!(matches!(picture_size(b"not a picture", None), Err(PictureError::Decode(_))));
    assert!(matches!(picture_size(&gray_png(), Some("notes.txt")), Err(PictureError::Decode(_))));
    assert!(matches!(picture_size(&gray_png(), Some("no_extension")), Err(PictureError::Decode(_))));
    assert!(matches!(gray_pixels(b"\x89PNG", None, 1, 1), Err(PictureError::Decode(_))));
    assert!(matches!(color_picture(b"", Some("a.png"), 1, 1), Err(PictureError::Decode(_))));
}

#[test]
fn grey_levels_at_the_decoded_size_are_the_pixels() {
    assert_eq!(gray_pixels(&gray_png(), None, 2, 1).ok(), Some(vec![7, 200]));
    let resampled = gray_pixels(&gray_png(), Some("x.png"), 4, 3).ok().unwrap();
    assert_eq!(resampled.len(), 12);
}

#[test]
fn colour_picture_pairs_rows_of_the_decoded_pixels() {
    let out = color_picture(&rgb_png(), None, 2, 2).ok().unwrap();
    assert_eq!(
        out,
        "\x1b[38;2;255;255;255m\x1b[48;2;0;0;255m▀\x1b[38;2;0;0;0m\x1b[48;2;10;20;30m▀\x1b[0m\n"
    );
}

#[test]
fn rgba_samples_drop_alpha() {
    assert_eq!(rgb_pixels(&vec![1, 2, 3, 4, 5, 6, 7, 8]), vec![(1, 2, 3), (5, 6, 7)]);
    assert!(rgb_pixels(&Vec::new()).is_empty());
}
