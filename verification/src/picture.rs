//! Decoding pictures and sampling them to the grid sizes the renderings need.
//!
//! A picture is its encoded bytes plus how its format is found: from the bytes
//! themselves (a download), or from the extension of the file's path.
use vstd::prelude::*;
use crate::ascii_art::{color_text, render_color};

verus! {

/// `image::ImageError`, the error of decoding; carried to the caller, never inspected.
#[verifier::external_type_specification]
#[verifier::external_body]
pub struct ExImageError(image::ImageError);

/// Why a picture could not be used.
pub enum PictureError {
    /// The bytes are not a picture in a format that could be decoded.
    Decode(image::ImageError),
}

/// The format hint as a mathematical value: the path's text, if any.
pub open spec fn path_view(path: Option<&str>) -> Option<Seq<char>> {
    match path {
        Some(p) => Some(p@),
        None => None,
    }
}

/// Width and height of the decoded picture, or `None` when decoding fails.
pub uninterp spec fn decoded_size(bytes: Seq<u8>, path: Option<Seq<char>>) -> Option<(u32, u32)>;

/// The format from `ImageFormat::from_path` given a path, else from
/// `image::guess_format` on the leading bytes; then
/// `image::load_from_memory_with_format` and `GenericImageView::dimensions`.
/// Both ways of finding the format read only their argument, and decoding with a
/// fixed format consults no hooks, so whether it succeeds and the size it gives
/// are named as a function of the bytes and the path. (`image::load_from_memory`
/// would also consult format hooks registered at run time; this program registers
/// none, so it decodes the same pictures.)
#[verifier::external_body]
fn decode_size(bytes: &[u8], path: Option<&str>) -> (r: Result<(u32, u32), image::ImageError>)
    ensures
        r is Ok <==> decoded_size(bytes@, path_view(path)) is Some,
        r matches Ok(d) ==> decoded_size(bytes@, path_view(path)) == Some(d),
{
    let format = match path {
        Some(p) => image::ImageFormat::from_path(p)?,
        None => image::guess_format(bytes)?,
    };
    let img = image::load_from_memory_with_format(bytes, format)?;
    Ok(image::GenericImageView::dimensions(&img))
}

/// Decodes as `decode_size` does, then `DynamicImage::resize_exact` with
/// `FilterType::Lanczos3`, `to_luma8` and `into_raw`: `resize_exact` always yields
/// exactly `w` by `h` pixels, one byte each here. Left unsaid: the grey values
/// themselves, which come from floating-point resampling whose rounding may
/// differ from one machine to another; and that the resampler's intermediate
/// buffer (decoded width by `h`, four floats a pixel) must fit in memory.
#[verifier::external_body]
fn decode_luma(bytes: &[u8], path: Option<&str>, w: u32, h: u32) -> (r: Result<Vec<u8>, image::ImageError>)
    requires
        4 * w * h <= usize::MAX,
    ensures
        r is Ok <==> decoded_size(bytes@, path_view(path)) is Some,
        r matches Ok(v) ==> v@.len() == w * h,
{
    let format = match path {
        Some(p) => image::ImageFormat::from_path(p)?,
        None => image::guess_format(bytes)?,
    };
    let img = image::load_from_memory_with_format(bytes, format)?;
    Ok(img.resize_exact(w, h, image::imageops::FilterType::Lanczos3).to_luma8().into_raw())
}

/// Decodes as `decode_size` does, then `DynamicImage::resize_exact` with
/// `FilterType::Lanczos3`, `to_rgba8` and `into_raw`: exactly `w` by `h` pixels of
/// four bytes. Left unsaid: the sample values, which come from floating-point
/// resampling; and that the resampler's intermediate buffer (decoded width by
/// `h`) must fit in memory.
#[verifier::external_body]
fn decode_rgba(bytes: &[u8], path: Option<&str>, w: u32, h: u32) -> (r: Result<Vec<u8>, image::ImageError>)
    requires
        4 * w * h <= usize::MAX,
    ensures
        r is Ok <==> decoded_size(bytes@, path_view(path)) is Some,
        r matches Ok(v) ==> v@.len() == 4 * w * h,
{
    let format = match path {
        Some(p) => image::ImageFormat::from_path(p)?,
        None => image::guess_format(bytes)?,
    };
    let img = image::load_from_memory_with_format(bytes, format)?;
    Ok(img.resize_exact(w, h, image::imageops::FilterType::Lanczos3).to_rgba8().into_raw())
}

/// Width and height of the picture.
pub fn picture_size(bytes: &[u8], path: Option<&str>) -> (r: Result<(u32, u32), PictureError>)
    ensures
        r is Ok <==> decoded_size(bytes@, path_view(path)) is Some,
        r matches Ok(d) ==> decoded_size(bytes@, path_view(path)) == Some(d),
{
    match decode_size(bytes, path) {
        Ok(d) => Ok(d),
        Err(e) => Err(PictureError::Decode(e)),
    }
}

/// The picture's grey levels resampled to `w` by `h`, row by row: one byte a pixel.
pub fn gray_pixels(bytes: &[u8], path: Option<&str>, w: u32, h: u32) -> (r: Result<Vec<u8>, PictureError>)
    requires
        4 * w * h <= usize::MAX,
    ensures
        r is Ok <==> decoded_size(bytes@, path_view(path)) is Some,
        r matches Ok(v) ==> v@.len() == w * h,
{
    match decode_luma(bytes, path, w, h) {
        Ok(v) => Ok(v),
        Err(e) => Err(PictureError::Decode(e)),
    }
}

/// RGBA samples read as RGB pixels (the alpha byte is dropped).
pub open spec fn rgb_view(raw: Seq<u8>) -> Seq<(u8, u8, u8)> {
    Seq::new(raw.len() / 4, |i: int| (raw[4 * i], raw[4 * i + 1], raw[4 * i + 2]))
}

/// The RGB pixels of a run of RGBA samples.
pub fn rgb_pixels(raw: &Vec<u8>) -> (pix: Vec<(u8, u8, u8)>)
    requires
        raw@.len() % 4 == 0,
    ensures
        pix@ == rgb_view(raw@),
{
    let len = raw.len();
    let n = len / 4;
    let mut pix: Vec<(u8, u8, u8)> = Vec::new();
    let mut i: usize = 0;
    while i < n
        invariant
            i <= n,
            n == raw@.len() / 4,
            len == raw@.len(),
            raw@.len() % 4 == 0,
            pix@ == rgb_view(raw@).subrange(0, i as int),
        decreases n - i,
    {
        assert(4 * i + 3 < len) by (nonlinear_arith)
            requires
                i < n,
                n == len / 4,
                len % 4 == 0,
        ;
        let k = 4 * i;
        pix.push((raw[k], raw[k + 1], raw[k + 2]));
        i = i + 1;
        assert(pix@ =~= rgb_view(raw@).subrange(0, i as int));
    }
    assert(rgb_view(raw@).subrange(0, n as int) =~= rgb_view(raw@));
    pix
}

/// The picture resampled to `w` by `h` pixels in 24-bit colour, two pixel rows per
/// line: the colour layout of some `w` by `h` run of RGBA samples.
pub fn color_picture(bytes: &[u8], path: Option<&str>, w: u32, h: u32) -> (r: Result<String, PictureError>)
    requires
        4 * w * h <= usize::MAX,
    ensures
        r is Ok <==> decoded_size(bytes@, path_view(path)) is Some,
        r matches Ok(s) ==> exists|raw: Seq<u8>|
            raw.len() == 4 * w * h && s@ == color_text(
                rgb_view(raw),
                w as int,
                h as int,
                ((h + 1) / 2) as nat,
            ),
{
    match decode_rgba(bytes, path, w, h) {
        Ok(raw) => {
            proof {
                let m: int = w * h;
                assert(4 * w * h == 4 * m) by (nonlinear_arith)
                    requires
                        m == w * h,
                ;
                vstd::arithmetic::div_mod::lemma_mod_multiples_basic(m, 4);
                vstd::arithmetic::div_mod::lemma_div_multiples_vanish(m, 4);
                assert(4 * m == m * 4);
            }
            let pix = rgb_pixels(&raw);
            let text = render_color(&pix, w as usize, h as usize);
            assert(raw@.len() == 4 * w * h && text@ == color_text(rgb_view(raw@), w as int, h as int, ((h + 1) / 2) as nat));
            Ok(text)
        },
        Err(e) => Err(PictureError::Decode(e)),
    }
}

} // verus!
