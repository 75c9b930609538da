use vstd::prelude::*;
use crate::error::ApiError;
use crate::ids::{hyphenated, uuid_text, lemma_hyphenated_bytes};

verus! {

/// The error of the `image` crate, carried through unopened.
#[verifier::external_type_specification]
#[verifier::external_body]
pub struct ExImageError(image::ImageError);

/// Light modules around a normal QR symbol, as `QrCode::render` sets them.
pub const QUIET_ZONE: u32 = 4;

/// Pixels per module side, the default unit size of a luma rendering.
pub const MODULE_PIXELS: u32 = 8;

/// The side in pixels of the rendering of a symbol `width` modules wide.
pub open spec fn image_side(width: int) -> int {
    (width + 2 * QUIET_ZONE) * MODULE_PIXELS
}

/// Whether the pixel at column `x`, row `y` of the rendering falls on a dark
/// module of the symbol.
pub open spec fn dark_pixel(width: int, dark: Seq<bool>, x: int, y: int) -> bool {
    let mx = x / MODULE_PIXELS as int - QUIET_ZONE;
    let my = y / MODULE_PIXELS as int - QUIET_ZONE;
    0 <= mx < width && 0 <= my < width && dark[my * width + mx]
}

/// The grey levels of the rendering, row by row: black on dark modules,
/// white elsewhere (the quiet zone included).
pub open spec fn luma_pixels(width: int, dark: Seq<bool>) -> Seq<u8> {
    let side = image_side(width);
    Seq::new(
        (side * side) as nat,
        |i: int| if dark_pixel(width, dark, i % side, i / side) { 0u8 } else { 255u8 },
    )
}

/// The eight bytes every PNG file starts with.
pub open spec fn png_signature() -> Seq<u8> {
    seq![137u8, 80u8, 78u8, 71u8, 13u8, 10u8, 26u8, 10u8]
}

/// The QR symbol that `qrcode::QrCode::new` builds for `data`, if it builds
/// one: its width in modules and its modules row by row, dark as `true`.
pub uninterp spec fn qr_symbol(data: Seq<u8>) -> Option<(usize, Seq<bool>)>;

/// The PNG file that the `image` crate writes for a square grey image of
/// side `side` with the given pixels, if it writes one.
pub uninterp spec fn png_of_gray(side: u32, pixels: Seq<u8>) -> Option<Seq<u8>>;

/// Encodes `data` as a QR symbol with `qrcode::QrCode::new` (medium error
/// correction, smallest normal version that fits).
///
/// Trusted: the result is the named function `qr_symbol` of the data; a
/// symbol of a normal version is 21 to 177 modules wide (version `v` is
/// `4v + 17` wide, `v` at most 40) and has one module per row and column.
/// Data of at most 36 bytes is always encoded: whatever segments the encoder
/// chooses, each costs at most 4 mode bits, 10 length bits and 8 bits per
/// byte at versions up to 9, so 36 bytes need at most 792 bits, below the
/// 1456 data bits of version 9 at medium correction, which `encode_auto`
/// tries first; the smallest version it then picks has room for them.
#[verifier::external_body]
fn encode_qr(data: &[u8]) -> (res: Option<(usize, Vec<bool>)>)
    ensures
        match res {
            Some((w, d)) => qr_symbol(data@) == Some((w, d@)),
            None => qr_symbol(data@) is None,
        },
        res matches Some((w, d)) ==> 21 <= w <= 177 && d@.len() == w * w,
        data@.len() <= 36 ==> res is Some,
{
    match qrcode::QrCode::new(data) {
        Ok(code) => Some((
            code.width(),
            code.to_colors().into_iter().map(|c| match c {
                qrcode::Color::Dark => true,
                qrcode::Color::Light => false,
            }).collect(),
        )),
        Err(_) => None,
    }
}

/// Renders a symbol into grey pixels with `qrcode`'s `Renderer` for
/// `image::Luma<u8>` and its defaults, as `QrCode::render().build()` does.
///
/// Trusted: the image is square with side `image_side(width)`, and its raw
/// pixels are `luma_pixels`: each module is an 8 by 8 square, black when
/// dark, inside a white quiet zone of `quiet_zone` modules.
#[verifier::external_body]
fn render_luma(width: usize, dark: &Vec<bool>, quiet_zone: u32) -> (res: (u32, Vec<u8>))
    requires
        21 <= width <= 177,
        dark@.len() == width * width,
        quiet_zone == QUIET_ZONE,
    ensures
        res.0 == image_side(width as int),
        res.1@ == luma_pixels(width as int, dark@),
{
    let colors: Vec<qrcode::Color> = dark.iter().map(|d| match d {
        true => qrcode::Color::Dark,
        false => qrcode::Color::Light,
    }).collect();
    let img = qrcode::render::Renderer::<image::Luma<u8>>::new(&colors, width, quiet_zone).build();
    (img.width(), img.into_raw())
}

/// Writes a square grey image as PNG with `ImageBuffer::write_to`.
///
/// Trusted: the result is the named function `png_of_gray` of the side and
/// the pixels. Writing succeeds for a side above zero: the PNG encoder of
/// `image` takes 8-bit grey, sets no animation, palette or metadata, and
/// the `png` writer refuses only a zero width or height, an image buffer of
/// the wrong size (excluded by `requires`) or a failed write, and writing
/// into a `Vec` in memory does not fail. The file starts with the PNG
/// signature, which the `png` writer writes first. The other bytes are left
/// to the name.
#[verifier::external_body]
fn write_png(side: u32, pixels: Vec<u8>) -> (res: Result<Vec<u8>, image::ImageError>)
    requires
        pixels@.len() == side * side,
    ensures
        match res {
            Ok(b) => png_of_gray(side, pixels@) == Some(b@),
            Err(_) => png_of_gray(side, pixels@) is None,
        },
        side > 0 ==> res is Ok,
        res matches Ok(b) ==> b@.len() >= 8 && b@.take(8) == png_signature(),
{
    let img = image::GrayImage::from_raw(side, side, pixels).unwrap();
    let mut bytes: Vec<u8> = Vec::new();
    let written = img.write_to(&mut std::io::Cursor::new(&mut bytes), image::ImageFormat::Png);
    match written {
        Ok(()) => Ok(bytes),
        Err(e) => Err(e),
    }
}

/// The PNG image of a QR symbol, given the symbol that encoding produced:
/// no symbol is a QR code error, a PNG that cannot be written an image error.
pub open spec fn spec_symbol_png(symbol: Option<(usize, Seq<bool>)>) -> Result<Seq<u8>, ApiError> {
    match symbol {
        None => Err(ApiError::QrCodeGenerating),
        Some((w, dark)) => match png_of_gray(image_side(w as int) as u32, luma_pixels(w as int, dark)) {
            Some(b) => Ok(b),
            None => Err(ApiError::ImageGenerating),
        },
    }
}

/// The PNG image of a good's identifier as a QR code.
pub open spec fn spec_qrcode_png(id: u128) -> Result<Seq<u8>, ApiError> {
    spec_symbol_png(qr_symbol(vstd::utf8::encode_utf8(hyphenated(id))))
}

/// Renders an encoded QR symbol, if encoding gave one, as a PNG image.
pub fn symbol_png(symbol: Option<(usize, Vec<bool>)>) -> (res: Result<Vec<u8>, ApiError>)
    requires
        symbol matches Some((w, d)) ==> 21 <= w <= 177 && d@.len() == w * w,
    ensures
        match res {
            Ok(b) => spec_symbol_png(
                match symbol {
                    Some((w, d)) => Some((w, d@)),
                    None => None,
                },
            ) == Ok::<Seq<u8>, ApiError>(b@),
            Err(e) => spec_symbol_png(
                match symbol {
                    Some((w, d)) => Some((w, d@)),
                    None => None,
                },
            ) == Err::<Seq<u8>, ApiError>(e),
        },
        symbol is Some ==> res is Ok,
        res matches Ok(b) ==> b@.len() >= 8 && b@.take(8) == png_signature(),
        symbol is None ==> res == Err::<Vec<u8>, ApiError>(ApiError::QrCodeGenerating),
{
    match symbol {
        None => Err(ApiError::QrCodeGenerating),
        Some((w, dark)) => {
            let (side, pixels) = render_luma(w, &dark, QUIET_ZONE);
            match write_png(side, pixels) {
                Ok(b) => Ok(b),
                Err(_) => Err(ApiError::ImageGenerating),
            }
        },
    }
}

/// The QR code of a good: its identifier's text, hyphenated and in lower
/// case, encoded as a QR symbol and written as a PNG image. The 36 bytes of
/// the text always fit a QR symbol and the image is never empty, so it
/// always succeeds.
pub fn qrcode_png(id: u128) -> (res: Result<Vec<u8>, ApiError>)
    ensures
        match res {
            Ok(b) => spec_qrcode_png(id) == Ok::<Seq<u8>, ApiError>(b@),
            Err(e) => spec_qrcode_png(id) == Err::<Seq<u8>, ApiError>(e),
        },
        qr_symbol(vstd::utf8::encode_utf8(hyphenated(id))) is Some,
        res is Ok,
        res matches Ok(b) ==> b@.len() >= 8 && b@.take(8) == png_signature(),
{
    proof {
        lemma_hyphenated_bytes(id);
    }
    let text = uuid_text(id);
    let data = text.as_str().as_bytes();
    let symbol = encode_qr(data);
    symbol_png(symbol)
}

} // verus!
