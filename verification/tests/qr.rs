use image::Luma;
use sortflow::error::ApiError;
use sortflow::qr::{qrcode_png, symbol_png};

const GOOD: u128 = 0x67e5504410b1426f9247bb680e5fe0c8;
const TEXT: &str = "67e55044-10b1-426f-9247-bb680e5fe0c8";

#[test]
fn qrcode_png_encodes_identifier_text() {
    let png = qrcode_png(GOOD).unwrap();
    assert_eq!(&png[..8], &[0x89, b'P', b'N', b'G', 0x0d, 0x0a, 0x1a, 0x0a]);
    let decoded = image::load_from_memory(&png).unwrap().to_luma8();
    let code = qrcode::QrCode::new(TEXT.as_bytes()).unwrap();
    let side = ((code.width() as u32) + 8) * 8;
    assert_eq!(decoded.width(), side);
    assert_eq!(decoded.height(), side);
    let expected = code.render::<Luma<u8>>().build();
    assert_eq!(decoded.into_raw(), expected.into_raw());
}

#[test]
fn qrcode_png_layout() {
    let png = qrcode_png(GOOD).unwrap();
    let img = image::load_from_memory(&png).unwrap().to_luma8();
    // The quiet zone is white, the top-left finder pattern starts black.
    assert_eq!(img.get_pixel(0, 0).0, [255]);
    assert_eq!(img.get_pixel(31, 31).0, [255]);
    assert_eq!(img.get_pixel(32, 32).0, [0]);
    assert_eq!(img.get_pixel(39, 39).0, [0]);
}

#[test]
fn symbol_png_without_symbol() {
    assert_eq!(symbol_png(None), Err(ApiError::QrCodeGenerating));
}

#[test]
fn symbol_png_of_plain_symbol() {
    let width = 21usize;
    let mut dark = vec![false; width * width];
    dark[0] = true;
    let png = symbol_png(Some((width, dark))).unwrap();
    let img = image::load_from_memory(&png).unwrap().to_luma8();
    assert_eq!(img.width(), (21 + 8) * 8);
    assert_eq!(img.get_pixel(32, 32).0, [0]);
    assert_eq!(img.get_pixel(39, 39).0, [0]);
    assert_eq!(img.get_pixel(40, 32).0, [255]);
    assert_eq!(img.get_pixel(32, 40).0, [255]);
}

#[test]
fn qrcode_png_succeeds_for_extreme_ids() {
    for id in [0u128, 1, u128::MAX, GOOD] {
        let png = qrcode_png(id).unwrap();
        assert_eq!(&png[..8], &[0x89, 0x50, 0x4e, 0x47, 0x0d, 0x0a, 0x1a, 0x0a]);
    }
}
