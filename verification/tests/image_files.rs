use image::{ImageEncoder, RgbaImage};
use wonderdraft_asset_studio::image_files::{load_stored_rgba, load_upright_rgba, png_bytes};
use wonderdraft_asset_studio::pixels::RgbaBuffer;

const RED: [u8; 4] = [255, 0, 0, 255];
const BLUE: [u8; 4] = [0, 0, 255, 128];

/// A two by one PNG, red then half-transparent blue, with an EXIF block that
/// asks for the given orientation when there is one.
fn sample_png(orientation: Option<u16>) -> Vec<u8> {
    let mut image = RgbaImage::new(2, 1);
    image.put_pixel(0, 0, image::Rgba(RED));
    image.put_pixel(1, 0, image::Rgba(BLUE));
    let mut bytes = Vec::new();
    let mut encoder = image::codecs::png::PngEncoder::new(&mut bytes);
    if let Some(value) = orientation {
        let [low, high] = value.to_le_bytes();
        let exif = vec![
            0x49, 0x49, 42, 0, 8, 0, 0, 0, // little-endian header, first directory at 8
            1, 0, // one entry
            0x12, 0x01, 3, 0, 1, 0, 0, 0, low, high, 0, 0, // orientation, one short
            0, 0, 0, 0, // no further directory
        ];
        encoder.set_exif_metadata(exif).unwrap();
    }
    encoder
        .write_image(image.as_raw(), 2, 1, image::ExtendedColorType::Rgba8)
        .unwrap();
    bytes
}

#[test]
fn png_without_orientation_loads_as_stored() {
    let bytes = sample_png(None);
    for loaded in [load_upright_rgba(&bytes, "png"), load_stored_rgba(&bytes, "png")] {
        let image = loaded.unwrap();
        assert_eq!(image.dimensions(), (2, 1));
        assert_eq!(image.get_pixel(0, 0), RED);
        assert_eq!(image.get_pixel(1, 0), BLUE);
    }
}

#[test]
fn upright_load_applies_exif_rotation() {
    // Orientation 6: the stored image must be turned a quarter clockwise.
    let bytes = sample_png(Some(6));
    let upright = load_upright_rgba(&bytes, "png").unwrap();
    assert_eq!(upright.dimensions(), (1, 2));
    assert_eq!(upright.get_pixel(0, 0), RED);
    assert_eq!(upright.get_pixel(0, 1), BLUE);

    let stored = load_stored_rgba(&bytes, "png").unwrap();
    assert_eq!(stored.dimensions(), (2, 1));
    assert_eq!(stored.get_pixel(0, 0), RED);
    assert_eq!(stored.get_pixel(1, 0), BLUE);
}

#[test]
fn extension_case_does_not_matter() {
    let bytes = sample_png(None);
    assert!(load_upright_rgba(&bytes, "PNG").is_ok());
    assert!(load_stored_rgba(&bytes, "Png").is_ok());
}

#[test]
fn unknown_or_missing_extension_is_refused() {
    let bytes = sample_png(None);
    assert!(load_upright_rgba(&bytes, "txt").is_err());
    assert!(load_stored_rgba(&bytes, "").is_err());
}

#[test]
fn bytes_that_are_no_image_are_refused() {
    let bytes = b"not an image at all".to_vec();
    assert!(load_upright_rgba(&bytes, "png").is_err());
    assert!(load_stored_rgba(&bytes, "png").is_err());
    assert!(load_upright_rgba(&[], "jpg").is_err());
}

#[test]
fn png_under_the_wrong_extension_is_refused() {
    let bytes = sample_png(None);
    assert!(load_stored_rgba(&bytes, "bmp").is_err());
}

#[test]
fn png_file_reads_back_as_the_image_written() {
    let mut image = RgbaBuffer::new(3, 2);
    image.put_pixel(0, 0, RED);
    image.put_pixel(2, 1, BLUE);
    image.put_pixel(1, 1, [1, 2, 3, 0]);
    let bytes = png_bytes(&image).unwrap();
    assert_eq!(&bytes[..8], b"\x89PNG\r\n\x1a\n");
    let back = load_stored_rgba(&bytes, "png").unwrap();
    assert_eq!(back.dimensions(), (3, 2));
    assert_eq!(back.as_raw(), image.as_raw());
}

#[test]
fn png_file_is_what_the_png_encoder_writes() {
    let image = RgbaBuffer::from_pixel(2, 1, BLUE);
    let mut expected = Vec::new();
    image::codecs::png::PngEncoder::new(&mut expected)
        .write_image(image.as_raw(), 2, 1, image::ExtendedColorType::Rgba8)
        .unwrap();
    assert_eq!(png_bytes(&image).unwrap(), expected);
}
