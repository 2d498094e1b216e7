//! Image files and buffers: the bytes of a PNG, JPEG, WebP, BMP or TIFF
//! file, in the format its extension names, decoded to RGBA, and RGBA images
//! encoded as PNG files.

use vstd::prelude::*;

use crate::pixels::{RgbaBuffer, RgbaModel};

verus! {

/// Width, height and RGBA bytes that the image crate decodes from `bytes`, in
/// the format that the file extension `extension` names, turned upright as
/// the file's EXIF orientation asks; `None` when it cannot.
pub uninterp spec fn upright_rgba_of(bytes: Seq<u8>, extension: Seq<char>) -> Option<(u32, u32, Seq<u8>)>;

/// Width, height and RGBA bytes that the image crate decodes from `bytes`, in
/// the format that the file extension `extension` names, as stored (no EXIF
/// orientation applied); `None` when it cannot.
pub uninterp spec fn stored_rgba_of(bytes: Seq<u8>, extension: Seq<char>) -> Option<(u32, u32, Seq<u8>)>;

/// `image::ImageReader` set to `image::ImageFormat::from_extension`, then
/// `into_decoder`, `ImageDecoder::orientation`, `DynamicImage::from_decoder`,
/// `DynamicImage::apply_orientation` and `to_rgba8`: the image as
/// `upright_rgba_of` names it. The error's text is not stated.
#[verifier::external_body]
fn decode_upright(bytes: &[u8], extension: &str) -> (r: Result<(u32, u32, Vec<u8>), String>)
    ensures
        r is Ok <==> upright_rgba_of(bytes@, extension@) is Some,
        r matches Ok((w, h, data)) ==> upright_rgba_of(bytes@, extension@) == Some((w, h, data@)),
{
    let format = image::ImageFormat::from_extension(extension).ok_or("unsupported image format")?;
    let mut reader = image::ImageReader::new(std::io::Cursor::new(bytes));
    reader.set_format(format);
    let mut decoder = reader.into_decoder().map_err(|e| e.to_string())?;
    let orientation = image::ImageDecoder::orientation(&mut decoder).map_err(|e| e.to_string())?;
    let mut image = image::DynamicImage::from_decoder(decoder).map_err(|e| e.to_string())?;
    image.apply_orientation(orientation);
    let rgba = image.to_rgba8();
    Ok((rgba.width(), rgba.height(), rgba.into_raw()))
}

/// `image::ImageReader` set to `image::ImageFormat::from_extension`, then
/// `decode` and `to_rgba8`: the image as `stored_rgba_of` names it. The
/// error's text is not stated.
#[verifier::external_body]
fn decode_stored(bytes: &[u8], extension: &str) -> (r: Result<(u32, u32, Vec<u8>), String>)
    ensures
        r is Ok <==> stored_rgba_of(bytes@, extension@) is Some,
        r matches Ok((w, h, data)) ==> stored_rgba_of(bytes@, extension@) == Some((w, h, data@)),
{
    let format = image::ImageFormat::from_extension(extension).ok_or("unsupported image format")?;
    let mut reader = image::ImageReader::new(std::io::Cursor::new(bytes));
    reader.set_format(format);
    let rgba = reader.decode().map_err(|e| e.to_string())?.to_rgba8();
    Ok((rgba.width(), rgba.height(), rgba.into_raw()))
}

/// The buffer holding a decoded `(width, height, bytes)`, when the bytes are
/// four per pixel.
pub open spec fn buffer_of(d: (u32, u32, Seq<u8>)) -> Option<RgbaModel> {
    if d.2.len() == 4 * (d.0 * d.1) {
        Some(RgbaModel { width: d.0 as nat, height: d.1 as nat, bytes: d.2 })
    } else {
        None
    }
}

/// `r` is the result of loading `decoded`: the buffer when it decoded to four
/// bytes per pixel, an error otherwise.
pub open spec fn is_load_of(decoded: Option<(u32, u32, Seq<u8>)>, r: Result<RgbaBuffer, String>) -> bool {
    match decoded {
        Some(d) => match buffer_of(d) {
            Some(m) => r matches Ok(b) && b@ == m,
            None => r is Err,
        },
        None => r is Err,
    }
}

fn to_buffer(decoded: Result<(u32, u32, Vec<u8>), String>) -> (r: Result<RgbaBuffer, String>)
    ensures
        is_load_of(
            match decoded {
                Ok((w, h, data)) => Some((w, h, data@)),
                Err(_) => None,
            },
            r,
        ),
{
    match decoded {
        Ok((w, h, data)) => match RgbaBuffer::from_raw(w, h, data) {
            Some(b) => Ok(b),
            None => Err(String::from_str("decoded image has the wrong size")),
        },
        Err(message) => Err(message),
    }
}

/// Decodes an image file's bytes, in the format its extension names, and
/// turns it upright as its EXIF orientation asks; the error says why not.
pub fn load_upright_rgba(bytes: &[u8], extension: &str) -> (r: Result<RgbaBuffer, String>)
    ensures
        is_load_of(upright_rgba_of(bytes@, extension@), r),
{
    to_buffer(decode_upright(bytes, extension))
}

/// Decodes an image file's bytes, in the format its extension names, as
/// stored; the error says why not.
pub fn load_stored_rgba(bytes: &[u8], extension: &str) -> (r: Result<RgbaBuffer, String>)
    ensures
        is_load_of(stored_rgba_of(bytes@, extension@), r),
{
    to_buffer(decode_stored(bytes, extension))
}

/// The decoded form `(width, height, bytes)` of the image `m`.
pub open spec fn decoded_form(m: RgbaModel) -> (u32, u32, Seq<u8>) {
    (m.width as u32, m.height as u32, m.bytes)
}

/// The bytes of the PNG file that the image crate's PNG encoder, at its
/// default settings, writes for the RGBA image `width` by `height` with bytes
/// `rgba`; `None` when it cannot.
pub uninterp spec fn png_file_of(width: u32, height: u32, rgba: Seq<u8>) -> Option<Seq<u8>>;

/// `image::codecs::png::PngEncoder::new` on a byte vector, then
/// `ImageEncoder::write_image` with `ExtendedColorType::Rgba8`: the file that
/// `png_file_of` names. The encoder panics unless the bytes are four per
/// pixel. The error's text is not stated.
#[verifier::external_body]
fn encode_png(width: u32, height: u32, rgba: &Vec<u8>) -> (r: Result<Vec<u8>, String>)
    requires
        rgba@.len() == 4 * (width * height),
    ensures
        r is Ok <==> png_file_of(width, height, rgba@) is Some,
        r matches Ok(b) ==> png_file_of(width, height, rgba@) == Some(b@),
{
    let mut bytes = Vec::new();
    let encoder = image::codecs::png::PngEncoder::new(&mut bytes);
    image::ImageEncoder::write_image(encoder, rgba, width, height, image::ExtendedColorType::Rgba8)
        .map_err(|e| e.to_string())?;
    Ok(bytes)
}

/// The PNG file written for the image `m`.
pub open spec fn png_of(m: RgbaModel) -> Option<Seq<u8>> {
    png_file_of(m.width as u32, m.height as u32, m.bytes)
}

/// Encodes an image as a PNG file; the error says why not.
pub fn png_bytes(image: &RgbaBuffer) -> (r: Result<Vec<u8>, String>)
    ensures
        r is Ok <==> png_of(image@) is Some,
        r matches Ok(b) ==> png_of(image@) == Some(b@),
{
    image.check_well_formed();
    encode_png(image.width(), image.height(), image.as_raw())
}

} // verus!
