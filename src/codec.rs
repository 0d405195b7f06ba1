use vstd::prelude::*;
use crate::calibration::{Calibration, Settings};
use crate::color::{Rgb, Rgba};
use crate::raster::{Raster, RgbaRaster};
use crate::transform::{overlay_seq, transform};

verus! {

#[verifier::external_type_specification]
#[verifier::external_body]
pub struct ExImageError(image::ImageError);

/// Why an image could not be read or written.
#[derive(Clone, Copy, Debug, PartialEq, Eq, Structural)]
pub enum CodecError {
    Decode,
    Encode,
}

/// The image that a file's bytes hold, as width, height and RGB pixels row
/// by row; `None` when the bytes are not an image that can be decoded.
pub uninterp spec fn decoded_of(bytes: Seq<u8>) -> Option<(u32, u32, Seq<Rgb>)>;

/// The PNG file for an RGBA grid of the given size, pixels row by row;
/// `None` when it cannot be encoded.
pub uninterp spec fn png_of(width: u32, height: u32, pixels: Seq<Rgba>) -> Option<Seq<u8>>;

/// Relies on `image::load_from_memory` and `DynamicImage::to_rgb8`: an image
/// in any supported format, as `width * height` RGB pixels listed row by row.
/// Decoding depends on the bytes alone.
#[verifier::external_body]
fn decode_rgb(bytes: &[u8]) -> (r: Result<Raster, image::ImageError>)
    ensures
        r is Ok <==> decoded_of(bytes@) is Some,
        r matches Ok(g) ==> g.wf() && decoded_of(bytes@) == Some((g.width, g.height, g.pixels@)),
{
    let img = image::load_from_memory(bytes)?.to_rgb8();
    let (width, height) = img.dimensions();
    let pixels: Vec<Rgb> = img.pixels().map(|p| Rgb { r: p.0[0], g: p.0[1], b: p.0[2] }).collect();
    Ok(Raster { width, height, pixels })
}

/// Relies on `image::RgbaImage::from_raw` and `ImageBuffer::write_to`: the
/// grid, row by row, as a PNG file, with fixed encoder settings. `from_raw`
/// accepts a buffer of exactly four bytes per pixel.
#[verifier::external_body]
fn encode_rgba_png(out: &RgbaRaster) -> (r: Result<Vec<u8>, image::ImageError>)
    requires
        out.wf(),
    ensures
        r is Ok <==> png_of(out.width, out.height, out.pixels@) is Some,
        r matches Ok(b) ==> png_of(out.width, out.height, out.pixels@) == Some(b@),
{
    let raw: Vec<u8> = out.pixels.iter().flat_map(|p| [p.r, p.g, p.b, p.a]).collect();
    let grid = image::RgbaImage::from_raw(out.width, out.height, raw).unwrap();
    let mut bytes: Vec<u8> = Vec::new();
    grid.write_to(&mut std::io::Cursor::new(&mut bytes), image::ImageFormat::Png)?;
    Ok(bytes)
}

/// Decodes an image file held in memory.
pub fn decode_image(bytes: &[u8]) -> (r: Result<Raster, CodecError>)
    ensures
        r is Ok <==> decoded_of(bytes@) is Some,
        r matches Ok(g) ==> g.wf() && decoded_of(bytes@) == Some((g.width, g.height, g.pixels@)),
        r matches Err(e) ==> e == CodecError::Decode,
{
    match decode_rgb(bytes) {
        Ok(g) => Ok(g),
        Err(_) => Err(CodecError::Decode),
    }
}

/// Encodes an overlay as a PNG file.
pub fn encode_png(out: &RgbaRaster) -> (r: Result<Vec<u8>, CodecError>)
    requires
        out.wf(),
    ensures
        r is Ok <==> png_of(out.width, out.height, out.pixels@) is Some,
        r matches Ok(b) ==> png_of(out.width, out.height, out.pixels@) == Some(b@),
        r matches Err(e) ==> e == CodecError::Encode,
{
    match encode_rgba_png(out) {
        Ok(b) => Ok(b),
        Err(_) => Err(CodecError::Encode),
    }
}

/// Decodes an image, computes its overlay and encodes that as PNG. Bytes that
/// do not decode give `Decode`; an overlay that does not encode gives `Encode`.
pub fn overlay_png(bytes: &[u8], calib: &Calibration, settings: &Settings) -> (r: Result<Vec<u8>, CodecError>)
    requires
        calib.values.wf(),
        settings.saturation > 0,
    ensures
        decoded_of(bytes@) is None ==> r == Err::<Vec<u8>, CodecError>(CodecError::Decode),
        decoded_of(bytes@) matches Some((w, h, p)) ==> {
            &&& (r is Ok <==> png_of(w, h, overlay_seq(p, *calib, *settings)) is Some)
            &&& (r matches Ok(b) ==> png_of(w, h, overlay_seq(p, *calib, *settings)) == Some(b@))
            &&& (r matches Err(e) ==> e == CodecError::Encode)
        },
{
    let img = decode_image(bytes)?;
    let out = transform(&img, calib, settings);
    encode_png(&out)
}

} // verus!
