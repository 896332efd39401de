//! Pictures as plain pixels, and the work that the `image` and `mozjpeg`
//! crates do on them.
//!
//! The functions that call into one of the two crates are not proved: each
//! of their contracts says no more than the crate's source shows.

use vstd::prelude::*;

verus! {

/// A decoded picture: three bytes per pixel (red, green, blue), row by row
/// from the top.
#[derive(Debug, PartialEq, Eq)]
pub struct Raster {
    pub width: u32,
    pub height: u32,
    pub pixels: Vec<u8>,
}

/// The mathematical content of a [`Raster`].
pub struct RasterView {
    pub width: nat,
    pub height: nat,
    pub pixels: Seq<u8>,
}

impl View for Raster {
    type V = RasterView;

    open spec fn view(&self) -> RasterView {
        RasterView { width: self.width as nat, height: self.height as nat, pixels: self.pixels@ }
    }
}

impl Raster {
    /// The picture holds three bytes for each of its pixels.
    pub open spec fn wf(&self) -> bool {
        self.pixels@.len() == 3 * self.width * self.height
    }
}

/// How a picture is sampled when it is scaled.
#[derive(Clone, Copy, Debug, PartialEq, Eq, Structural)]
pub enum Filter {
    CatmullRom,
    Lanczos3,
}

/// How the scans of a progressive JPEG are laid out.
#[derive(Clone, Copy, Debug, PartialEq, Eq, Structural)]
pub enum ScanMode {
    AllComponentsTogether,
    ScanPerComponent,
    Auto,
}

/// Whether the bytes start as a JPEG file does.
pub open spec fn has_jpeg_signature(bytes: Seq<u8>) -> bool {
    bytes.len() >= 3 && bytes[0] == 0xffu8 && bytes[1] == 0xd8u8 && bytes[2] == 0xffu8
}

/// The picture that `image::load_from_memory` decodes from the bytes, turned
/// into RGB; `None` where the bytes are no picture that it can read.
pub uninterp spec fn decoded_image(bytes: Seq<u8>) -> Option<RasterView>;

/// The picture that `image::DynamicImage::resize` makes of a picture for the
/// given bounds.
pub uninterp spec fn resized_image(
    image: RasterView,
    width: u32,
    height: u32,
    filter: Filter,
) -> RasterView;

/// The JPEG file that `image`'s encoder writes for a picture; `None` where it
/// refuses the picture.
pub uninterp spec fn jpeg_encoding(image: RasterView) -> Option<Seq<u8>>;

/// The JPEG file that `mozjpeg` writes for a picture with the given
/// settings; `None` where writing fails.
pub uninterp spec fn mozjpeg_encoding(
    image: RasterView,
    scan_mode: ScanMode,
    optimize_scans: bool,
    scans_in_trellis: bool,
) -> Option<Seq<u8>>;

/// Whether the bytes start as a JPEG file does.
pub fn announces_jpeg(bytes: &[u8]) -> (jpeg: bool)
    ensures
        jpeg == has_jpeg_signature(bytes@),
{
    bytes.len() >= 3 && bytes[0] == 0xff && bytes[1] == 0xd8 && bytes[2] == 0xff
}

/// `image::load_from_memory`, with the picture handed out as RGB pixels.
#[verifier::external_body]
pub(crate) fn decode(bytes: &[u8]) -> (image: Option<Raster>)
    ensures
        match decoded_image(bytes@) {
            Some(expected) => image is Some && image->Some_0@ == expected,
            None => image is None,
        },
        image is Some ==> image->Some_0.wf(),
{
    let decoded = image::load_from_memory(bytes).ok()?.into_rgb8();
    Some(Raster { width: decoded.width(), height: decoded.height(), pixels: decoded.into_raw() })
}

/// `image::DynamicImage::resize`: the picture scaled to the largest size that
/// fits the bounds and keeps the aspect ratio. No side of the result is
/// shorter than one pixel, so a bound of zero is the one bound that the
/// result does not keep.
#[verifier::external_body]
pub(crate) fn resize(image: &Raster, width: u32, height: u32, filter: Filter) -> (scaled: Raster)
    requires
        image.wf(),
        image.width >= 1,
        image.height >= 1,
    ensures
        scaled@ == resized_image(image@, width, height, filter),
        scaled.wf(),
        1 <= scaled.width,
        1 <= scaled.height,
        width >= 1 ==> scaled.width <= width,
        height >= 1 ==> scaled.height <= height,
{
    let filter = match filter {
        Filter::CatmullRom => image::imageops::FilterType::CatmullRom,
        Filter::Lanczos3 => image::imageops::FilterType::Lanczos3,
    };
    let source = image::RgbImage::from_raw(image.width, image.height, image.pixels.clone());
    let scaled = image::DynamicImage::ImageRgb8(source.unwrap()).resize(width, height, filter);
    let scaled = scaled.into_rgb8();
    Raster { width: scaled.width(), height: scaled.height(), pixels: scaled.into_raw() }
}

/// `image::codecs::jpeg::JpegEncoder::encode`, at the encoder's own quality.
/// The encoder writes into memory and refuses nothing but a side that does
/// not fit the 16 bits of a JPEG frame header.
#[verifier::external_body]
pub(crate) fn encode_jpeg(image: &Raster) -> (file: Option<Vec<u8>>)
    requires
        image.wf(),
    ensures
        match jpeg_encoding(image@) {
            Some(expected) => file is Some && file->Some_0@ == expected,
            None => file is None,
        },
        1 <= image.width <= 65535 && 1 <= image.height <= 65535 ==> file is Some,
{
    let mut file = Vec::new();
    let mut encoder = image::codecs::jpeg::JpegEncoder::new(&mut file);
    encoder.encode(&image.pixels, image.width, image.height, image::ColorType::Rgb8).ok()?;
    Some(file)
}

/// `mozjpeg::Compress`, from its settings to the finished file. The library
/// under it stops the program on a picture without pixels or with a side of
/// more than 65500 pixels, so those are kept away from it.
#[verifier::external_body]
pub(crate) fn encode_mozjpeg(
    image: &Raster,
    scan_mode: ScanMode,
    optimize_scans: bool,
    scans_in_trellis: bool,
) -> (file: Option<Vec<u8>>)
    requires
        image.wf(),
        1 <= image.width <= 65500,
        1 <= image.height <= 65500,
    ensures
        match mozjpeg_encoding(image@, scan_mode, optimize_scans, scans_in_trellis) {
            Some(expected) => file is Some && file->Some_0@ == expected,
            None => file is None,
        },
{
    let mut encoder = mozjpeg::Compress::new(mozjpeg::ColorSpace::JCS_RGB);
    encoder.set_scan_optimization_mode(
        match scan_mode {
            ScanMode::AllComponentsTogether => mozjpeg::ScanMode::AllComponentsTogether,
            ScanMode::ScanPerComponent => mozjpeg::ScanMode::ScanPerComponent,
            ScanMode::Auto => mozjpeg::ScanMode::Auto,
        },
    );
    encoder.set_size(image.width as usize, image.height as usize);
    encoder.set_optimize_scans(optimize_scans);
    encoder.set_use_scans_in_trellis(scans_in_trellis);
    let mut started = encoder.start_compress(Vec::new()).ok()?;
    started.write_scanlines(&image.pixels).ok()?;
    started.finish().ok()
}

} // verus!
