//! Software rendering into RGBA frames and JPEG encoding of frames.
use vstd::prelude::*;

use crate::frame::{solid_pixels, FrameError, FrameSize, RgbaFrame};
use crate::protocol::is_framed_jpeg;

verus! {

/// Why rendering failed.
#[derive(Debug)]
pub enum RenderError {
    Image(image::ImageError),
    Frame(FrameError),
    InvalidFont,
}

impl From<image::ImageError> for RenderError {
    fn from(error: image::ImageError) -> (wrapped: RenderError) {
        RenderError::Image(error)
    }
}

impl vstd::std_specs::convert::FromSpecImpl<image::ImageError> for RenderError {
    open spec fn obeys_from_spec() -> bool {
        true
    }

    open spec fn from_spec(error: image::ImageError) -> RenderError {
        RenderError::Image(error)
    }
}

impl From<FrameError> for RenderError {
    fn from(error: FrameError) -> (wrapped: RenderError) {
        RenderError::Frame(error)
    }
}

impl vstd::std_specs::convert::FromSpecImpl<FrameError> for RenderError {
    open spec fn obeys_from_spec() -> bool {
        true
    }

    open spec fn from_spec(error: FrameError) -> RenderError {
        RenderError::Frame(error)
    }
}

/// The RGB bytes of an RGBA buffer: the first three bytes of every whole
/// four-byte pixel, in order; a trailing partial pixel is dropped.
pub open spec fn rgb_of(rgba: Seq<u8>) -> Seq<u8> {
    Seq::new((rgba.len() / 4 * 3) as nat, |i: int| rgba[(i / 3) * 4 + i % 3])
}

proof fn lemma_pixel_index(j: int, t: int)
    requires
        0 <= j,
        0 <= t < 3,
    ensures
        (3 * j + t) / 3 == j,
        (3 * j + t) % 3 == t,
{
}

/// Drops the alpha byte of every pixel.
pub fn rgba_to_rgb(rgba: &[u8]) -> (rgb: Vec<u8>)
    ensures
        rgb@ == rgb_of(rgba@),
{
    let n = rgba.len();
    let pixels = n / 4;
    let mut rgb: Vec<u8> = Vec::new();
    let mut j: usize = 0;
    while j < pixels
        invariant
            j <= pixels,
            pixels == n / 4,
            n == rgba@.len(),
            rgb@.len() == 3 * j,
            forall|k: int| 0 <= k < rgb@.len() ==> #[trigger] rgb@[k] == rgba@[(k / 3) * 4 + k % 3],
        decreases pixels - j,
    {
        let base = 4 * j;
        rgb.push(rgba[base]);
        rgb.push(rgba[base + 1]);
        rgb.push(rgba[base + 2]);
        proof {
            lemma_pixel_index(j as int, 0);
            lemma_pixel_index(j as int, 1);
            lemma_pixel_index(j as int, 2);
        }
        j = j + 1;
    }
    assert(rgb@ =~= rgb_of(rgba@));
    rgb
}

/// Sizes the JPEG encoder accepts: both sides from 1 to 65535 pixels.
pub open spec fn jpeg_size_ok(width: u32, height: u32) -> bool {
    1 <= width <= 65535 && 1 <= height <= 65535
}

/// The baseline JPEG stream that the `image` crate's encoder makes of an
/// RGB buffer of the given size at the given quality.
pub uninterp spec fn jpeg_encoding(rgb: Seq<u8>, width: u32, height: u32, quality: u8) -> Seq<u8>;

/// Encodes an RGB buffer with `image::codecs::jpeg::JpegEncoder` into
/// memory. Claimed of it: it fails exactly on sizes outside 1..=65535 (the
/// encoder's size check; writing into a `Vec` does not fail), and the
/// stream it writes opens with the start-of-image marker and closes with
/// the end-of-image marker. The stream itself is named, not described.
#[verifier::external_body]
fn encode_rgb_jpeg(rgb: &[u8], width: u32, height: u32, quality: u8) -> (encoded: Result<
    Vec<u8>,
    image::ImageError,
>)
    requires
        rgb@.len() == width * height * 3,
    ensures
        encoded is Ok <==> jpeg_size_ok(width, height),
        encoded matches Ok(bytes) ==> bytes@ == jpeg_encoding(rgb@, width, height, quality)
            && is_framed_jpeg(bytes@),
{
    let mut output = std::io::Cursor::new(Vec::new());
    let mut encoder = image::codecs::jpeg::JpegEncoder::new_with_quality(&mut output, quality);
    encoder.encode(rgb, width, height, image::ColorType::Rgb8.into())?;
    Ok(output.into_inner())
}

/// Encodes a frame as a JPEG image (alpha is dropped). Fails, with the
/// encoder's error, exactly when a side of the frame is 0 or above 65535.
pub fn encode_jpeg(frame: &RgbaFrame, quality: u8) -> (result: Result<Vec<u8>, RenderError>)
    ensures
        result is Ok <==> jpeg_size_ok(frame.spec_size().width, frame.spec_size().height),
        match result {
            Ok(bytes) => {
                &&& bytes@ == jpeg_encoding(
                    rgb_of(frame.spec_pixels()),
                    frame.spec_size().width,
                    frame.spec_size().height,
                    quality,
                )
                &&& is_framed_jpeg(bytes@)
            },
            Err(error) => error is Image,
        },
{
    let size = frame.size();
    let rgb = rgba_to_rgb(frame.pixels());
    proof {
        use_type_invariant(frame);
        frame.lemma_wf_len();
    }
    assert((size.width * size.height * 4) / 4 * 3 == size.width * size.height * 3) by (nonlinear_arith);
    match encode_rgb_jpeg(rgb.as_slice(), size.width, size.height, quality) {
        Ok(bytes) => Ok(bytes),
        Err(error) => Err(RenderError::from(error)),
    }
}

/// Where an image of length `inner` starts when centred in `outer`: half
/// the room left over, rounded down, or 0 when there is none.
pub fn centered_offset(outer: u32, inner: u32) -> (offset: u32)
    ensures
        offset == (if inner < outer { (outer - inner) / 2 } else { 0 }),
{
    outer.saturating_sub(inner) / 2
}

/// The frame size of the K-MEX HL VMAX panel, 462 x 1920.
pub open spec fn kmex_frame_size() -> FrameSize {
    FrameSize { width: 462, height: 1920 }
}

/// Scales an RGBA image to cover a target size with
/// `image::DynamicImage::resize_to_fill` (Lanczos-3) and converts the
/// result to RGBA bytes. Claimed of it: the image it reports has exactly
/// the target size (the crate scales to at least that size and crops the
/// overflow evenly), and its bytes are four per pixel. An image that already
/// has the target size comes back unchanged: the scale factor is exactly 1,
/// `imageops::resize` copies an image whose size it keeps instead of
/// filtering it, and the crop then takes the whole image. Other pixel values
/// are not claimed: the filter's floating-point arithmetic (`f32::sin`) is
/// not guaranteed to give the same values on every machine.
#[verifier::external_body]
fn resize_rgba_to_fill(
    pixels: &[u8],
    width: u32,
    height: u32,
    target_width: u32,
    target_height: u32,
) -> (resized: (u32, u32, Vec<u8>))
    requires
        pixels@.len() == width * height * 4,
        width > 0,
        height > 0,
    ensures
        resized.0 == target_width,
        resized.1 == target_height,
        resized.2@.len() == target_width * target_height * 4,
        width == target_width && height == target_height ==> resized.2@ == pixels@,
{
    let source = image::RgbaImage::from_raw(width, height, pixels.to_vec()).unwrap();
    let resized = image::DynamicImage::ImageRgba8(source).resize_to_fill(
        target_width,
        target_height,
        image::imageops::FilterType::Lanczos3,
    ).to_rgba8();
    (resized.width(), resized.height(), resized.into_raw())
}

/// A software canvas of a given frame size.
#[derive(Debug)]
pub struct Renderer {
    size: FrameSize,
    canvas: RgbaFrame,
}

impl Renderer {
    #[verifier::type_invariant]
    spec fn inv(&self) -> bool {
        &&& self.canvas.wf()
        &&& self.size.rgba_len() <= usize::MAX
    }

    /// The size of the frames the renderer makes.
    pub closed spec fn spec_size(&self) -> FrameSize {
        self.size
    }

    /// What has been drawn so far.
    pub closed spec fn spec_canvas(&self) -> RgbaFrame {
        self.canvas
    }

    /// A renderer whose canvas is `size` and opaque black.
    pub fn new(size: FrameSize) -> (renderer: Renderer)
        requires
            size.rgba_len() <= usize::MAX,
        ensures
            renderer.spec_size() == size,
            renderer.spec_canvas().spec_size() == size,
            renderer.spec_canvas().spec_pixels() == solid_pixels(size.rgba_len(), [0u8, 0u8, 0u8, 255u8]),
    {
        Renderer { size, canvas: RgbaFrame::solid(size, [0, 0, 0, 255]) }
    }

    /// A renderer for the K-MEX panel.
    pub fn kmex() -> (renderer: Renderer)
        ensures
            renderer.spec_size() == kmex_frame_size(),
            renderer.spec_canvas().spec_size() == kmex_frame_size(),
            renderer.spec_canvas().spec_pixels() == solid_pixels(
                kmex_frame_size().rgba_len(),
                [0u8, 0u8, 0u8, 255u8],
            ),
    {
        Renderer::new(FrameSize::new(462, 1920))
    }

    /// Paints every pixel of the canvas `color`.
    pub fn clear(&mut self, color: [u8; 4])
        ensures
            final(self).spec_size() == old(self).spec_size(),
            final(self).spec_canvas().spec_size() == old(self).spec_canvas().spec_size(),
            final(self).spec_canvas().spec_pixels() == solid_pixels(
                old(self).spec_canvas().spec_size().rgba_len(),
                color,
            ),
    {
        proof {
            use_type_invariant(&*self);
            self.canvas.lemma_wf_len();
        }
        let canvas_size = self.canvas.size();
        let byte_count = self.canvas.pixels().len();
        assert(canvas_size.rgba_len() == byte_count);
        self.canvas = RgbaFrame::solid(canvas_size, color);
    }

    /// Replaces the canvas by `image` scaled to cover the renderer's size,
    /// cropped evenly; the canvas then has the renderer's size.
    pub fn set_background(&mut self, image: &RgbaFrame)
        requires
            image.spec_size().width > 0,
            image.spec_size().height > 0,
        ensures
            final(self).spec_size() == old(self).spec_size(),
            final(self).spec_canvas().spec_size() == old(self).spec_size(),
            final(self).spec_canvas().spec_pixels().len() == old(self).spec_size().rgba_len(),
            image.spec_size() == old(self).spec_size() ==> final(self).spec_canvas().spec_pixels()
                == image.spec_pixels(),
    {
        proof {
            use_type_invariant(&*self);
            use_type_invariant(image);
            image.lemma_wf_len();
        }
        let source = image.size();
        let (width, height, pixels) = resize_rgba_to_fill(
            image.pixels(),
            source.width,
            source.height,
            self.size.width,
            self.size.height,
        );
        self.canvas = RgbaFrame::from_checked(FrameSize::new(width, height), pixels);
    }

    /// The canvas as a frame of the renderer's size; fails when the canvas
    /// does not hold `width * height * 4` bytes of that size.
    pub fn finish(&self) -> (result: Result<RgbaFrame, RenderError>)
        ensures
            result is Ok <==> self.spec_canvas().spec_pixels().len() == self.spec_size().rgba_len(),
            match result {
                Ok(frame) => {
                    &&& frame.wf()
                    &&& frame.spec_size() == self.spec_size()
                    &&& frame.spec_pixels() == self.spec_canvas().spec_pixels()
                },
                Err(error) => error == RenderError::Frame(
                    FrameError::InvalidBufferSize {
                        expected: self.spec_size().rgba_len() as usize,
                        actual: self.spec_canvas().spec_pixels().len() as usize,
                    },
                ),
            },
    {
        proof {
            use_type_invariant(self);
        }
        let pixels = self.canvas.clone().into_pixels();
        match RgbaFrame::new(self.size, pixels) {
            Ok(frame) => Ok(frame),
            Err(error) => Err(RenderError::from(error)),
        }
    }

    /// What has been drawn so far.
    pub fn canvas(&self) -> (canvas: &RgbaFrame)
        ensures
            *canvas == self.spec_canvas(),
            canvas.wf(),
    {
        proof {
            use_type_invariant(self);
        }
        &self.canvas
    }
}

} // verus!
