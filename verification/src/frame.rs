//! Frame sizes, raw RGBA frames and the capabilities a display reports.
use vstd::prelude::*;

verus! {

/// Width and height of a frame, in pixels.
#[derive(Debug, Clone, Copy, PartialEq, Eq, Structural)]
pub struct FrameSize {
    pub width: u32,
    pub height: u32,
}

impl FrameSize {
    pub fn new(width: u32, height: u32) -> (size: FrameSize)
        ensures
            size.width == width,
            size.height == height,
    {
        FrameSize { width, height }
    }

    /// Number of bytes of an RGBA buffer of this size.
    pub open spec fn rgba_len(self) -> int {
        self.width * self.height * 4
    }
}

/// Pixel encodings that a display may accept.
#[derive(Debug, Clone, Copy, PartialEq, Eq, Structural)]
pub enum PixelFormat {
    Rgba8888,
    Rgb888,
    Rgb565,
    Jpeg,
    Png,
}

/// How a display panel is mounted.
#[derive(Debug, Clone, Copy, PartialEq, Eq, Structural)]
pub enum Orientation {
    Landscape,
    Portrait,
    LandscapeFlipped,
    PortraitFlipped,
}

/// What a display reports about itself.
///
/// The frame-rate limits are single-precision numbers; they are carried
/// here as their IEEE-754 bit patterns, which keeps every value exact.
#[derive(Debug)]
pub struct DeviceCapabilities {
    pub model: String,
    pub native_size: FrameSize,
    pub orientation: Orientation,
    pub accepted_formats: Vec<PixelFormat>,
    pub preferred_format: PixelFormat,
    pub min_fps_bits: u32,
    pub max_fps_bits: u32,
    pub recommended_fps_bits: u32,
    pub requires_continuous_frames: bool,
    pub supports_brightness: bool,
}

/// An RGBA8888 frame whose buffer always holds exactly
/// `width * height * 4` bytes.
#[derive(Debug)]
pub struct RgbaFrame {
    size: FrameSize,
    pixels: Vec<u8>,
}

/// Why a buffer cannot become a frame.
#[derive(Debug, Clone, Copy, PartialEq, Eq, Structural)]
pub enum FrameError {
    InvalidBufferSize { expected: usize, actual: usize },
}

/// `count` bytes repeating the four bytes of `color`.
pub open spec fn solid_pixels(count: int, color: [u8; 4]) -> Seq<u8> {
    Seq::new(count as nat, |i: int| color@[i % 4])
}

impl RgbaFrame {
    /// The frame's size.
    pub closed spec fn spec_size(&self) -> FrameSize {
        self.size
    }

    /// The frame's bytes.
    pub closed spec fn spec_pixels(&self) -> Seq<u8> {
        self.pixels@
    }

    /// Every frame's buffer matches its size.
    #[verifier::type_invariant]
    pub closed spec fn wf(&self) -> bool {
        self.pixels@.len() == self.size.rgba_len()
    }

    /// A well-formed frame holds `width * height * 4` bytes.
    pub proof fn lemma_wf_len(&self)
        requires
            self.wf(),
        ensures
            self.spec_pixels().len() == self.spec_size().rgba_len(),
    {
    }

    /// Builds a frame from a buffer, which must hold exactly
    /// `width * height * 4` bytes.
    pub fn new(size: FrameSize, pixels: Vec<u8>) -> (res: Result<RgbaFrame, FrameError>)
        requires
            size.rgba_len() <= usize::MAX,
        ensures
            match res {
                Ok(frame) => {
                    &&& pixels@.len() == size.rgba_len()
                    &&& frame.wf()
                    &&& frame.spec_size() == size
                    &&& frame.spec_pixels() == pixels@
                },
                Err(FrameError::InvalidBufferSize { expected, actual }) => {
                    &&& pixels@.len() != size.rgba_len()
                    &&& expected == size.rgba_len()
                    &&& actual == pixels@.len()
                },
            },
    {
        assert(size.width * size.height <= size.rgba_len()) by (nonlinear_arith)
            requires
                size.rgba_len() == size.width * size.height * 4,
        ;
        let area = size.width as usize * size.height as usize;
        let expected = area * 4;
        if pixels.len() != expected {
            return Err(FrameError::InvalidBufferSize { expected, actual: pixels.len() });
        }
        Ok(RgbaFrame { size, pixels })
    }

    /// A frame made of a buffer already known to fit its size.
    pub(crate) fn from_checked(size: FrameSize, pixels: Vec<u8>) -> (frame: RgbaFrame)
        requires
            pixels@.len() == size.rgba_len(),
        ensures
            frame.wf(),
            frame.spec_size() == size,
            frame.spec_pixels() == pixels@,
    {
        RgbaFrame { size, pixels }
    }

    /// A frame whose every pixel is `color`.
    pub(crate) fn solid(size: FrameSize, color: [u8; 4]) -> (frame: RgbaFrame)
        requires
            size.rgba_len() <= usize::MAX,
        ensures
            frame.wf(),
            frame.spec_size() == size,
            frame.spec_pixels() == solid_pixels(size.rgba_len(), color),
    {
        assert(size.width * size.height <= size.rgba_len()) by (nonlinear_arith)
            requires
                size.rgba_len() == size.width * size.height * 4,
        ;
        let total = size.width as usize * size.height as usize * 4;
        let mut pixels: Vec<u8> = Vec::new();
        let mut i: usize = 0;
        while i < total
            invariant
                i <= total,
                total == size.rgba_len(),
                pixels@.len() == i,
                forall|k: int| 0 <= k < i ==> #[trigger] pixels@[k] == color@[k % 4],
            decreases total - i,
        {
            pixels.push(color[i % 4]);
            i = i + 1;
        }
        assert(pixels@ =~= solid_pixels(size.rgba_len(), color));
        RgbaFrame { size, pixels }
    }

    /// The frame's size.
    pub fn size(&self) -> (size: FrameSize)
        ensures
            size == self.spec_size(),
    {
        self.size
    }

    /// The frame's bytes, four per pixel, row by row.
    pub fn pixels(&self) -> (pixels: &[u8])
        ensures
            pixels@ == self.spec_pixels(),
    {
        self.pixels.as_slice()
    }

    /// Gives up the frame and hands back its buffer.
    pub fn into_pixels(self) -> (pixels: Vec<u8>)
        ensures
            pixels@ == self.spec_pixels(),
    {
        self.pixels
    }

}

impl Clone for RgbaFrame {
    /// A frame with the same size and bytes.
    fn clone(&self) -> (copy: RgbaFrame)
        ensures
            copy.spec_size() == self.spec_size(),
            copy.spec_pixels() == self.spec_pixels(),
            copy.wf() == self.wf(),
    {
        proof {
            use_type_invariant(self);
        }
        let pixels = self.pixels.clone();
        assert(pixels@ =~= self.pixels@);
        RgbaFrame { size: self.size, pixels }
    }
}

} // verus!
