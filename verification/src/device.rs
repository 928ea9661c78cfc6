//! Display devices, and a simulated display that records what it is sent.
use vstd::prelude::*;

use crate::display::{FPS_60_BITS, FPS_TENTH_BITS};
use crate::frame::{DeviceCapabilities, FrameSize, Orientation, PixelFormat, RgbaFrame};
use crate::protocol::{FPS_20_BITS, FPS_HALF_BITS};

verus! {

/// A display that frames can be sent to.
pub trait DisplayDevice {
    type Error;

    /// Whether the device can take one more frame; every device can unless
    /// it says otherwise.
    open spec fn ready_for_frame(&self) -> bool {
        true
    }

    /// What the device reports about itself.
    fn capabilities(&self) -> &DeviceCapabilities;

    /// Sends a raw RGBA frame.
    fn send_rgba(&mut self, frame: &RgbaFrame) -> Result<(), Self::Error>
        requires
            old(self).ready_for_frame(),
    ;

    /// Sends an encoded frame.
    fn send_encoded(&mut self, format: PixelFormat, bytes: &[u8]) -> Result<(), Self::Error>;

    /// Sets the backlight, in percent; devices without brightness control
    /// accept and ignore it.
    fn set_brightness(&mut self, percent: u8) -> (result: Result<(), Self::Error>)
        default_ensures
            result is Ok,
    {
        Ok(())
    }
}

/// Why the simulated display refused a request.
#[derive(Debug, Clone, Copy, PartialEq, Eq, Structural)]
pub enum FakeDisplayError {
    InvalidFrameSize { expected: FrameSize, actual: FrameSize },
    EncodedFormatUnsupported,
    InvalidBrightness(u8),
}

/// A simulated display: it keeps the last frame it accepted, counts the
/// frames, and remembers its brightness.
#[derive(Debug)]
pub struct FakeDisplay {
    capabilities: DeviceCapabilities,
    last_frame: Option<RgbaFrame>,
    frame_count: u64,
    brightness: u8,
}

/// `after` is `before` once it has accepted `frame`: one more frame is
/// counted, the last frame is a copy of `frame`, and nothing else changes.
pub open spec fn accepted_frame(before: FakeDisplay, after: FakeDisplay, frame: RgbaFrame) -> bool {
    &&& after.spec_frame_count() == before.spec_frame_count() + 1
    &&& after.spec_last_frame() matches Some(kept) && {
        &&& kept.spec_size() == frame.spec_size()
        &&& kept.spec_pixels() == frame.spec_pixels()
        &&& kept.wf() == frame.wf()
    }
    &&& after.spec_brightness() == before.spec_brightness()
    &&& after.spec_capabilities() == before.spec_capabilities()
}

impl FakeDisplay {
    /// The size the display accepts.
    pub closed spec fn spec_native_size(&self) -> FrameSize {
        self.capabilities.native_size
    }

    /// The last accepted frame.
    pub closed spec fn spec_last_frame(&self) -> Option<RgbaFrame> {
        self.last_frame
    }

    /// How many frames were accepted.
    pub closed spec fn spec_frame_count(&self) -> u64 {
        self.frame_count
    }

    /// Brightness in percent.
    pub closed spec fn spec_brightness(&self) -> u8 {
        self.brightness
    }

    /// The reported capabilities.
    pub closed spec fn spec_capabilities(&self) -> DeviceCapabilities {
        self.capabilities
    }

    /// A display that has received nothing, at full brightness.
    pub fn new(capabilities: DeviceCapabilities) -> (display: FakeDisplay)
        ensures
            display.spec_capabilities() == capabilities,
            display.spec_native_size() == capabilities.native_size,
            display.spec_last_frame() is None,
            display.spec_frame_count() == 0,
            display.spec_brightness() == 100,
    {
        FakeDisplay { capabilities, last_frame: None, frame_count: 0, brightness: 100 }
    }

    /// A simulated K-MEX panel that takes RGBA frames: 462 x 1920 portrait,
    /// 0.5 to 60 frames per second (20 recommended), brightness control.
    pub fn kmex_profile() -> (display: FakeDisplay)
        ensures
            display.spec_capabilities().model@ == "Fake K-MEX HL VMAX"@,
            display.spec_native_size() == (FrameSize { width: 462, height: 1920 }),
            display.spec_capabilities().orientation == Orientation::Portrait,
            display.spec_capabilities().accepted_formats@ == seq![PixelFormat::Rgba8888],
            display.spec_capabilities().preferred_format == PixelFormat::Rgba8888,
            display.spec_capabilities().min_fps_bits == FPS_HALF_BITS,
            display.spec_capabilities().max_fps_bits == FPS_60_BITS,
            display.spec_capabilities().recommended_fps_bits == FPS_20_BITS,
            !display.spec_capabilities().requires_continuous_frames,
            display.spec_capabilities().supports_brightness,
            display.spec_last_frame() is None,
            display.spec_frame_count() == 0,
            display.spec_brightness() == 100,
    {
        let mut accepted_formats = Vec::new();
        accepted_formats.push(PixelFormat::Rgba8888);
        FakeDisplay::new(
            DeviceCapabilities {
                model: "Fake K-MEX HL VMAX".to_owned(),
                native_size: FrameSize::new(462, 1920),
                orientation: Orientation::Portrait,
                accepted_formats,
                preferred_format: PixelFormat::Rgba8888,
                min_fps_bits: FPS_HALF_BITS,
                max_fps_bits: FPS_60_BITS,
                recommended_fps_bits: FPS_20_BITS,
                requires_continuous_frames: false,
                supports_brightness: true,
            },
        )
    }

    /// A simulated `width` x `height` panel that takes RGBA frames, 0.1 to
    /// 60 frames per second (20 recommended), with brightness control.
    pub fn square_profile(width: u32, height: u32) -> (display: FakeDisplay)
        ensures
            display.spec_capabilities().model@ == "Fake Square Display"@,
            display.spec_native_size() == (FrameSize { width, height }),
            display.spec_capabilities().orientation == Orientation::Portrait,
            display.spec_capabilities().accepted_formats@ == seq![PixelFormat::Rgba8888],
            display.spec_capabilities().preferred_format == PixelFormat::Rgba8888,
            display.spec_capabilities().min_fps_bits == FPS_TENTH_BITS,
            display.spec_capabilities().max_fps_bits == FPS_60_BITS,
            display.spec_capabilities().recommended_fps_bits == FPS_20_BITS,
            !display.spec_capabilities().requires_continuous_frames,
            display.spec_capabilities().supports_brightness,
            display.spec_last_frame() is None,
            display.spec_frame_count() == 0,
            display.spec_brightness() == 100,
    {
        let mut accepted_formats = Vec::new();
        accepted_formats.push(PixelFormat::Rgba8888);
        FakeDisplay::new(
            DeviceCapabilities {
                model: "Fake Square Display".to_owned(),
                native_size: FrameSize::new(width, height),
                orientation: Orientation::Portrait,
                accepted_formats,
                preferred_format: PixelFormat::Rgba8888,
                min_fps_bits: FPS_TENTH_BITS,
                max_fps_bits: FPS_60_BITS,
                recommended_fps_bits: FPS_20_BITS,
                requires_continuous_frames: false,
                supports_brightness: true,
            },
        )
    }

    /// The last frame the display accepted.
    pub fn last_frame(&self) -> (frame: Option<&RgbaFrame>)
        ensures
            match frame {
                Some(f) => self.spec_last_frame() == Some(*f),
                None => self.spec_last_frame() is None,
            },
    {
        match &self.last_frame {
            Some(frame) => Some(frame),
            None => None,
        }
    }

    /// Hands over the last accepted frame, leaving none.
    pub fn take_last_frame(&mut self) -> (frame: Option<RgbaFrame>)
        ensures
            frame == old(self).spec_last_frame(),
            final(self).spec_last_frame() is None,
            final(self).spec_frame_count() == old(self).spec_frame_count(),
            final(self).spec_brightness() == old(self).spec_brightness(),
            final(self).spec_capabilities() == old(self).spec_capabilities(),
    {
        self.last_frame.take()
    }

    /// How many frames the display accepted.
    pub fn frame_count(&self) -> (count: u64)
        ensures
            count == self.spec_frame_count(),
    {
        self.frame_count
    }

    /// The display's brightness in percent.
    pub fn brightness(&self) -> (brightness: u8)
        ensures
            brightness == self.spec_brightness(),
    {
        self.brightness
    }

    /// Keeps a copy of a frame of the native size and counts it; refuses a
    /// frame of any other size and then changes nothing.
    fn store_frame(&mut self, frame: &RgbaFrame) -> (result: Result<(), FakeDisplayError>)
        requires
            old(self).spec_frame_count() < u64::MAX,
        ensures
            frame.spec_size() == old(self).spec_native_size() <==> result is Ok,
            result matches Err(error) ==> error == (FakeDisplayError::InvalidFrameSize {
                expected: old(self).spec_native_size(),
                actual: frame.spec_size(),
            }) && *final(self) == *old(self),
            result is Ok ==> accepted_frame(*old(self), *final(self), *frame),
    {
        let expected = self.capabilities.native_size;
        let actual = frame.size();
        if actual != expected {
            return Err(FakeDisplayError::InvalidFrameSize { expected, actual });
        }
        self.last_frame = Some(frame.clone());
        self.frame_count = self.frame_count + 1;
        Ok(())
    }
}

impl DisplayDevice for FakeDisplay {
    type Error = FakeDisplayError;

    open spec fn ready_for_frame(&self) -> bool {
        self.spec_frame_count() < u64::MAX
    }

    fn capabilities(&self) -> (capabilities: &DeviceCapabilities)
        ensures
            *capabilities == self.spec_capabilities(),
    {
        &self.capabilities
    }

    /// Accepts a frame of the native size (see `store_frame`).
    fn send_rgba(&mut self, frame: &RgbaFrame) -> (result: Result<(), FakeDisplayError>)
        ensures
            frame.spec_size() == old(self).spec_native_size() <==> result is Ok,
            result matches Err(error) ==> error == (FakeDisplayError::InvalidFrameSize {
                expected: old(self).spec_native_size(),
                actual: frame.spec_size(),
            }) && *final(self) == *old(self),
            result is Ok ==> accepted_frame(*old(self), *final(self), *frame),
    {
        self.store_frame(frame)
    }

    /// Encoded frames are never accepted; nothing changes.
    fn send_encoded(&mut self, format: PixelFormat, bytes: &[u8]) -> (result: Result<(), FakeDisplayError>)
        ensures
            result == Err::<(), FakeDisplayError>(FakeDisplayError::EncodedFormatUnsupported),
            *final(self) == *old(self),
    {
        Err(FakeDisplayError::EncodedFormatUnsupported)
    }

    /// Sets the brightness to `percent`, which must be at most 100;
    /// otherwise nothing changes.
    fn set_brightness(&mut self, percent: u8) -> (result: Result<(), FakeDisplayError>)
        ensures
            percent <= 100 <==> result is Ok,
            result matches Err(error) ==> error == FakeDisplayError::InvalidBrightness(percent)
                && *final(self) == *old(self),
            result is Ok ==> final(self).spec_brightness() == percent
                && final(self).spec_frame_count() == old(self).spec_frame_count()
                && final(self).spec_last_frame() == old(self).spec_last_frame()
                && final(self).spec_capabilities() == old(self).spec_capabilities(),
    {
        if percent > 100 {
            return Err(FakeDisplayError::InvalidBrightness(percent));
        }
        self.brightness = percent;
        Ok(())
    }
}

} // verus!
