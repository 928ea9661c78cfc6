//! Display shapes and the preview profiles of the editor.
use vstd::prelude::*;

use crate::frame::{DeviceCapabilities, FrameSize, Orientation, PixelFormat};

verus! {

/// Broad shape of a display, by its aspect ratio.
#[derive(Debug, Clone, Copy, PartialEq, Eq, Hash, Structural)]
pub enum DisplayShape {
    Square,
    Portrait,
    PortraitUltrawide,
    Landscape,
    LandscapeUltrawide,
}

/// The step between neighbouring single-precision numbers near `n`,
/// counted in units of 1: 1 below 2^24, doubling with each power of two.
pub open spec fn f32_unit(n: u32) -> int {
    if n < 0x100_0000 {
        1
    } else if n < 0x200_0000 {
        2
    } else if n < 0x400_0000 {
        4
    } else if n < 0x800_0000 {
        8
    } else if n < 0x1000_0000 {
        16
    } else if n < 0x2000_0000 {
        32
    } else if n < 0x4000_0000 {
        64
    } else if n < 0x8000_0000 {
        128
    } else {
        256
    }
}

/// The integer `n` as single precision holds it: rounded to the nearest
/// multiple of its unit, ties to the even multiple.
pub open spec fn f32_integer(n: u32) -> int {
    let unit = f32_unit(n);
    let below = (n as int) / unit;
    let rest = (n as int) % unit;
    if rest * 2 > unit || (rest * 2 == unit && below % 2 == 1) {
        (below + 1) * unit
    } else {
        below * unit
    }
}

/// The shape of a `width` x `height` display, by the single-precision
/// quotient `q` of width and height (each first held as single precision,
/// the quotient rounded to nearest, ties to even): square for
/// 0.9 <= q <= 1.1, portrait ultrawide for q < 0.5, portrait for q < 1,
/// landscape ultrawide for q > 2, landscape otherwise; an empty size counts
/// as square. Each comparison of the rounded quotient with a
/// single-precision constant is written as the exact comparison of the
/// true quotient `a / b` with the point where rounding crosses that
/// constant:
/// - q >= 0.9 (0x3f666666) exactly when a / b >= 30198987 / 2^25;
/// - q <= 1.1 (0x3f8ccccd) exactly when a / b < 18454939 / 2^24;
/// - q < 0.5 exactly when a / b < (2^25 - 1) / 2^26;
/// - q < 1 exactly when a / b < (2^25 - 1) / 2^25;
/// - q > 2 exactly when a / b > (2^24 + 1) / 2^23.
pub open spec fn shape_of(width: u32, height: u32) -> DisplayShape {
    let a = f32_integer(width);
    let b = f32_integer(height);
    if width == 0 || height == 0 {
        DisplayShape::Square
    } else if a * 0x200_0000 >= 30198987 * b && a * 0x100_0000 < 18454939 * b {
        DisplayShape::Square
    } else if a * 0x400_0000 < 0x1ff_ffff * b {
        DisplayShape::PortraitUltrawide
    } else if a * 0x200_0000 < 0x1ff_ffff * b {
        DisplayShape::Portrait
    } else if a * 0x80_0000 > 0x100_0001 * b {
        DisplayShape::LandscapeUltrawide
    } else {
        DisplayShape::Landscape
    }
}

/// The identifier of each shape.
pub open spec fn shape_identifier(shape: DisplayShape) -> &'static str {
    match shape {
        DisplayShape::Square => "square",
        DisplayShape::Portrait => "portrait",
        DisplayShape::PortraitUltrawide => "portrait-ultrawide",
        DisplayShape::Landscape => "landscape",
        DisplayShape::LandscapeUltrawide => "landscape-ultrawide",
    }
}

impl DisplayShape {
    /// A stable identifier of the shape.
    pub fn identifier(self) -> (id: &'static str)
        ensures
            id == shape_identifier(self),
    {
        match self {
            DisplayShape::Square => "square",
            DisplayShape::Portrait => "portrait",
            DisplayShape::PortraitUltrawide => "portrait-ultrawide",
            DisplayShape::Landscape => "landscape",
            DisplayShape::LandscapeUltrawide => "landscape-ultrawide",
        }
    }
}

/// `n` as single precision holds it (see `f32_integer`).
fn f32_integer_of(n: u32) -> (value: u64)
    ensures
        value == f32_integer(n),
        value <= 0x1_0000_0000,
{
    let unit: u64 = if n < 0x100_0000 {
        1
    } else if n < 0x200_0000 {
        2
    } else if n < 0x400_0000 {
        4
    } else if n < 0x800_0000 {
        8
    } else if n < 0x1000_0000 {
        16
    } else if n < 0x2000_0000 {
        32
    } else if n < 0x4000_0000 {
        64
    } else if n < 0x8000_0000 {
        128
    } else {
        256
    };
    let wide = n as u64;
    let below = wide / unit;
    let rest = wide % unit;
    assert(below * unit <= wide) by (nonlinear_arith)
        requires
            below == wide / unit,
            unit > 0,
    ;
    if rest * 2 > unit || (rest * 2 == unit && below % 2 == 1) {
        assert((below + 1) * unit <= 0x1_0000_0000) by (nonlinear_arith)
            requires
                below == wide / unit,
                wide <= 0xffff_ffff,
                unit == 1 || unit == 2 || unit == 4 || unit == 8 || unit == 16 || unit == 32
                    || unit == 64 || unit == 128 || unit == 256,
        ;
        (below + 1) * unit
    } else {
        below * unit
    }
}

/// Classifies a display by its aspect ratio width / height, as a
/// single-precision quotient compared with the single-precision constants
/// 0.9, 1.1, 0.5, 1 and 2 (see `shape_of`).
pub fn classify_display(size: FrameSize) -> (shape: DisplayShape)
    ensures
        shape == shape_of(size.width, size.height),
{
    if size.width == 0 || size.height == 0 {
        return DisplayShape::Square;
    }
    let a = f32_integer_of(size.width) as u128;
    let b = f32_integer_of(size.height) as u128;
    if a * 0x200_0000 >= 30198987 * b && a * 0x100_0000 < 18454939 * b {
        DisplayShape::Square
    } else if a * 0x400_0000 < 0x1ff_ffff * b {
        DisplayShape::PortraitUltrawide
    } else if a * 0x200_0000 < 0x1ff_ffff * b {
        DisplayShape::Portrait
    } else if a * 0x80_0000 > 0x100_0001 * b {
        DisplayShape::LandscapeUltrawide
    } else {
        DisplayShape::Landscape
    }
}

/// The editor's name for each shape.
pub open spec fn spec_shape_label(shape: DisplayShape) -> &'static str {
    match shape {
        DisplayShape::Square => "Quadrado",
        DisplayShape::Portrait => "Retrato",
        DisplayShape::PortraitUltrawide => "Retrato ultrawide",
        DisplayShape::Landscape => "Paisagem",
        DisplayShape::LandscapeUltrawide => "Paisagem ultrawide",
    }
}

/// The editor's name for a shape.
pub fn shape_label(shape: DisplayShape) -> (label: &'static str)
    ensures
        label == spec_shape_label(shape),
{
    match shape {
        DisplayShape::Square => "Quadrado",
        DisplayShape::Portrait => "Retrato",
        DisplayShape::PortraitUltrawide => "Retrato ultrawide",
        DisplayShape::Landscape => "Paisagem",
        DisplayShape::LandscapeUltrawide => "Paisagem ultrawide",
    }
}

/// The displays the editor can preview.
#[derive(Debug, Clone, Copy, PartialEq, Eq, Structural)]
pub enum PreviewProfile {
    Kmex,
    Square480,
    Landscape800x480,
}

/// The label of each preview profile.
pub open spec fn profile_label(profile: PreviewProfile) -> &'static str {
    match profile {
        PreviewProfile::Kmex => "K-MEX 462 × 1920",
        PreviewProfile::Square480 => "Quadrado 480 × 480",
        PreviewProfile::Landscape800x480 => "Landscape 800 × 480",
    }
}

/// The native size of each preview profile.
pub open spec fn profile_size(profile: PreviewProfile) -> FrameSize {
    match profile {
        PreviewProfile::Kmex => FrameSize { width: 462, height: 1920 },
        PreviewProfile::Square480 => FrameSize { width: 480, height: 480 },
        PreviewProfile::Landscape800x480 => FrameSize { width: 800, height: 480 },
    }
}

/// Bit pattern of a tenth of a frame per second.
pub const FPS_TENTH_BITS: u32 = 0x3dcc_cccd;

/// Bit pattern of 60 frames per second.
pub const FPS_60_BITS: u32 = 0x4270_0000;

impl PreviewProfile {
    /// Every profile, in menu order.
    pub const ALL: [PreviewProfile; 3] = [
        PreviewProfile::Kmex,
        PreviewProfile::Square480,
        PreviewProfile::Landscape800x480,
    ];

    /// The profile's menu label.
    pub fn label(self) -> (label: &'static str)
        ensures
            label == profile_label(self),
    {
        match self {
            PreviewProfile::Kmex => "K-MEX 462 × 1920",
            PreviewProfile::Square480 => "Quadrado 480 × 480",
            PreviewProfile::Landscape800x480 => "Landscape 800 × 480",
        }
    }

    /// The profile's native size.
    pub fn size(self) -> (size: FrameSize)
        ensures
            size == profile_size(self),
    {
        match self {
            PreviewProfile::Kmex => FrameSize::new(462, 1920),
            PreviewProfile::Square480 => FrameSize::new(480, 480),
            PreviewProfile::Landscape800x480 => FrameSize::new(800, 480),
        }
    }

    /// The capabilities of a simulated display of this profile: RGBA frames,
    /// 0.1 to 60 frames per second (20 recommended), brightness control,
    /// portrait unless wider than tall.
    pub fn capabilities(self) -> (capabilities: DeviceCapabilities)
        ensures
            capabilities.model@ == "Fake "@ + profile_label(self)@,
            capabilities.native_size == profile_size(self),
            capabilities.orientation == if profile_size(self).height >= profile_size(self).width {
                Orientation::Portrait
            } else {
                Orientation::Landscape
            },
            capabilities.accepted_formats@ == seq![PixelFormat::Rgba8888],
            capabilities.preferred_format == PixelFormat::Rgba8888,
            capabilities.min_fps_bits == FPS_TENTH_BITS,
            capabilities.max_fps_bits == FPS_60_BITS,
            capabilities.recommended_fps_bits == crate::protocol::FPS_20_BITS,
            !capabilities.requires_continuous_frames,
            capabilities.supports_brightness,
    {
        let size = self.size();
        let orientation = if size.height >= size.width {
            Orientation::Portrait
        } else {
            Orientation::Landscape
        };
        let mut model = String::new();
        crate::text::push_str(&mut model, "Fake ");
        crate::text::push_str(&mut model, self.label());
        let mut accepted_formats = Vec::new();
        accepted_formats.push(PixelFormat::Rgba8888);
        DeviceCapabilities {
            model,
            native_size: size,
            orientation,
            accepted_formats,
            preferred_format: PixelFormat::Rgba8888,
            min_fps_bits: FPS_TENTH_BITS,
            max_fps_bits: FPS_60_BITS,
            recommended_fps_bits: crate::protocol::FPS_20_BITS,
            requires_continuous_frames: false,
            supports_brightness: true,
        }
    }
}

} // verus!
