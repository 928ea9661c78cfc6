//! Wire protocol of the K-MEX HL VMAX display.
use vstd::prelude::*;

use crate::frame::{DeviceCapabilities, FrameSize, Orientation, PixelFormat};

verus! {

/// First two bytes of every control packet.
pub const CONTROL_HEADER: [u8; 2] = [0xaa, 0xbb];

/// Last two bytes of every control packet.
pub const CONTROL_FOOTER: [u8; 2] = [0xcc, 0xdd];

/// Start-of-image marker of a JPEG stream.
pub const JPEG_START: [u8; 2] = [0xff, 0xd8];

/// End-of-image marker of a JPEG stream.
pub const JPEG_END: [u8; 2] = [0xff, 0xd9];

/// The control packet that carries `value`.
pub open spec fn spec_control_packet(value: u8) -> Seq<u8> {
    seq![0xaau8, 0xbbu8, value, 0xccu8, 0xddu8]
}

/// Frames a control value between the control header and footer.
pub fn encode_control(value: u8) -> (packet: [u8; 5])
    ensures
        packet@ == spec_control_packet(value),
{
    let packet = [CONTROL_HEADER[0], CONTROL_HEADER[1], value, CONTROL_FOOTER[0], CONTROL_FOOTER[1]];
    assert(packet@ =~= spec_control_packet(value));
    packet
}

/// Errors of the K-MEX driver.
#[derive(Debug)]
pub enum KmexError {
    Serial(serialport::Error),
    Io(std::io::Error),
    InvalidJpeg,
    InvalidControlValue(u8),
    NotConnected,
    UnsupportedFormat(PixelFormat),
}

/// A buffer the display accepts as a JPEG frame: at least four bytes,
/// opening with the start-of-image marker and closing with the
/// end-of-image marker.
pub open spec fn is_framed_jpeg(bytes: Seq<u8>) -> bool {
    &&& bytes.len() >= 4
    &&& bytes[0] == 0xff && bytes[1] == 0xd8
    &&& bytes[bytes.len() - 2] == 0xff && bytes[bytes.len() - 1] == 0xd9
}

/// Checks that a buffer is framed as a JPEG image.
pub fn validate_jpeg(bytes: &[u8]) -> (result: Result<(), KmexError>)
    ensures
        result is Ok <==> is_framed_jpeg(bytes@),
        result matches Err(error) ==> error is InvalidJpeg,
{
    let n = bytes.len();
    if n < 4 {
        return Err(KmexError::InvalidJpeg);
    }
    let starts_correctly = bytes[0] == JPEG_START[0] && bytes[1] == JPEG_START[1];
    let ends_correctly = bytes[n - 2] == JPEG_END[0] && bytes[n - 1] == JPEG_END[1];
    if !starts_correctly || !ends_correctly {
        return Err(KmexError::InvalidJpeg);
    }
    Ok(())
}

/// Bit pattern of half a frame per second.
pub const FPS_HALF_BITS: u32 = 0x3f00_0000;

/// Bit pattern of 20 frames per second.
pub const FPS_20_BITS: u32 = 0x41a0_0000;

/// What the K-MEX HL VMAX reports: a 462 x 1920 portrait panel that takes
/// JPEG frames continuously, between 0.5 and 20 frames per second.
pub fn kmex_vmax_capabilities() -> (capabilities: DeviceCapabilities)
    ensures
        capabilities.model@ == "K-MEX HL VMAX"@,
        capabilities.native_size == (FrameSize { width: 462, height: 1920 }),
        capabilities.orientation == Orientation::Portrait,
        capabilities.accepted_formats@ == seq![PixelFormat::Jpeg],
        capabilities.preferred_format == PixelFormat::Jpeg,
        capabilities.min_fps_bits == FPS_HALF_BITS,
        capabilities.max_fps_bits == FPS_20_BITS,
        capabilities.recommended_fps_bits == FPS_20_BITS,
        capabilities.requires_continuous_frames,
        !capabilities.supports_brightness,
{
    let mut accepted_formats = Vec::new();
    accepted_formats.push(PixelFormat::Jpeg);
    DeviceCapabilities {
        model: "K-MEX HL VMAX".to_owned(),
        native_size: FrameSize::new(462, 1920),
        orientation: Orientation::Portrait,
        accepted_formats,
        preferred_format: PixelFormat::Jpeg,
        min_fps_bits: FPS_HALF_BITS,
        max_fps_bits: FPS_20_BITS,
        recommended_fps_bits: FPS_20_BITS,
        requires_continuous_frames: true,
        supports_brightness: false,
    }
}

} // verus!
