use openlcd::protocol::{encode_control, kmex_vmax_capabilities, validate_jpeg, KmexError};
use openlcd::frame::{FrameSize, Orientation, PixelFormat};

#[test]
fn encodes_control_packet() {
    assert_eq!(encode_control(100), [0xaa, 0xbb, 0x64, 0xcc, 0xdd],);
}

#[test]
fn validates_complete_jpeg() {
    let jpeg = [0xff, 0xd8, 0x01, 0x02, 0xff, 0xd9];

    assert!(validate_jpeg(&jpeg).is_ok());
}

#[test]
fn rejects_incomplete_jpeg() {
    let jpeg = [0xff, 0xd8, 0x01, 0x02];

    assert!(validate_jpeg(&jpeg).is_err());
}

#[test]
fn encodes_control_edges() {
    assert_eq!(encode_control(0), [0xaa, 0xbb, 0x00, 0xcc, 0xdd]);
    assert_eq!(encode_control(255), [0xaa, 0xbb, 0xff, 0xcc, 0xdd]);
}

#[test]
fn shortest_framed_jpeg_is_accepted() {
    assert!(validate_jpeg(&[0xff, 0xd8, 0xff, 0xd9]).is_ok());
}

#[test]
fn rejects_short_or_misframed_buffers() {
    assert!(matches!(validate_jpeg(&[]), Err(KmexError::InvalidJpeg)));
    assert!(matches!(validate_jpeg(&[0xff, 0xd8, 0xd9]), Err(KmexError::InvalidJpeg)));
    assert!(matches!(validate_jpeg(&[0xff, 0xd9, 0x00, 0xff, 0xd9]), Err(KmexError::InvalidJpeg)));
    assert!(matches!(validate_jpeg(&[0xff, 0xd8, 0x00, 0xff, 0xd8]), Err(KmexError::InvalidJpeg)));
}

#[test]
fn kmex_capabilities_describe_portrait_jpeg_panel() {
    let capabilities = kmex_vmax_capabilities();
    assert_eq!(capabilities.model, "K-MEX HL VMAX");
    assert_eq!(capabilities.native_size, FrameSize::new(462, 1920));
    assert_eq!(capabilities.orientation, Orientation::Portrait);
    assert_eq!(capabilities.accepted_formats, vec![PixelFormat::Jpeg]);
    assert_eq!(capabilities.preferred_format, PixelFormat::Jpeg);
    assert_eq!(f32::from_bits(capabilities.min_fps_bits), 0.5f32);
    assert_eq!(f32::from_bits(capabilities.max_fps_bits), 20.0f32);
    assert_eq!(f32::from_bits(capabilities.recommended_fps_bits), 20.0f32);
    assert!(capabilities.requires_continuous_frames);
    assert!(!capabilities.supports_brightness);
}
