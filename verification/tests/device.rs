use openlcd::device::{DisplayDevice, FakeDisplay, FakeDisplayError};
use openlcd::frame::{FrameSize, PixelFormat, RgbaFrame};

#[test]
fn accepts_frame_with_correct_size() {
    let mut display = FakeDisplay::square_profile(2, 2);

    let frame = RgbaFrame::new(FrameSize::new(2, 2), vec![0; 2 * 2 * 4]).unwrap();

    display.send_rgba(&frame).unwrap();

    assert_eq!(display.frame_count(), 1,);

    assert!(display.last_frame().is_some(),);
}

#[test]
fn rejects_frame_with_wrong_size() {
    let mut display = FakeDisplay::square_profile(480, 480);

    let frame = RgbaFrame::new(FrameSize::new(2, 2), vec![0; 2 * 2 * 4]).unwrap();

    assert!(display.send_rgba(&frame).is_err(),);
}

#[test]
fn changes_fake_brightness() {
    let mut display = FakeDisplay::square_profile(480, 480);

    display.set_brightness(60).unwrap();

    assert_eq!(display.brightness(), 60,);
}

#[test]
fn wrong_size_error_names_both_sizes_and_changes_nothing() {
    let mut display = FakeDisplay::square_profile(480, 480);
    let frame = RgbaFrame::new(FrameSize::new(2, 2), vec![0; 16]).unwrap();
    assert_eq!(
        display.send_rgba(&frame).unwrap_err(),
        FakeDisplayError::InvalidFrameSize {
            expected: FrameSize::new(480, 480),
            actual: FrameSize::new(2, 2),
        }
    );
    assert_eq!(display.frame_count(), 0);
    assert!(display.last_frame().is_none());
}

#[test]
fn keeps_the_last_frame_and_counts_every_frame() {
    let mut display = FakeDisplay::square_profile(1, 1);
    let first = RgbaFrame::new(FrameSize::new(1, 1), vec![1, 2, 3, 4]).unwrap();
    let second = RgbaFrame::new(FrameSize::new(1, 1), vec![5, 6, 7, 8]).unwrap();
    display.send_rgba(&first).unwrap();
    display.send_rgba(&second).unwrap();
    assert_eq!(display.frame_count(), 2);
    assert_eq!(display.last_frame().unwrap().pixels(), &[5, 6, 7, 8]);
    let taken = display.take_last_frame().unwrap();
    assert_eq!(taken.pixels(), &[5, 6, 7, 8]);
    assert!(display.last_frame().is_none());
    assert_eq!(display.frame_count(), 2);
}

#[test]
fn encoded_frames_are_refused() {
    let mut display = FakeDisplay::kmex_profile();
    assert_eq!(
        display.send_encoded(PixelFormat::Jpeg, &[0xff, 0xd8, 0xff, 0xd9]).unwrap_err(),
        FakeDisplayError::EncodedFormatUnsupported
    );
    assert_eq!(display.frame_count(), 0);
}

#[test]
fn brightness_above_hundred_is_refused() {
    let mut display = FakeDisplay::kmex_profile();
    assert_eq!(display.brightness(), 100);
    assert_eq!(display.set_brightness(101).unwrap_err(), FakeDisplayError::InvalidBrightness(101));
    assert_eq!(display.brightness(), 100);
    display.set_brightness(0).unwrap();
    assert_eq!(display.brightness(), 0);
    display.set_brightness(100).unwrap();
    assert_eq!(display.brightness(), 100);
}

#[test]
fn profiles_report_their_panels() {
    let kmex = FakeDisplay::kmex_profile();
    assert_eq!(kmex.capabilities().model, "Fake K-MEX HL VMAX");
    assert_eq!(kmex.capabilities().native_size, FrameSize::new(462, 1920));
    assert_eq!(f32::from_bits(kmex.capabilities().max_fps_bits), 60.0f32);
    let square = FakeDisplay::square_profile(480, 480);
    assert_eq!(square.capabilities().model, "Fake Square Display");
    assert_eq!(f32::from_bits(square.capabilities().min_fps_bits), 0.1f32);
    assert_eq!(square.frame_count(), 0);
}

#[test]
fn frames_must_match_their_size() {
    let error = RgbaFrame::new(FrameSize::new(2, 2), vec![0; 15]).unwrap_err();
    assert_eq!(
        error,
        openlcd::frame::FrameError::InvalidBufferSize { expected: 16, actual: 15 }
    );
    let frame = RgbaFrame::new(FrameSize::new(1, 2), vec![9; 8]).unwrap();
    assert_eq!(frame.size(), FrameSize::new(1, 2));
    assert_eq!(frame.clone().into_pixels(), vec![9; 8]);
}

struct Recorder {
    capabilities: openlcd::frame::DeviceCapabilities,
    frames: usize,
}

impl DisplayDevice for Recorder {
    type Error = ();

    fn capabilities(&self) -> &openlcd::frame::DeviceCapabilities {
        &self.capabilities
    }

    fn send_rgba(&mut self, _frame: &RgbaFrame) -> Result<(), ()> {
        self.frames += 1;
        Ok(())
    }

    fn send_encoded(&mut self, _format: PixelFormat, _bytes: &[u8]) -> Result<(), ()> {
        Err(())
    }
}

#[test]
fn other_devices_get_default_brightness_handling() {
    let mut device = Recorder { capabilities: openlcd::protocol::kmex_vmax_capabilities(), frames: 0 };
    assert_eq!(device.set_brightness(250), Ok(()));
    let frame = RgbaFrame::new(FrameSize::new(1, 1), vec![0; 4]).unwrap();
    device.send_rgba(&frame).unwrap();
    assert_eq!(device.frames, 1);
    assert_eq!(device.capabilities().model, "K-MEX HL VMAX");
}
