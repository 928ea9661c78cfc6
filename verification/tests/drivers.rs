use std::cell::RefCell;
use std::rc::Rc;

use openlcd::cg02kv::{KMexCG02KV, KMexError, Parser, Transport as CoolerTransport};
use openlcd::device::DisplayDevice;
use openlcd::frame::{FrameSize, PixelFormat, RgbaFrame};
use openlcd::kmex::{KmexDevice, KmexDisplay, Transport};
use openlcd::protocol::{kmex_vmax_capabilities, KmexError};

#[derive(Default, Clone)]
struct Recorder {
    log: Rc<RefCell<Vec<String>>>,
}

impl Transport for Recorder {
    fn write_all(&mut self, data: &[u8]) -> Result<(), KmexError> {
        self.log.borrow_mut().push(format!("write {data:02x?}"));
        Ok(())
    }

    fn flush(&mut self) -> Result<(), KmexError> {
        self.log.borrow_mut().push("flush".to_owned());
        Ok(())
    }
}

struct Failing;

impl Transport for Failing {
    fn write_all(&mut self, _data: &[u8]) -> Result<(), KmexError> {
        Err(KmexError::NotConnected)
    }

    fn flush(&mut self) -> Result<(), KmexError> {
        Ok(())
    }
}

#[test]
fn display_writes_control_packets_and_frames() {
    let recorder = Recorder::default();
    let log = recorder.log.clone();
    let mut display = KmexDisplay::new(recorder);
    display.send_control(100).unwrap();
    display.send_jpeg(&[0xff, 0xd8, 0x01, 0xff, 0xd9]).unwrap();
    display.send_raw(&[7]).unwrap();
    assert!(matches!(display.send_jpeg(&[0x00, 0x01, 0x02, 0x03]), Err(KmexError::InvalidJpeg)));
    assert_eq!(
        *log.borrow(),
        vec![
            "write [aa, bb, 64, cc, dd]".to_owned(),
            "flush".to_owned(),
            "write [ff, d8, 01, ff, d9]".to_owned(),
            "flush".to_owned(),
            "write [07]".to_owned(),
            "flush".to_owned(),
        ]
    );
}

#[test]
fn transport_errors_are_passed_on() {
    let mut display = KmexDisplay::new(Failing);
    assert!(matches!(display.send_control(1), Err(KmexError::NotConnected)));
}

#[test]
fn device_takes_jpeg_only() {
    let mut device = KmexDevice::new(KmexDisplay::new(Recorder::default()), kmex_vmax_capabilities());
    assert_eq!(device.capabilities().native_size, FrameSize::new(462, 1920));
    let frame = RgbaFrame::new(FrameSize::new(1, 1), vec![0; 4]).unwrap();
    assert!(matches!(device.send_rgba(&frame), Err(KmexError::UnsupportedFormat(PixelFormat::Rgba8888))));
    assert!(matches!(device.send_encoded(PixelFormat::Png, &[1]), Err(KmexError::UnsupportedFormat(PixelFormat::Png))));
    assert!(matches!(device.send_encoded(PixelFormat::Jpeg, &[1, 2, 3, 4]), Err(KmexError::InvalidJpeg)));
    device.send_encoded(PixelFormat::Jpeg, &[0xff, 0xd8, 0xff, 0xd9]).unwrap();
    let failing = KmexDevice::new(KmexDisplay::new(Failing), kmex_vmax_capabilities());
    let mut failing = failing;
    assert!(matches!(failing.send_encoded(PixelFormat::Jpeg, &[0xff, 0xd8, 0xff, 0xd9]), Err(KmexError::NotConnected)));
    device.set_brightness(50).unwrap();
}

struct Echo {
    buffer: Vec<u8>,
}

impl CoolerTransport for Echo {
    fn write(&mut self, data: &[u8]) -> Result<(), KMexError> {
        self.buffer.extend_from_slice(data);
        Ok(())
    }

    fn read(&mut self) -> Result<Vec<u8>, KMexError> {
        Ok(std::mem::take(&mut self.buffer))
    }
}

#[test]
fn cooler_display_passes_bytes_through() {
    let mut cooler = KMexCG02KV::new(Echo { buffer: Vec::new() });
    cooler.send_raw(&[1, 2, 3]).unwrap();
    assert_eq!(cooler.recv_raw().unwrap(), vec![1, 2, 3]);
    assert!(Parser::parse(&[1, 2, 3]).is_none());
    assert!(Parser::parse(&[]).is_none());
}
