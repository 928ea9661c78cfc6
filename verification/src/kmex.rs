//! The K-MEX HL VMAX display over a byte transport: control packets and
//! JPEG frames.
use vstd::prelude::*;

use crate::device::DisplayDevice;
use crate::frame::{DeviceCapabilities, PixelFormat, RgbaFrame};
use crate::protocol::{encode_control, is_framed_jpeg, spec_control_packet, validate_jpeg, KmexError};

verus! {

/// A byte link to the display, such as a serial port.
///
/// `wrote` and `flushed` say what a transport's operations did: how the
/// transport went from one state to another and what the call returned.
/// An implementation may define them to describe itself; by default they
/// claim nothing.
pub trait Transport: Sized {
    /// `after` and `result` are what writing `data` to `self` gave.
    open spec fn wrote(&self, data: Seq<u8>, after: Self, result: Result<(), KmexError>) -> bool {
        true
    }

    /// `after` and `result` are what flushing `self` gave.
    open spec fn flushed(&self, after: Self, result: Result<(), KmexError>) -> bool {
        true
    }

    /// Writes every byte of `data`.
    fn write_all(&mut self, data: &[u8]) -> (result: Result<(), KmexError>)
        ensures
            old(self).wrote(data@, *final(self), result),
    ;

    /// Pushes buffered bytes out to the device.
    fn flush(&mut self) -> (result: Result<(), KmexError>)
        ensures
            old(self).flushed(*final(self), result),
    ;
}

/// `after` and `result` are what sending `bytes` through `before` gave:
/// the bytes were written, and only if that succeeded the transport was
/// flushed; the result is the write's error or else the flush's result.
pub open spec fn sent_and_flushed<T: Transport>(
    before: T,
    bytes: Seq<u8>,
    after: T,
    result: Result<(), KmexError>,
) -> bool {
    ||| result is Err && before.wrote(bytes, after, result)
    ||| exists|written: T, write: Result<(), KmexError>|
        write is Ok && #[trigger] before.wrote(bytes, written, write) && written.flushed(after, result)
}

/// The display, driven through a transport.
pub struct KmexDisplay<T: Transport> {
    transport: T,
}

impl<T: Transport> KmexDisplay<T> {
    /// The transport the display is driven through.
    pub closed spec fn spec_transport(&self) -> T {
        self.transport
    }

    /// A display on `transport`.
    pub fn new(transport: T) -> (display: KmexDisplay<T>)
        ensures
            display.spec_transport() == transport,
    {
        KmexDisplay { transport }
    }

    /// Writes `bytes` and flushes, stopping at the first transport error.
    fn write_and_flush(&mut self, bytes: &[u8]) -> (result: Result<(), KmexError>)
        ensures
            sent_and_flushed(old(self).spec_transport(), bytes@, final(self).spec_transport(), result),
    {
        let ghost before = self.transport;
        let write = self.transport.write_all(bytes);
        assert(before.wrote(bytes@, self.transport, write));
        if let Err(error) = write {
            return Err(error);
        }
        let ghost written = self.transport;
        let result = self.transport.flush();
        assert(write is Ok && before.wrote(bytes@, written, write));
        result
    }

    /// Sends the control packet that carries `value`, then flushes.
    pub fn send_control(&mut self, value: u8) -> (result: Result<(), KmexError>)
        ensures
            sent_and_flushed(
                old(self).spec_transport(),
                spec_control_packet(value),
                final(self).spec_transport(),
                result,
            ),
    {
        let packet = encode_control(value);
        self.write_and_flush(&packet)
    }

    /// Sends a JPEG frame. A buffer that is not framed as a JPEG image is
    /// refused with `InvalidJpeg` before anything is written.
    pub fn send_jpeg(&mut self, jpeg: &[u8]) -> (result: Result<(), KmexError>)
        ensures
            !is_framed_jpeg(jpeg@) ==> (result matches Err(KmexError::InvalidJpeg)) && *final(self)
                == *old(self),
            is_framed_jpeg(jpeg@) ==> sent_and_flushed(
                old(self).spec_transport(),
                jpeg@,
                final(self).spec_transport(),
                result,
            ),
    {
        match validate_jpeg(jpeg) {
            Ok(()) => {},
            Err(error) => {
                return Err(error);
            },
        }
        self.write_and_flush(jpeg)
    }

    /// Sends bytes as they are, then flushes.
    pub fn send_raw(&mut self, bytes: &[u8]) -> (result: Result<(), KmexError>)
        ensures
            sent_and_flushed(old(self).spec_transport(), bytes@, final(self).spec_transport(), result),
    {
        self.write_and_flush(bytes)
    }
}

/// The display as a `DisplayDevice`: it takes JPEG frames only.
pub struct KmexDevice<T: Transport> {
    display: KmexDisplay<T>,
    capabilities: DeviceCapabilities,
}

impl<T: Transport> KmexDevice<T> {
    /// The reported capabilities.
    pub closed spec fn spec_capabilities(&self) -> DeviceCapabilities {
        self.capabilities
    }

    /// The display that frames are sent to.
    pub closed spec fn spec_display(&self) -> KmexDisplay<T> {
        self.display
    }

    /// A device made of a display and what it reports.
    pub fn new(display: KmexDisplay<T>, capabilities: DeviceCapabilities) -> (device: KmexDevice<T>)
        ensures
            device.spec_capabilities() == capabilities,
            device.spec_display() == display,
    {
        KmexDevice { display, capabilities }
    }
}

impl<T: Transport> DisplayDevice for KmexDevice<T> {
    type Error = KmexError;

    fn capabilities(&self) -> (capabilities: &DeviceCapabilities)
        ensures
            *capabilities == self.spec_capabilities(),
    {
        &self.capabilities
    }

    /// Raw frames are refused: the panel takes JPEG only.
    fn send_rgba(&mut self, frame: &RgbaFrame) -> (result: Result<(), KmexError>)
        ensures
            result matches Err(KmexError::UnsupportedFormat(PixelFormat::Rgba8888)),
            *final(self) == *old(self),
    {
        Err(KmexError::UnsupportedFormat(PixelFormat::Rgba8888))
    }

    /// Sends a JPEG frame; any other format is refused and nothing is sent.
    fn send_encoded(&mut self, format: PixelFormat, bytes: &[u8]) -> (result: Result<(), KmexError>)
        ensures
            format != PixelFormat::Jpeg ==> (result matches Err(KmexError::UnsupportedFormat(f))
                && f == format) && *final(self) == *old(self),
            format == PixelFormat::Jpeg && !is_framed_jpeg(bytes@) ==> (result matches Err(
                KmexError::InvalidJpeg,
            )) && *final(self) == *old(self),
            format == PixelFormat::Jpeg && is_framed_jpeg(bytes@) ==> sent_and_flushed(
                old(self).spec_display().spec_transport(),
                bytes@,
                final(self).spec_display().spec_transport(),
                result,
            ) && final(self).spec_capabilities() == old(self).spec_capabilities(),
    {
        if format != PixelFormat::Jpeg {
            return Err(KmexError::UnsupportedFormat(format));
        }
        self.display.send_jpeg(bytes)
    }
}

} // verus!
