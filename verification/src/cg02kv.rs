//! The K-MEX CG02KV cooler display: a raw byte channel and its packet
//! parser.
use vstd::prelude::*;

verus! {

/// Errors of the CG02KV driver.
#[derive(Debug)]
pub enum KMexError {
    Serial(serialport::Error),
    Io(std::io::Error),
    Protocol,
}

/// A byte link to the cooler display.
///
/// `wrote` and `read_back` say what a transport's operations did: how the
/// transport went from one state to another and what the call returned.
/// An implementation may define them to describe itself; by default they
/// claim nothing.
pub trait Transport: Sized {
    /// `after` and `result` are what writing `data` to `self` gave.
    open spec fn wrote(&self, data: Seq<u8>, after: Self, result: Result<(), KMexError>) -> bool {
        true
    }

    /// `after` and `result` are what reading from `self` gave.
    open spec fn read_back(&self, after: Self, result: Result<Vec<u8>, KMexError>) -> bool {
        true
    }

    /// Writes `data` to the device.
    fn write(&mut self, data: &[u8]) -> (result: Result<(), KMexError>)
        ensures
            old(self).wrote(data@, *final(self), result),
    ;

    /// Reads what the device sent.
    fn read(&mut self) -> (result: Result<Vec<u8>, KMexError>)
        ensures
            old(self).read_back(*final(self), result),
    ;
}

/// The cooler display, driven through a transport.
pub struct KMexCG02KV<T: Transport> {
    transport: T,
}

impl<T: Transport> KMexCG02KV<T> {
    /// The transport the display is driven through.
    pub closed spec fn spec_transport(&self) -> T {
        self.transport
    }

    /// A display on `transport`.
    pub fn new(transport: T) -> (device: KMexCG02KV<T>)
        ensures
            device.spec_transport() == transport,
    {
        KMexCG02KV { transport }
    }

    /// Writes bytes as they are.
    pub fn send_raw(&mut self, data: &[u8]) -> (result: Result<(), KMexError>)
        ensures
            old(self).spec_transport().wrote(data@, final(self).spec_transport(), result),
    {
        self.transport.write(data)
    }

    /// Reads what the device sent.
    pub fn recv_raw(&mut self) -> (result: Result<Vec<u8>, KMexError>)
        ensures
            old(self).spec_transport().read_back(final(self).spec_transport(), result),
    {
        self.transport.read()
    }
}

/// A decoded packet of the CG02KV protocol.
#[derive(Debug, Clone, Copy, PartialEq, Eq, Structural)]
pub struct Packet;

/// Decoder of the CG02KV protocol.
#[derive(Debug)]
pub struct Parser;

impl Parser {
    /// No packet kind of the protocol is decoded yet: every input gives
    /// `None`.
    pub fn parse(data: &[u8]) -> (packet: Option<Packet>)
        ensures
            packet is None,
    {
        None
    }
}

} // verus!
