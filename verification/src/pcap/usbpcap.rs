//! USB packets as USBPcap records them: a little-endian pseudo-header
//! followed by the transfer's payload.
use vstd::prelude::*;

use crate::text::{hex_byte, padded_decimal, decimal, push_decimal, push_hex_byte, push_padded_decimal, push_str};

verus! {

/// The PCAP link type of USBPcap captures.
pub const LINKTYPE_USBPCAP: u32 = 249;

/// Length of the fixed part of the USBPcap pseudo-header.
pub const USBPCAP_BASE_HEADER_LEN: usize = 27;

/// Direction of a transfer, seen from the host.
#[derive(Debug, Clone, Copy, PartialEq, Eq, Hash, Structural)]
pub enum Direction {
    In,
    Out,
}

/// The name of a direction.
pub open spec fn direction_label(direction: Direction) -> Seq<char> {
    match direction {
        Direction::In => seq!['i', 'n'],
        Direction::Out => seq!['o', 'u', 't'],
    }
}

impl Direction {
    /// `in` or `out`.
    pub fn label(self) -> (label: &'static str)
        ensures
            label@ == direction_label(self),
    {
        match self {
            Direction::In => {
                proof {
                    reveal_strlit("in");
                }
                "in"
            },
            Direction::Out => {
                proof {
                    reveal_strlit("out");
                }
                "out"
            },
        }
    }
}

/// USB transfer types, numbered as USBPcap numbers them.
#[derive(Debug, Clone, Copy, PartialEq, Eq, Hash, Structural)]
pub enum TransferType {
    Isochronous,
    Interrupt,
    Control,
    Bulk,
    Unknown(u8),
}

/// The transfer type of a raw USBPcap transfer number.
pub open spec fn transfer_type_of(value: u8) -> TransferType {
    if value == 0 {
        TransferType::Isochronous
    } else if value == 1 {
        TransferType::Interrupt
    } else if value == 2 {
        TransferType::Control
    } else if value == 3 {
        TransferType::Bulk
    } else {
        TransferType::Unknown(value)
    }
}

impl From<u8> for TransferType {
    fn from(value: u8) -> (transfer: TransferType) {
        match value {
            0 => TransferType::Isochronous,
            1 => TransferType::Interrupt,
            2 => TransferType::Control,
            3 => TransferType::Bulk,
            other => TransferType::Unknown(other),
        }
    }
}

impl vstd::std_specs::convert::FromSpecImpl<u8> for TransferType {
    open spec fn obeys_from_spec() -> bool {
        true
    }

    open spec fn from_spec(value: u8) -> TransferType {
        transfer_type_of(value)
    }
}

/// The name of a transfer type; unknown numbers read `unknown-<n>`.
pub open spec fn transfer_label(transfer: TransferType) -> Seq<char> {
    match transfer {
        TransferType::Isochronous => "isochronous"@,
        TransferType::Interrupt => "interrupt"@,
        TransferType::Control => "control"@,
        TransferType::Bulk => "bulk"@,
        TransferType::Unknown(value) => "unknown-"@ + decimal(value as nat),
    }
}

impl TransferType {
    /// The transfer type's name.
    pub fn label(self) -> (label: String)
        ensures
            label@ == transfer_label(self),
    {
        let mut label = String::new();
        match self {
            TransferType::Isochronous => push_str(&mut label, "isochronous"),
            TransferType::Interrupt => push_str(&mut label, "interrupt"),
            TransferType::Control => push_str(&mut label, "control"),
            TransferType::Bulk => push_str(&mut label, "bulk"),
            TransferType::Unknown(value) => {
                push_str(&mut label, "unknown-");
                push_decimal(&mut label, value as u64);
            },
        }
        assert(label@ =~= transfer_label(self));
        label
    }
}

/// Units of the fractional part of a record's timestamp.
#[derive(Debug, Clone, Copy, PartialEq, Eq, Structural)]
pub enum TimestampResolution {
    Microseconds,
    Nanoseconds,
}

/// When a packet was captured: whole seconds and a fraction in the
/// capture's resolution (the pair that the capture file stores).
#[derive(Debug, Clone, Copy, PartialEq, Eq, Structural)]
pub struct Timestamp {
    pub seconds: u32,
    pub fraction: u32,
    pub resolution: TimestampResolution,
}

/// One USB transfer as USBPcap recorded it.
#[derive(Debug)]
pub struct UsbPacket {
    pub frame_number: u64,
    pub timestamp: Timestamp,
    pub captured_length: u32,
    pub original_length: u32,
    pub header_length: u16,
    pub irp_id: u64,
    pub status: u32,
    pub function: u16,
    pub info: u8,
    pub bus: u16,
    pub device: u16,
    pub endpoint: u8,
    pub direction: Direction,
    pub transfer_type: TransferType,
    pub declared_data_length: u32,
    pub captured_payload_length: usize,
    pub truncated: bool,
    pub payload: Vec<u8>,
}

/// Why a record could not be read as a USBPcap packet.
#[derive(Debug, Clone, Copy, PartialEq, Eq, Structural)]
pub enum UsbPcapError {
    TooShort { frame_number: u64, length: usize },
    InvalidHeaderLength { frame_number: u64, header_length: u16 },
    HeaderExceedsPacket { frame_number: u64, header_length: u16, length: usize },
}

/// Little-endian value of two bytes.
pub open spec fn le_u16(b: Seq<u8>, at: int) -> u16 {
    (b[at] + 256 * b[at + 1]) as u16
}

/// Little-endian value of four bytes.
pub open spec fn le_u32(b: Seq<u8>, at: int) -> u32 {
    (b[at] + 256 * b[at + 1] + 65536 * b[at + 2] + 16777216 * b[at + 3]) as u32
}

/// Little-endian value of eight bytes.
pub open spec fn le_u64(b: Seq<u8>, at: int) -> u64 {
    (le_u32(b, at) + 4294967296 * le_u32(b, at + 4)) as u64
}

/// Big-endian value of two bytes.
pub open spec fn be_u16(b: Seq<u8>, at: int) -> u16 {
    (256 * b[at] + b[at + 1]) as u16
}

/// Big-endian value of four bytes.
pub open spec fn be_u32(b: Seq<u8>, at: int) -> u32 {
    (16777216 * b[at] + 65536 * b[at + 1] + 256 * b[at + 2] + b[at + 3]) as u32
}

/// The little-endian `u16` at `offset`, if the bytes are there.
pub fn read_u16_le(bytes: &[u8], offset: usize) -> (value: Option<u16>)
    ensures
        offset + 2 <= bytes@.len() <==> value is Some,
        value matches Some(v) ==> v == le_u16(bytes@, offset as int),
{
    if offset > bytes.len() || bytes.len() - offset < 2 {
        return None;
    }
    Some(bytes[offset] as u16 + (bytes[offset + 1] as u16) * 256)
}

/// The little-endian `u32` at `offset`, if the bytes are there.
pub fn read_u32_le(bytes: &[u8], offset: usize) -> (value: Option<u32>)
    ensures
        offset + 4 <= bytes@.len() <==> value is Some,
        value matches Some(v) ==> v == le_u32(bytes@, offset as int),
{
    if offset > bytes.len() || bytes.len() - offset < 4 {
        return None;
    }
    Some(
        bytes[offset] as u32 + (bytes[offset + 1] as u32) * 256 + (bytes[offset + 2] as u32) * 65536
            + (bytes[offset + 3] as u32) * 16777216,
    )
}

/// The little-endian `u64` at `offset`, if the bytes are there.
pub fn read_u64_le(bytes: &[u8], offset: usize) -> (value: Option<u64>)
    ensures
        offset + 8 <= bytes@.len() <==> value is Some,
        value matches Some(v) ==> v == le_u64(bytes@, offset as int),
{
    if offset > bytes.len() || bytes.len() - offset < 8 {
        return None;
    }
    let low = read_u32_le(bytes, offset).unwrap();
    let high = read_u32_le(bytes, offset + 4).unwrap();
    Some(low as u64 + (high as u64) * 4294967296)
}

/// Why `bytes` is not a USBPcap packet, if it is not one.
pub open spec fn usbpcap_error(frame_number: u64, bytes: Seq<u8>) -> Option<UsbPcapError> {
    if bytes.len() < USBPCAP_BASE_HEADER_LEN {
        Some(UsbPcapError::TooShort { frame_number, length: bytes.len() as usize })
    } else if le_u16(bytes, 0) < USBPCAP_BASE_HEADER_LEN {
        Some(UsbPcapError::InvalidHeaderLength { frame_number, header_length: le_u16(bytes, 0) })
    } else if le_u16(bytes, 0) > bytes.len() {
        Some(
            UsbPcapError::HeaderExceedsPacket {
                frame_number,
                header_length: le_u16(bytes, 0),
                length: bytes.len() as usize,
            },
        )
    } else {
        None
    }
}

/// `packet` is what the record `bytes` (of frame `frame_number`) holds.
pub open spec fn is_packet_of(
    packet: UsbPacket,
    frame_number: u64,
    timestamp: Timestamp,
    captured_length: u32,
    original_length: u32,
    bytes: Seq<u8>,
) -> bool {
    let header_length = le_u16(bytes, 0);
    let endpoint = bytes[21];
    let payload = bytes.subrange(header_length as int, bytes.len() as int);
    &&& packet.frame_number == frame_number
    &&& packet.timestamp == timestamp
    &&& packet.captured_length == captured_length
    &&& packet.original_length == original_length
    &&& packet.header_length == header_length
    &&& packet.irp_id == le_u64(bytes, 2)
    &&& packet.status == le_u32(bytes, 10)
    &&& packet.function == le_u16(bytes, 14)
    &&& packet.info == bytes[16]
    &&& packet.bus == le_u16(bytes, 17)
    &&& packet.device == le_u16(bytes, 19)
    &&& packet.endpoint == endpoint
    &&& packet.direction == (if endpoint >= 128 {
        Direction::In
    } else {
        Direction::Out
    })
    &&& packet.transfer_type == transfer_type_of(bytes[22])
    &&& packet.declared_data_length == le_u32(bytes, 23)
    &&& packet.captured_payload_length == payload.len()
    &&& packet.truncated == (payload.len() < le_u32(bytes, 23))
    &&& packet.payload@ == payload
}

/// Reads one USBPcap record: the pseudo-header fields and the payload that
/// follows the header.
pub fn parse_usbpcap_packet(
    frame_number: u64,
    timestamp: Timestamp,
    captured_length: u32,
    original_length: u32,
    bytes: &[u8],
) -> (result: Result<UsbPacket, UsbPcapError>)
    ensures
        match usbpcap_error(frame_number, bytes@) {
            Some(error) => result == Err::<UsbPacket, UsbPcapError>(error),
            None => result matches Ok(packet) && is_packet_of(
                packet,
                frame_number,
                timestamp,
                captured_length,
                original_length,
                bytes@,
            ),
        },
{
    if bytes.len() < USBPCAP_BASE_HEADER_LEN {
        return Err(UsbPcapError::TooShort { frame_number, length: bytes.len() });
    }
    let header_length = read_u16_le(bytes, 0).unwrap();
    let header_length_usize = header_length as usize;
    if header_length_usize < USBPCAP_BASE_HEADER_LEN {
        return Err(UsbPcapError::InvalidHeaderLength { frame_number, header_length });
    }
    if header_length_usize > bytes.len() {
        return Err(
            UsbPcapError::HeaderExceedsPacket { frame_number, header_length, length: bytes.len() },
        );
    }
    let irp_id = read_u64_le(bytes, 2).unwrap();
    let status = read_u32_le(bytes, 10).unwrap();
    let function = read_u16_le(bytes, 14).unwrap();
    let info = bytes[16];
    let bus = read_u16_le(bytes, 17).unwrap();
    let device = read_u16_le(bytes, 19).unwrap();
    let endpoint = bytes[21];
    let transfer_raw = bytes[22];
    let declared_data_length = read_u32_le(bytes, 23).unwrap();
    let direction = if endpoint >= 0x80 {
        Direction::In
    } else {
        Direction::Out
    };
    let mut payload: Vec<u8> = Vec::new();
    let mut i = header_length_usize;
    while i < bytes.len()
        invariant
            header_length_usize <= i <= bytes@.len(),
            payload@ == bytes@.subrange(header_length_usize as int, i as int),
        decreases bytes.len() - i,
    {
        payload.push(bytes[i]);
        i = i + 1;
        assert(payload@ =~= bytes@.subrange(header_length_usize as int, i as int));
    }
    let captured_payload_length = payload.len();
    let truncated = (captured_payload_length as u64) < (declared_data_length as u64);
    Ok(
        UsbPacket {
            frame_number,
            timestamp,
            captured_length,
            original_length,
            header_length,
            irp_id,
            status,
            function,
            info,
            bus,
            device,
            endpoint,
            direction,
            transfer_type: TransferType::from(transfer_raw),
            declared_data_length,
            captured_payload_length,
            truncated,
            payload,
        },
    )
}

/// The endpoint key of a packet: bus and device as three-digit decimals,
/// endpoint number as two hexadecimal digits, and the direction.
pub open spec fn endpoint_key_of(bus: u16, device: u16, endpoint: u8, direction: Direction) -> Seq<
    char,
> {
    "bus"@ + padded_decimal(bus as nat, 3) + "-device"@ + padded_decimal(device as nat, 3)
        + "-ep"@ + hex_byte((endpoint % 16) as u8) + "-"@ + direction_label(direction)
}

impl UsbPacket {
    /// The endpoint address without its direction bit.
    pub fn endpoint_number(&self) -> (number: u8)
        ensures
            number == self.endpoint % 16,
    {
        let endpoint = self.endpoint;
        assert(endpoint & 0x0f == endpoint % 16) by (bit_vector);
        endpoint & 0x0f
    }

    /// `bus<bus>-device<device>-ep<number>-<direction>`, the key by which
    /// packets are grouped per endpoint.
    pub fn endpoint_key(&self) -> (key: String)
        ensures
            key@ == endpoint_key_of(self.bus, self.device, self.endpoint, self.direction),
    {
        let mut key = String::new();
        push_str(&mut key, "bus");
        push_padded_decimal(&mut key, self.bus as u64, 3);
        push_str(&mut key, "-device");
        push_padded_decimal(&mut key, self.device as u64, 3);
        push_str(&mut key, "-ep");
        push_hex_byte(&mut key, self.endpoint_number());
        push_str(&mut key, "-");
        push_str(&mut key, self.direction.label());
        assert(key@ =~= endpoint_key_of(self.bus, self.device, self.endpoint, self.direction));
        key
    }
}

/// A decoded packet's IRP identifier is the full 64-bit little-endian
/// number in bytes 2 to 9 of its record.
pub proof fn law_irp_id_is_eight_bytes(
    packet: UsbPacket,
    frame_number: u64,
    timestamp: Timestamp,
    captured_length: u32,
    original_length: u32,
    bytes: Seq<u8>,
)
    requires
        bytes.len() >= USBPCAP_BASE_HEADER_LEN,
        is_packet_of(packet, frame_number, timestamp, captured_length, original_length, bytes),
    ensures
        packet.irp_id == bytes[2] + 0x100 * bytes[3] + 0x1_0000 * bytes[4] + 0x100_0000 * bytes[5]
            + 0x1_0000_0000 * bytes[6] + 0x100_0000_0000 * bytes[7] + 0x1_0000_0000_0000 * bytes[8]
            + 0x100_0000_0000_0000 * bytes[9],
{
    let low = bytes[2] + 0x100 * bytes[3] + 0x1_0000 * bytes[4] + 0x100_0000 * bytes[5];
    let high = bytes[6] + 0x100 * bytes[7] + 0x1_0000 * bytes[8] + 0x100_0000 * bytes[9];
    assert(le_u32(bytes, 2) == low);
    assert(le_u32(bytes, 6) == high);
    assert(low + 0x1_0000_0000 * high <= u64::MAX);
}

} // verus!
