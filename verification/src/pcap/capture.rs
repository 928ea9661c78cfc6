//! Classic PCAP files of USBPcap captures: the global header, then records
//! of a 16-byte header and the captured bytes.
use vstd::prelude::*;

use crate::pcap::usbpcap::{
    be_u16, be_u32, is_packet_of, le_u16, le_u32, parse_usbpcap_packet, usbpcap_error, Timestamp,
    TimestampResolution, UsbPacket, UsbPcapError, LINKTYPE_USBPCAP,
};

verus! {

/// Length of the PCAP global header.
pub const GLOBAL_HEADER_LENGTH: usize = 24;

/// Length of a PCAP record header.
pub const RECORD_HEADER_LENGTH: usize = 16;

/// Byte order of a capture's header fields.
#[derive(Debug, Clone, Copy, PartialEq, Eq, Structural)]
pub enum ByteOrder {
    Little,
    Big,
}

/// Why a capture file cannot be decoded.
#[derive(Debug, Clone, Copy)]
pub enum CaptureError {
    /// Fewer bytes than a global header.
    TooSmall,
    /// The magic number is not one of classic PCAP's four.
    UnsupportedMagic { magic: [u8; 4] },
    /// The capture is not of USBPcap's link type.
    UnsupportedLinkType { link_type: u32 },
    /// A record header runs past the end of the file.
    TruncatedRecordHeader { offset: usize },
    /// A record's end cannot be represented.
    RecordLengthOverflow,
    /// A record's bytes run past the end of the file.
    TruncatedRecord { offset: usize, expected: u32, remaining: usize },
}

/// A decoded capture.
#[derive(Debug)]
pub struct Capture {
    pub pcap_major: u16,
    pub pcap_minor: u16,
    pub snaplen: u32,
    pub link_type: u32,
    pub byte_order: ByteOrder,
    pub timestamp_resolution: TimestampResolution,
    pub packets: Vec<UsbPacket>,
    pub skipped_records: u64,
    /// Why each skipped record was skipped, in file order.
    pub skip_reasons: Vec<UsbPcapError>,
}

/// Byte order and timestamp resolution of a classic PCAP magic number.
pub open spec fn magic_format(magic: Seq<u8>) -> Option<(ByteOrder, TimestampResolution)> {
    if magic =~= seq![0xd4u8, 0xc3u8, 0xb2u8, 0xa1u8] {
        Some((ByteOrder::Little, TimestampResolution::Microseconds))
    } else if magic =~= seq![0xa1u8, 0xb2u8, 0xc3u8, 0xd4u8] {
        Some((ByteOrder::Big, TimestampResolution::Microseconds))
    } else if magic =~= seq![0x4du8, 0x3cu8, 0xb2u8, 0xa1u8] {
        Some((ByteOrder::Little, TimestampResolution::Nanoseconds))
    } else if magic =~= seq![0xa1u8, 0xb2u8, 0x3cu8, 0x4du8] {
        Some((ByteOrder::Big, TimestampResolution::Nanoseconds))
    } else {
        None
    }
}

/// The 16-bit field at `at` in the given byte order.
pub open spec fn field_u16(b: Seq<u8>, at: int, order: ByteOrder) -> u16 {
    match order {
        ByteOrder::Little => le_u16(b, at),
        ByteOrder::Big => be_u16(b, at),
    }
}

/// The 32-bit field at `at` in the given byte order.
pub open spec fn field_u32(b: Seq<u8>, at: int, order: ByteOrder) -> u32 {
    match order {
        ByteOrder::Little => le_u32(b, at),
        ByteOrder::Big => be_u32(b, at),
    }
}

/// A four-byte sequence that differs from each magic number is none.
proof fn lemma_no_magic(m: Seq<u8>)
    requires
        m.len() == 4,
        !(m[0] == 0xd4 && m[1] == 0xc3 && m[2] == 0xb2 && m[3] == 0xa1),
        !(m[0] == 0xa1 && m[1] == 0xb2 && m[2] == 0xc3 && m[3] == 0xd4),
        !(m[0] == 0x4d && m[1] == 0x3c && m[2] == 0xb2 && m[3] == 0xa1),
        !(m[0] == 0xa1 && m[1] == 0xb2 && m[2] == 0x3c && m[3] == 0x4d),
    ensures
        magic_format(m) is None,
{
    let a = seq![0xd4u8, 0xc3u8, 0xb2u8, 0xa1u8];
    let b = seq![0xa1u8, 0xb2u8, 0xc3u8, 0xd4u8];
    let c = seq![0x4du8, 0x3cu8, 0xb2u8, 0xa1u8];
    let d = seq![0xa1u8, 0xb2u8, 0x3cu8, 0x4du8];
    if m =~= a {
        assert(m[0] == a[0] && m[1] == a[1] && m[2] == a[2] && m[3] == a[3]);
    }
    if m =~= b {
        assert(m[0] == b[0] && m[1] == b[1] && m[2] == b[2] && m[3] == b[3]);
    }
    if m =~= c {
        assert(m[0] == c[0] && m[1] == c[1] && m[2] == c[2] && m[3] == c[3]);
    }
    if m =~= d {
        assert(m[0] == d[0] && m[1] == d[1] && m[2] == d[2] && m[3] == d[3]);
    }
}

/// Reads a magic number.
pub fn parse_magic(bytes: &[u8]) -> (result: Result<(ByteOrder, TimestampResolution), CaptureError>)
    requires
        bytes@.len() == 4,
    ensures
        match magic_format(bytes@) {
            Some(format) => result == Ok::<_, CaptureError>(format),
            None => result == Err::<(ByteOrder, TimestampResolution), _>(
                CaptureError::UnsupportedMagic { magic: [bytes@[0], bytes@[1], bytes@[2], bytes@[3]] },
            ),
        },
{
    let (a, b, c, d) = (bytes[0], bytes[1], bytes[2], bytes[3]);
    let ghost m = bytes@;
    assert(m =~= seq![a, b, c, d]);
    if a == 0xd4 && b == 0xc3 && c == 0xb2 && d == 0xa1 {
        Ok((ByteOrder::Little, TimestampResolution::Microseconds))
    } else if a == 0xa1 && b == 0xb2 && c == 0xc3 && d == 0xd4 {
        Ok((ByteOrder::Big, TimestampResolution::Microseconds))
    } else if a == 0x4d && b == 0x3c && c == 0xb2 && d == 0xa1 {
        Ok((ByteOrder::Little, TimestampResolution::Nanoseconds))
    } else if a == 0xa1 && b == 0xb2 && c == 0x3c && d == 0x4d {
        Ok((ByteOrder::Big, TimestampResolution::Nanoseconds))
    } else {
        proof {
            lemma_no_magic(m);
        }
        Err(CaptureError::UnsupportedMagic { magic: [a, b, c, d] })
    }
}

/// The 16-bit field at `offset`, if the bytes are there.
pub fn read_u16(bytes: &[u8], offset: usize, order: ByteOrder) -> (value: Option<u16>)
    ensures
        offset + 2 <= bytes@.len() <==> value is Some,
        value matches Some(v) ==> v == field_u16(bytes@, offset as int, order),
{
    if offset > bytes.len() || bytes.len() - offset < 2 {
        return None;
    }
    let (b0, b1) = (bytes[offset], bytes[offset + 1]);
    match order {
        ByteOrder::Little => Some(b0 as u16 + (b1 as u16) * 256),
        ByteOrder::Big => Some((b0 as u16) * 256 + b1 as u16),
    }
}

/// The 32-bit field at `offset`, if the bytes are there.
pub fn read_u32(bytes: &[u8], offset: usize, order: ByteOrder) -> (value: Option<u32>)
    ensures
        offset + 4 <= bytes@.len() <==> value is Some,
        value matches Some(v) ==> v == field_u32(bytes@, offset as int, order),
{
    if offset > bytes.len() || bytes.len() - offset < 4 {
        return None;
    }
    let (b0, b1, b2, b3) = (bytes[offset], bytes[offset + 1], bytes[offset + 2], bytes[offset + 3]);
    match order {
        ByteOrder::Little => Some(
            b0 as u32 + (b1 as u32) * 256 + (b2 as u32) * 65536 + (b3 as u32) * 16777216,
        ),
        ByteOrder::Big => Some(
            (b0 as u32) * 16777216 + (b1 as u32) * 65536 + (b2 as u32) * 256 + b3 as u32,
        ),
    }
}

/// A record as the file frames it.
pub struct PcapRecord {
    pub frame_number: u64,
    pub timestamp: Timestamp,
    pub captured_length: u32,
    pub original_length: u32,
    pub bytes: Seq<u8>,
}

/// Why the global header rules the file out, if it does.
pub open spec fn header_error(bytes: Seq<u8>) -> Option<CaptureError> {
    if bytes.len() < GLOBAL_HEADER_LENGTH {
        Some(CaptureError::TooSmall)
    } else {
        match magic_format(bytes.subrange(0, 4)) {
            None => Some(
                CaptureError::UnsupportedMagic { magic: [bytes[0], bytes[1], bytes[2], bytes[3]] },
            ),
            Some((order, _)) => if field_u32(bytes, 20, order) != LINKTYPE_USBPCAP {
                Some(CaptureError::UnsupportedLinkType { link_type: field_u32(bytes, 20, order) })
            } else {
                None
            },
        }
    }
}

/// The records from `offset` to the end of the file, numbered after
/// `frame_number`, or the framing error that stops the walk.
pub open spec fn records(
    bytes: Seq<u8>,
    offset: int,
    order: ByteOrder,
    resolution: TimestampResolution,
    frame_number: u64,
) -> Result<Seq<PcapRecord>, CaptureError>
    decreases bytes.len() - offset,
{
    if offset < 0 || offset >= bytes.len() {
        Ok(Seq::empty())
    } else if bytes.len() - offset < RECORD_HEADER_LENGTH {
        Err(CaptureError::TruncatedRecordHeader { offset: offset as usize })
    } else {
        let captured = field_u32(bytes, offset + 8, order);
        let start = offset + RECORD_HEADER_LENGTH;
        let end = start + captured;
        if end > usize::MAX {
            Err(CaptureError::RecordLengthOverflow)
        } else if end > bytes.len() {
            Err(
                CaptureError::TruncatedRecord {
                    offset: start as usize,
                    expected: captured,
                    remaining: (bytes.len() - start) as usize,
                },
            )
        } else {
            let record = PcapRecord {
                frame_number: (frame_number + 1) as u64,
                timestamp: Timestamp {
                    seconds: field_u32(bytes, offset, order),
                    fraction: field_u32(bytes, offset + 4, order),
                    resolution,
                },
                captured_length: captured,
                original_length: field_u32(bytes, offset + 12, order),
                bytes: bytes.subrange(start, end),
            };
            match records(bytes, end, order, resolution, (frame_number + 1) as u64) {
                Ok(rest) => Ok(seq![record] + rest),
                Err(error) => Err(error),
            }
        }
    }
}

/// Why a record is skipped, if it is.
pub open spec fn record_error(record: PcapRecord) -> Option<UsbPcapError> {
    usbpcap_error(record.frame_number, record.bytes)
}

/// The records that hold USBPcap packets.
pub open spec fn good_records(records: Seq<PcapRecord>) -> Seq<PcapRecord> {
    records.filter(|record: PcapRecord| record_error(record) is None)
}

/// The records that are skipped.
pub open spec fn bad_records(records: Seq<PcapRecord>) -> Seq<PcapRecord> {
    records.filter(|record: PcapRecord| record_error(record) is Some)
}

/// The packets, skip count and skip reasons of a capture are those of
/// `records`: one packet per good record, in order, and one reason per
/// skipped record, in order.
pub open spec fn holds_records(
    packets: Seq<UsbPacket>,
    skipped: u64,
    reasons: Seq<UsbPcapError>,
    records: Seq<PcapRecord>,
) -> bool {
    let good = good_records(records);
    let bad = bad_records(records);
    &&& packets.len() == good.len()
    &&& forall|i: int|
        0 <= i < good.len() ==> is_packet_of(
            #[trigger] packets[i],
            good[i].frame_number,
            good[i].timestamp,
            good[i].captured_length,
            good[i].original_length,
            good[i].bytes,
        )
    &&& skipped == bad.len()
    &&& reasons == bad.map_values(|record: PcapRecord| record_error(record)->0)
}

/// The result of walking all records after a prefix `done`.
pub open spec fn after_prefix(
    done: Seq<PcapRecord>,
    rest: Result<Seq<PcapRecord>, CaptureError>,
) -> Result<Seq<PcapRecord>, CaptureError> {
    match rest {
        Ok(rest) => Ok(done + rest),
        Err(error) => Err(error),
    }
}

/// Decodes a whole capture file: the global header, then every record.
/// A record that is not a USBPcap packet is skipped and its reason kept;
/// a record that the file does not frame stops the decoding.
pub fn parse_capture(bytes: &[u8]) -> (result: Result<Capture, CaptureError>)
    ensures
        match header_error(bytes@) {
            Some(error) => result == Err::<Capture, CaptureError>(error),
            None => {
                let (order, resolution) = magic_format(bytes@.subrange(0, 4))->0;
                match records(bytes@, GLOBAL_HEADER_LENGTH as int, order, resolution, 0) {
                    Err(error) => result == Err::<Capture, CaptureError>(error),
                    Ok(all) => result matches Ok(capture) && {
                        &&& capture.pcap_major == field_u16(bytes@, 4, order)
                        &&& capture.pcap_minor == field_u16(bytes@, 6, order)
                        &&& capture.snaplen == field_u32(bytes@, 16, order)
                        &&& capture.link_type == LINKTYPE_USBPCAP
                        &&& capture.byte_order == order
                        &&& capture.timestamp_resolution == resolution
                        &&& holds_records(
                            capture.packets@,
                            capture.skipped_records,
                            capture.skip_reasons@,
                            all,
                        )
                    },
                }
            },
        },
{
    if bytes.len() < GLOBAL_HEADER_LENGTH {
        return Err(CaptureError::TooSmall);
    }
    let (byte_order, timestamp_resolution) = match parse_magic(&bytes[0..4]) {
        Ok(format) => format,
        Err(error) => {
            return Err(error);
        },
    };
    let pcap_major = read_u16(bytes, 4, byte_order).unwrap();
    let pcap_minor = read_u16(bytes, 6, byte_order).unwrap();
    let snaplen = read_u32(bytes, 16, byte_order).unwrap();
    let link_type = read_u32(bytes, 20, byte_order).unwrap();
    if link_type != LINKTYPE_USBPCAP {
        return Err(CaptureError::UnsupportedLinkType { link_type });
    }
    let ghost all = records(bytes@, GLOBAL_HEADER_LENGTH as int, byte_order, timestamp_resolution, 0);
    let ghost mut done: Seq<PcapRecord> = Seq::empty();
    let mut offset = GLOBAL_HEADER_LENGTH;
    let mut frame_number: u64 = 0;
    let mut packets: Vec<UsbPacket> = Vec::new();
    let mut skipped_records: u64 = 0;
    let mut skip_reasons: Vec<UsbPcapError> = Vec::new();
    assert(done + Seq::<PcapRecord>::empty() =~= done);
    assert(good_records(done) =~= Seq::<PcapRecord>::empty()) by {
        reveal(Seq::filter);
    }
    assert(bad_records(done) =~= Seq::<PcapRecord>::empty()) by {
        reveal(Seq::filter);
    }
    assert(skip_reasons@ =~= bad_records(done).map_values(|record: PcapRecord| record_error(record)->0));
    while offset < bytes.len()
        invariant
            GLOBAL_HEADER_LENGTH <= offset <= bytes@.len(),
            header_error(bytes@) is None,
            magic_format(bytes@.subrange(0, 4)) == Some((byte_order, timestamp_resolution)),
            all == records(bytes@, GLOBAL_HEADER_LENGTH as int, byte_order, timestamp_resolution, 0),
            frame_number == done.len(),
            frame_number * 16 <= offset - GLOBAL_HEADER_LENGTH,
            all == after_prefix(
                done,
                records(bytes@, offset as int, byte_order, timestamp_resolution, frame_number),
            ),
            holds_records(packets@, skipped_records, skip_reasons@, done),
            skipped_records <= frame_number,
        decreases bytes.len() - offset,
    {
        if bytes.len() - offset < RECORD_HEADER_LENGTH {
            return Err(CaptureError::TruncatedRecordHeader { offset });
        }
        let ts_seconds = read_u32(bytes, offset, byte_order).unwrap();
        let ts_fraction = read_u32(bytes, offset + 4, byte_order).unwrap();
        let captured_length = read_u32(bytes, offset + 8, byte_order).unwrap();
        let original_length = read_u32(bytes, offset + 12, byte_order).unwrap();
        offset = offset + RECORD_HEADER_LENGTH;
        let record_end = match offset.checked_add(captured_length as usize) {
            Some(end) => end,
            None => {
                return Err(CaptureError::RecordLengthOverflow);
            },
        };
        if record_end > bytes.len() {
            return Err(
                CaptureError::TruncatedRecord {
                    offset,
                    expected: captured_length,
                    remaining: bytes.len() - offset,
                },
            );
        }
        frame_number = frame_number + 1;
        let timestamp = Timestamp {
            seconds: ts_seconds,
            fraction: ts_fraction,
            resolution: timestamp_resolution,
        };
        let record_bytes = &bytes[offset..record_end];
        let ghost record = PcapRecord {
            frame_number,
            timestamp,
            captured_length,
            original_length,
            bytes: record_bytes@,
        };
        proof {
            let tail = records(bytes@, record_end as int, byte_order, timestamp_resolution, frame_number);
            match tail {
                Ok(rest) => {
                    assert(done + (seq![record] + rest) =~= done.push(record) + rest);
                },
                Err(_) => {},
            }
            let good_pred = |r: PcapRecord| record_error(r) is None;
            let bad_pred = |r: PcapRecord| record_error(r) is Some;
            done.lemma_filter_push(record, good_pred);
            done.lemma_filter_push(record, bad_pred);
        }
        match parse_usbpcap_packet(
            frame_number,
            timestamp,
            captured_length,
            original_length,
            record_bytes,
        ) {
            Ok(packet) => {
                packets.push(packet);
            },
            Err(error) => {
                skipped_records = skipped_records + 1;
                skip_reasons.push(error);
                proof {
                    let bad = bad_records(done);
                    let f = |record: PcapRecord| record_error(record)->0;
                    assert(bad.push(record).map_values(f) =~= bad.map_values(f).push(error));
                }
            },
        }
        proof {
            done = done.push(record);
        }
        offset = record_end;
    }
    assert(records(bytes@, offset as int, byte_order, timestamp_resolution, frame_number) == Ok::<
        Seq<PcapRecord>,
        CaptureError,
    >(Seq::empty()));
    assert(done + Seq::<PcapRecord>::empty() =~= done);
    Ok(
        Capture {
            pcap_major,
            pcap_minor,
            snaplen,
            link_type,
            byte_order,
            timestamp_resolution,
            packets,
            skipped_records,
            skip_reasons,
        },
    )
}

} // verus!
