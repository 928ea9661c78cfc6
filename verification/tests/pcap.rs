use openlcd::pcap::capture::{parse_capture, parse_magic, read_u16, read_u32, ByteOrder, CaptureError};
use openlcd::pcap::jpeg::{find_all, find_subslice, is_start_of_frame, jpeg_dimensions, JPEG_EOI, JPEG_SOI};
use openlcd::pcap::media::{jpeg_file_name_string, media_manifest, plan_jpeg_extraction, MediaKind};
use openlcd::pcap::statistics::{common_prefixes, endpoint_statistics};
use openlcd::pcap::usbpcap::{
    parse_usbpcap_packet, read_u16_le, read_u32_le, read_u64_le, Direction, Timestamp,
    TimestampResolution, TransferType, UsbPcapError, USBPCAP_BASE_HEADER_LEN,
};

fn at_zero() -> Timestamp {
    Timestamp { seconds: 0, fraction: 0, resolution: TimestampResolution::Microseconds }
}

fn usb_record(bus: u16, device: u16, endpoint: u8, transfer: u8, payload: &[u8], declared: u32) -> Vec<u8> {
    let mut packet = vec![0_u8; USBPCAP_BASE_HEADER_LEN];
    packet[0..2].copy_from_slice(&27_u16.to_le_bytes());
    packet[17..19].copy_from_slice(&bus.to_le_bytes());
    packet[19..21].copy_from_slice(&device.to_le_bytes());
    packet[21] = endpoint;
    packet[22] = transfer;
    packet[23..27].copy_from_slice(&declared.to_le_bytes());
    packet.extend_from_slice(payload);
    packet
}

fn capture_file(records: &[Vec<u8>]) -> Vec<u8> {
    let mut file = vec![0xd4, 0xc3, 0xb2, 0xa1];
    file.extend_from_slice(&2_u16.to_le_bytes());
    file.extend_from_slice(&4_u16.to_le_bytes());
    file.extend_from_slice(&0_u32.to_le_bytes());
    file.extend_from_slice(&0_u32.to_le_bytes());
    file.extend_from_slice(&65535_u32.to_le_bytes());
    file.extend_from_slice(&249_u32.to_le_bytes());
    for (i, record) in records.iter().enumerate() {
        file.extend_from_slice(&(10 + i as u32).to_le_bytes());
        file.extend_from_slice(&500_u32.to_le_bytes());
        file.extend_from_slice(&(record.len() as u32).to_le_bytes());
        file.extend_from_slice(&(record.len() as u32).to_le_bytes());
        file.extend_from_slice(record);
    }
    file
}

fn packets_of(records: &[Vec<u8>]) -> Vec<openlcd::pcap::usbpcap::UsbPacket> {
    parse_capture(&capture_file(records)).unwrap().packets
}

#[test]
fn finds_all_markers() {
    let bytes = [0xff, 0xd8, 1, 2, 0xff, 0xd8];

    assert_eq!(find_all(&bytes, &JPEG_SOI), vec![0, 4],);
}

#[test]
fn detects_complete_jpeg_end() {
    let bytes = [0xff, 0xd8, 1, 2, 3, 0xff, 0xd9, 9];

    let start = 0;

    let end = find_subslice(&bytes[start + 2..], &JPEG_EOI).map(|relative| start + 2 + relative + 2);

    assert_eq!(end, Some(7));
}

#[test]
fn parses_observed_bulk_header() {
    let mut packet = vec![0_u8; USBPCAP_BASE_HEADER_LEN];
    packet[0..2].copy_from_slice(&27_u16.to_le_bytes());
    packet[14..16].copy_from_slice(&9_u16.to_le_bytes());
    packet[17..19].copy_from_slice(&3_u16.to_le_bytes());
    packet[19..21].copy_from_slice(&2_u16.to_le_bytes());
    packet[21] = 0x02;
    packet[22] = 3;
    packet[23..27].copy_from_slice(&4_u32.to_le_bytes());
    packet.extend_from_slice(&[0xff, 0xd8, 0xff, 0xe0]);

    let parsed = parse_usbpcap_packet(1, at_zero(), 31, 31, &packet).unwrap();
    assert_eq!(parsed.bus, 3);
    assert_eq!(parsed.device, 2);
    assert_eq!(parsed.endpoint, 0x02);
    assert_eq!(parsed.direction, Direction::Out);
    assert_eq!(parsed.transfer_type, TransferType::Bulk);
    assert_eq!(parsed.payload, [0xff, 0xd8, 0xff, 0xe0]);
    assert!(!parsed.truncated);
}

#[test]
fn usbpcap_errors_name_the_frame() {
    assert_eq!(
        parse_usbpcap_packet(5, at_zero(), 3, 3, &[1, 2, 3]).unwrap_err(),
        UsbPcapError::TooShort { frame_number: 5, length: 3 }
    );
    let mut short_header = vec![0_u8; USBPCAP_BASE_HEADER_LEN];
    short_header[0..2].copy_from_slice(&20_u16.to_le_bytes());
    assert_eq!(
        parse_usbpcap_packet(6, at_zero(), 27, 27, &short_header).unwrap_err(),
        UsbPcapError::InvalidHeaderLength { frame_number: 6, header_length: 20 }
    );
    let mut long_header = vec![0_u8; USBPCAP_BASE_HEADER_LEN];
    long_header[0..2].copy_from_slice(&40_u16.to_le_bytes());
    assert_eq!(
        parse_usbpcap_packet(7, at_zero(), 27, 27, &long_header).unwrap_err(),
        UsbPcapError::HeaderExceedsPacket { frame_number: 7, header_length: 40, length: 27 }
    );
}

#[test]
fn in_endpoints_and_truncation() {
    let record = usb_record(1, 4, 0x81, 1, &[1, 2], 10);
    let parsed = parse_usbpcap_packet(2, at_zero(), 29, 40, &record).unwrap();
    assert_eq!(parsed.direction, Direction::In);
    assert_eq!(parsed.transfer_type, TransferType::Interrupt);
    assert!(parsed.truncated);
    assert_eq!(parsed.captured_payload_length, 2);
    assert_eq!(parsed.declared_data_length, 10);
    assert_eq!(parsed.endpoint_number(), 1);
    assert_eq!(parsed.endpoint_key(), "bus001-device004-ep01-in");
}

#[test]
fn transfer_types_and_labels() {
    assert_eq!(TransferType::from(0), TransferType::Isochronous);
    assert_eq!(TransferType::from(2), TransferType::Control);
    assert_eq!(TransferType::from(9), TransferType::Unknown(9));
    assert_eq!(TransferType::Unknown(9).label(), "unknown-9");
    assert_eq!(TransferType::Bulk.label(), "bulk");
    assert_eq!(Direction::Out.label(), "out");
}

#[test]
fn reads_little_and_big_endian_fields() {
    let bytes = [1, 2, 3, 4, 5, 6, 7, 8];
    assert_eq!(read_u16_le(&bytes, 0), Some(0x0201));
    assert_eq!(read_u32_le(&bytes, 4), Some(0x08070605));
    assert_eq!(read_u64_le(&bytes, 0), Some(0x0807060504030201));
    assert_eq!(read_u16_le(&bytes, 7), None);
    assert_eq!(read_u16(&bytes, 0, ByteOrder::Big), Some(0x0102));
    assert_eq!(read_u32(&bytes, 0, ByteOrder::Big), Some(0x01020304));
    assert_eq!(read_u32(&bytes, 5, ByteOrder::Little), None);
}

#[test]
fn recognises_the_four_magic_numbers() {
    assert_eq!(parse_magic(&[0xd4, 0xc3, 0xb2, 0xa1]).unwrap(), (ByteOrder::Little, TimestampResolution::Microseconds));
    assert_eq!(parse_magic(&[0xa1, 0xb2, 0xc3, 0xd4]).unwrap(), (ByteOrder::Big, TimestampResolution::Microseconds));
    assert_eq!(parse_magic(&[0x4d, 0x3c, 0xb2, 0xa1]).unwrap(), (ByteOrder::Little, TimestampResolution::Nanoseconds));
    assert_eq!(parse_magic(&[0xa1, 0xb2, 0x3c, 0x4d]).unwrap(), (ByteOrder::Big, TimestampResolution::Nanoseconds));
    assert!(matches!(parse_magic(&[0, 1, 2, 3]), Err(CaptureError::UnsupportedMagic { magic: [0, 1, 2, 3] })));
}

#[test]
fn parses_a_capture_and_keeps_skip_reasons() {
    let good = usb_record(3, 2, 0x02, 3, &[0xff, 0xd8, 0xff, 0xd9], 4);
    let bad = vec![1, 2, 3];
    let capture = parse_capture(&capture_file(&[good, bad])).unwrap();
    assert_eq!(capture.pcap_major, 2);
    assert_eq!(capture.pcap_minor, 4);
    assert_eq!(capture.snaplen, 65535);
    assert_eq!(capture.link_type, 249);
    assert_eq!(capture.byte_order, ByteOrder::Little);
    assert_eq!(capture.packets.len(), 1);
    assert_eq!(capture.packets[0].frame_number, 1);
    assert_eq!(capture.packets[0].timestamp, Timestamp { seconds: 10, fraction: 500, resolution: TimestampResolution::Microseconds });
    assert_eq!(capture.skipped_records, 1);
    assert_eq!(capture.skip_reasons, vec![UsbPcapError::TooShort { frame_number: 2, length: 3 }]);
}

#[test]
fn capture_errors() {
    assert!(matches!(parse_capture(&[0; 10]), Err(CaptureError::TooSmall)));
    let mut wrong_link = capture_file(&[]);
    wrong_link[20..24].copy_from_slice(&1_u32.to_le_bytes());
    assert!(matches!(parse_capture(&wrong_link), Err(CaptureError::UnsupportedLinkType { link_type: 1 })));
    let mut cut_header = capture_file(&[]);
    cut_header.extend_from_slice(&[0; 8]);
    assert!(matches!(parse_capture(&cut_header), Err(CaptureError::TruncatedRecordHeader { offset: 24 })));
    let mut cut_record = capture_file(&[vec![0; 30]]);
    cut_record.truncate(24 + 16 + 10);
    assert!(matches!(
        parse_capture(&cut_record),
        Err(CaptureError::TruncatedRecord { offset: 40, expected: 30, remaining: 10 })
    ));
}

#[test]
fn reads_jpeg_dimensions_from_the_frame_header() {
    let jpeg = [0xff, 0xd8, 0xff, 0xe0, 0x00, 0x04, 0x00, 0x00, 0xff, 0xc0, 0x00, 0x08, 0x08, 0x00, 0x10, 0x00, 0x20, 0x03];
    assert_eq!(jpeg_dimensions(&jpeg), (Some(32), Some(16)));
    assert_eq!(jpeg_dimensions(&[0xff, 0xd8, 0xff, 0xd9]), (None, None));
    assert!(is_start_of_frame(0xc0));
    assert!(is_start_of_frame(0xcf));
    assert!(!is_start_of_frame(0xc4));
    assert!(!is_start_of_frame(0xc8));
    assert!(!is_start_of_frame(0xcc));
}

#[test]
fn plans_complete_and_partial_images() {
    let payload = [0xff, 0xd8, 1, 0xff, 0xd9, 0xff, 0xd8, 2, 3];
    let records = vec![usb_record(3, 2, 0x02, 3, &payload, payload.len() as u32), usb_record(3, 2, 0x82, 3, &payload, 9)];
    let packets = packets_of(&records);
    let plan = plan_jpeg_extraction(&packets);
    assert_eq!(plan.len(), 2);
    assert_eq!(plan[0].0, 0);
    assert_eq!(plan[0].1.file, "image-000001-frame-0000000001-part-01.jpg");
    assert_eq!(plan[0].1.media_offset, 0);
    assert_eq!(plan[0].1.media_size, 5);
    assert!(plan[0].1.complete);
    assert_eq!(plan[1].1.file, "image-000002-frame-0000000001-part-02.partial.jpg");
    assert_eq!(plan[1].1.media_offset, 5);
    assert_eq!(plan[1].1.media_size, 4);
    assert!(!plan[1].1.complete);
    assert_eq!(plan[1].1.kind, MediaKind::Jpeg);
    let manifest = media_manifest(plan.into_iter().map(|(_, entry)| entry).collect());
    assert_eq!(manifest.format_version, 1);
    assert_eq!(manifest.extracted_files, 2);
    assert_eq!(manifest.complete_files, 1);
    assert_eq!(manifest.partial_files, 1);
}

#[test]
fn file_names_are_zero_padded() {
    assert_eq!(jpeg_file_name_string(12, 345, 6, true), "image-000012-frame-0000000345-part-06.jpg");
}

#[test]
fn counts_common_prefixes_by_count_then_text() {
    let records = vec![
        usb_record(1, 1, 0x02, 3, &[0xaa, 0xbb, 0x01], 3),
        usb_record(1, 1, 0x02, 3, &[0xaa, 0xbb, 0x02], 3),
        usb_record(1, 1, 0x02, 3, &[0x01], 1),
        usb_record(1, 1, 0x02, 3, &[], 0),
        usb_record(1, 1, 0x02, 3, &[0x00, 0x10], 2),
    ];
    let packets = packets_of(&records);
    let top = common_prefixes(&packets, 2, 10);
    assert_eq!(top, vec![("aabb".to_owned(), 2), ("0010".to_owned(), 1), ("01".to_owned(), 1)]);
    assert_eq!(common_prefixes(&packets, 2, 1), vec![("aabb".to_owned(), 2)]);
    assert!(common_prefixes(&packets, 0, 10).is_empty());
    assert!(common_prefixes(&packets, 2, 0).is_empty());
}

#[test]
fn summarises_each_endpoint() {
    let records = vec![
        usb_record(1, 2, 0x02, 3, &[1, 2, 3], 3),
        usb_record(1, 2, 0x02, 3, &[1], 8),
        usb_record(1, 2, 0x81, 1, &[], 0),
        usb_record(1, 2, 0x02, 2, &[], 0),
    ];
    let packets = packets_of(&records);
    let stats = endpoint_statistics(&packets);
    assert_eq!(stats.len(), 2);
    assert_eq!(stats[0].0, "bus001-device002-ep01-in");
    assert_eq!(stats[0].1.packet_count, 1);
    assert_eq!(stats[0].1.packets_with_payload, 0);
    assert_eq!(stats[0].1.min_payload_size, 0);
    assert_eq!(stats[0].1.max_payload_size, 0);
    assert_eq!(stats[1].0, "bus001-device002-ep02-out");
    let out = &stats[1].1;
    assert_eq!(out.packet_count, 3);
    assert_eq!(out.packets_with_payload, 2);
    assert_eq!(out.captured_payload_bytes, 4);
    assert_eq!(out.declared_payload_bytes, 11);
    assert_eq!(out.min_payload_size, 1);
    assert_eq!(out.max_payload_size, 3);
    assert_eq!(out.truncated_packets, 1);
    assert_eq!(out.transfer_counts, vec![(TransferType::Bulk, 2), (TransferType::Control, 1)]);
    let counted: u64 = stats.iter().map(|(_, endpoint)| endpoint.packet_count).sum();
    assert_eq!(counted, packets.len() as u64);
}

#[test]
fn groups_dumps_by_endpoint_with_offsets() {
    let records = vec![
        usb_record(1, 2, 0x02, 3, &[1, 2, 3], 3),
        usb_record(1, 2, 0x81, 1, &[9], 1),
        usb_record(1, 2, 0x02, 3, &[], 0),
        usb_record(1, 2, 0x02, 3, &[4, 5], 2),
        usb_record(1, 3, 0x02, 3, &[], 0),
    ];
    let packets = packets_of(&records);
    let dumps = openlcd::pcap::dump::endpoint_dumps(&packets);
    assert_eq!(dumps.len(), 2);
    assert_eq!(dumps[0].key, "bus001-device002-ep01-in");
    assert_eq!(dumps[0].packets, vec![(1, 0)]);
    assert_eq!(dumps[1].key, "bus001-device002-ep02-out");
    assert_eq!(dumps[1].packets, vec![(0, 0), (3, 3)]);
}

#[test]
fn writes_the_text_report() {
    let records = vec![usb_record(1, 2, 0x02, 3, &[0xaa, 0xbb], 2), usb_record(1, 2, 0x02, 3, &[0xaa, 0xbb], 4)];
    let capture = parse_capture(&capture_file(&records)).unwrap();
    let endpoints = endpoint_statistics(&capture.packets);
    let averages = vec![format!("{:.2}", 4.0_f64 / 2.0)];
    let prefixes = common_prefixes(&capture.packets, 8, 20);
    let report = openlcd::pcap::report::text_report(&capture, &endpoints, &averages, 8, &prefixes);
    let expected = [
        "Capture",
        "=======",
        "PCAP version: 2.4",
        "byte order: Little",
        "timestamp resolution: Microseconds",
        "snaplen: 65535",
        "link type: 249",
        "parsed USB packets: 2",
        "skipped records: 0",
        "",
        "Endpoints",
        "=========",
        "bus001-device002-ep02-out",
        "  packets: 2",
        "  packets with payload: 2",
        "  captured payload bytes: 4",
        "  declared payload bytes: 6",
        "  minimum payload: 2",
        "  maximum payload: 2",
        "  average payload: 2.00",
        "  truncated packets: 1",
        "",
        "Common payload prefixes (8 bytes)",
        "==================================",
        "         2  aabb",
        "",
    ]
    .join("\n");
    assert_eq!(report, expected);
    let whole = openlcd::pcap::report::capture_text_report(&capture, 8, 20, &averages);
    assert_eq!(whole, Some(expected));
    assert_eq!(openlcd::pcap::report::capture_text_report(&capture, 8, 20, &Vec::new()), None);
}
