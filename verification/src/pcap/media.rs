//! Planning the extraction of JPEG images from a capture: which bytes of
//! which packet become which file, and the manifest that lists them.
use vstd::prelude::*;

use crate::pcap::jpeg::{
    all_occurrences, find_all, find_subslice, first_occurrence, jpeg_dimensions,
    lemma_occurrences, spec_jpeg_dimensions, JPEG_EOI, JPEG_SOI,
};
use crate::pcap::usbpcap::{Direction, Timestamp, TransferType, UsbPacket};
use crate::text::{padded_decimal, push_padded_decimal, push_str};

verus! {

/// Kinds of media the extractor recognises.
#[derive(Debug, Clone, Copy, PartialEq, Eq, Structural)]
pub enum MediaKind {
    Jpeg,
}

/// One extracted file and where it came from.
#[derive(Debug)]
pub struct MediaEntry {
    pub kind: MediaKind,
    pub file: String,
    pub frame_number: u64,
    pub timestamp: Timestamp,
    pub bus: u16,
    pub device: u16,
    pub endpoint: u8,
    pub captured_packet_payload: usize,
    pub declared_packet_payload: u32,
    pub packet_truncated: bool,
    pub media_offset: usize,
    pub media_size: usize,
    pub complete: bool,
    pub width: Option<u16>,
    pub height: Option<u16>,
}

/// The list of extracted files with its counts.
#[derive(Debug)]
pub struct MediaManifest {
    pub format_version: u32,
    pub extracted_files: usize,
    pub complete_files: usize,
    pub partial_files: usize,
    pub entries: Vec<MediaEntry>,
}

/// Packets that may carry images: bulk transfers to the device with at
/// least a marker's worth of payload.
pub open spec fn is_candidate(packet: UsbPacket) -> bool {
    &&& packet.direction == Direction::Out
    &&& packet.transfer_type == TransferType::Bulk
    &&& packet.payload@.len() >= 2
}

/// Whether a packet may carry images.
pub fn is_candidate_packet(packet: &UsbPacket) -> (candidate: bool)
    ensures
        candidate == is_candidate(*packet),
{
    packet.direction == Direction::Out && packet.transfer_type == TransferType::Bulk
        && packet.payload.len() >= 2
}

/// The images a packet yields: (packet index, part, start) for each
/// start-of-image marker of a candidate packet.
pub open spec fn packet_pieces(packet: UsbPacket, index: int) -> Seq<(int, int, int)> {
    if is_candidate(packet) {
        let starts = all_occurrences(packet.payload@, JPEG_SOI@);
        Seq::new(starts.len(), |k: int| (index, k, starts[k] as int))
    } else {
        Seq::empty()
    }
}

/// The images of all packets, packet by packet.
pub open spec fn pieces(packets: Seq<UsbPacket>) -> Seq<(int, int, int)>
    decreases packets.len(),
{
    if packets.len() == 0 {
        Seq::empty()
    } else {
        pieces(packets.drop_last()) + packet_pieces(packets.last(), packets.len() - 1)
    }
}

/// Where an image that starts at `start` ends, and whether its
/// end-of-image marker was found (else it runs to the end of the payload).
pub open spec fn jpeg_extent(payload: Seq<u8>, start: int) -> (int, bool) {
    match first_occurrence(payload.subrange(start + 2, payload.len() as int), JPEG_EOI@) {
        Some(relative) => (start + 2 + relative + 2, true),
        None => (payload.len() as int, false),
    }
}

/// `image-<sequence>-frame-<frame>-part-<part>.jpg`, with six, ten and two
/// digits, and `partial.jpg` for an image without its end marker.
pub open spec fn jpeg_file_name(sequence: nat, frame: nat, part: nat, complete: bool) -> Seq<char> {
    "image-"@ + padded_decimal(sequence, 6) + "-frame-"@ + padded_decimal(frame, 10) + "-part-"@
        + padded_decimal(part, 2) + "."@ + if complete {
        "jpg"@
    } else {
        "partial.jpg"@
    }
}

/// `entry` describes the image of `packet` that is its `part`-th (from 0),
/// starts at `start`, and is the `sequence`-th image overall.
pub open spec fn is_entry_of(
    entry: MediaEntry,
    packet: UsbPacket,
    part: int,
    start: int,
    sequence: int,
) -> bool {
    let (end, complete) = jpeg_extent(packet.payload@, start);
    let image = packet.payload@.subrange(start, end);
    &&& entry.kind == MediaKind::Jpeg
    &&& entry.file@ == jpeg_file_name(sequence as nat, packet.frame_number as nat, (part + 1) as nat, complete)
    &&& entry.frame_number == packet.frame_number
    &&& entry.timestamp == packet.timestamp
    &&& entry.bus == packet.bus
    &&& entry.device == packet.device
    &&& entry.endpoint == packet.endpoint % 16
    &&& entry.captured_packet_payload == packet.captured_payload_length
    &&& entry.declared_packet_payload == packet.declared_data_length
    &&& entry.packet_truncated == packet.truncated
    &&& entry.media_offset == start
    &&& entry.media_size == end - start
    &&& entry.complete == complete
    &&& (entry.width, entry.height) == spec_jpeg_dimensions(image)
}

/// Total payload bytes of the packets.
pub open spec fn total_payload(packets: Seq<UsbPacket>) -> int
    decreases packets.len(),
{
    if packets.len() == 0 {
        0
    } else {
        total_payload(packets.drop_last()) + packets.last().payload@.len()
    }
}

proof fn lemma_occurrences_count(haystack: Seq<u8>, needle: Seq<u8>, upto: int)
    requires
        upto >= 0,
    ensures
        crate::pcap::jpeg::occurrences(haystack, needle, upto).len() <= upto,
    decreases upto,
{
    if upto > 0 {
        lemma_occurrences_count(haystack, needle, upto - 1);
    }
}

/// There are no more images than payload bytes.
proof fn lemma_pieces_count(packets: Seq<UsbPacket>)
    ensures
        pieces(packets).len() <= total_payload(packets),
    decreases packets.len(),
{
    if packets.len() > 0 {
        lemma_pieces_count(packets.drop_last());
        let p = packets.last();
        if is_candidate(p) {
            lemma_occurrences_count(p.payload@, JPEG_SOI@, p.payload@.len() - 2 + 1);
        }
    }
}

/// The file name `jpeg_file_name(sequence, frame, part, complete)`.
pub fn jpeg_file_name_string(sequence: u64, frame: u64, part: u64, complete: bool) -> (name: String)
    ensures
        name@ == jpeg_file_name(sequence as nat, frame as nat, part as nat, complete),
{
    let mut name = String::new();
    push_str(&mut name, "image-");
    push_padded_decimal(&mut name, sequence, 6);
    push_str(&mut name, "-frame-");
    push_padded_decimal(&mut name, frame, 10);
    push_str(&mut name, "-part-");
    push_padded_decimal(&mut name, part, 2);
    push_str(&mut name, ".");
    if complete {
        push_str(&mut name, "jpg");
    } else {
        push_str(&mut name, "partial.jpg");
    }
    assert(name@ =~= jpeg_file_name(sequence as nat, frame as nat, part as nat, complete));
    name
}

/// Every JPEG image in the capture's candidate packets, in packet order and
/// marker order within a packet, paired with the index of its packet: the
/// extractor writes `payload[media_offset..media_offset + media_size]` of
/// that packet to the entry's file.
pub fn plan_jpeg_extraction(packets: &[UsbPacket]) -> (plan: Vec<(usize, MediaEntry)>)
    requires
        total_payload(packets@) < u64::MAX,
    ensures
        plan@.len() == pieces(packets@).len(),
        forall|j: int|
            0 <= j < plan@.len() ==> {
                let (index, part, start) = #[trigger] pieces(packets@)[j];
                &&& plan@[j].0 == index
                &&& 0 <= index < packets@.len()
                &&& is_entry_of(plan@[j].1, packets@[index], part, start, j + 1)
            },
{
    let mut plan: Vec<(usize, MediaEntry)> = Vec::new();
    let mut sequence: u64 = 0;
    let mut p: usize = 0;
    proof {
        lemma_pieces_count(packets@);
    }
    while p < packets.len()
        invariant
            p <= packets@.len(),
            total_payload(packets@) < u64::MAX,
            sequence == plan@.len(),
            plan@.len() == pieces(packets@.take(p as int)).len(),
            forall|j: int|
                0 <= j < plan@.len() ==> {
                    let (index, part, start) = #[trigger] pieces(packets@.take(p as int))[j];
                    &&& plan@[j].0 == index
                    &&& 0 <= index < p
                    &&& is_entry_of(plan@[j].1, packets@[index], part, start, j + 1)
                },
        decreases packets.len() - p,
    {
        let packet = &packets[p];
        let ghost before = plan@;
        let ghost prefix = packets@.take(p as int);
        proof {
            assert(packets@.take(p + 1).drop_last() =~= prefix);
            lemma_pieces_count(packets@.take(p + 1));
            lemma_total_payload_prefix(packets@, p as int + 1);
        }
        if is_candidate_packet(packet) {
            let payload_len = packet.payload.len();
            let starts = find_all(packet.payload.as_slice(), &JPEG_SOI);
            proof {
                lemma_occurrences(packet.payload@, JPEG_SOI@, payload_len - 2 + 1);
            }
            let mut k: usize = 0;
            while k < starts.len()
                invariant
                    k <= starts@.len(),
                    starts@ == all_occurrences(packet.payload@, JPEG_SOI@),
                    payload_len == packet.payload@.len(),
                    forall|q: int|
                        0 <= q < starts@.len() ==> crate::text::occurs_at(
                            packet.payload@,
                            JPEG_SOI@,
                            #[trigger] starts@[q] as int,
                        ),
                    *packet == packets@[p as int],
                    is_candidate(*packet),
                    p < packets@.len(),
                    sequence == plan@.len(),
                    plan@.len() == before.len() + k,
                    plan@.len() <= pieces(packets@.take(p + 1)).len(),
                    pieces(packets@.take(p + 1)).len() <= total_payload(packets@),
                    total_payload(packets@) < u64::MAX,
                    plan@.subrange(0, before.len() as int) == before,
                    before.len() == pieces(prefix).len(),
                    prefix == packets@.take(p as int),
                    pieces(packets@.take(p + 1)) == pieces(prefix) + packet_pieces(*packet, p as int),
                    forall|j: int|
                        0 <= j < plan@.len() ==> {
                            let (index, part, start) = #[trigger] pieces(packets@.take(p + 1))[j];
                            &&& plan@[j].0 == index
                            &&& 0 <= index <= p
                            &&& is_entry_of(plan@[j].1, packets@[index], part, start, j + 1)
                        },
                decreases starts@.len() - k,
            {
                let start = starts[k];
                sequence = sequence + 1;
                let payload = packet.payload.as_slice();
                let tail = &payload[start + 2..payload.len()];
                let (end, complete) = match find_subslice(tail, &JPEG_EOI) {
                    Some(relative) => {
                        proof {
                            lemma_occurrences(tail@, JPEG_EOI@, tail@.len() - 2 + 1);
                            assert(crate::text::occurs_at(tail@, JPEG_EOI@, relative as int));
                        }
                        (start + 2 + relative + 2, true)
                    },
                    None => (payload.len(), false),
                };
                let image = &payload[start..end];
                let (width, height) = jpeg_dimensions(image);
                let entry = MediaEntry {
                    kind: MediaKind::Jpeg,
                    file: jpeg_file_name_string(sequence, packet.frame_number, (k as u64) + 1, complete),
                    frame_number: packet.frame_number,
                    timestamp: packet.timestamp,
                    bus: packet.bus,
                    device: packet.device,
                    endpoint: packet.endpoint_number(),
                    captured_packet_payload: packet.captured_payload_length,
                    declared_packet_payload: packet.declared_data_length,
                    packet_truncated: packet.truncated,
                    media_offset: start,
                    media_size: end - start,
                    complete,
                    width,
                    height,
                };
                plan.push((p, entry));
                k = k + 1;
            }
        }
        p = p + 1;
    }
    assert(packets@.take(packets@.len() as int) =~= packets@);
    plan
}

proof fn lemma_total_payload_prefix(packets: Seq<UsbPacket>, n: int)
    requires
        0 <= n <= packets.len(),
    ensures
        total_payload(packets.take(n)) <= total_payload(packets),
    decreases packets.len(),
{
    if n < packets.len() {
        assert(packets.drop_last().take(n) =~= packets.take(n));
        lemma_total_payload_prefix(packets.drop_last(), n);
    } else {
        assert(packets.take(n) =~= packets);
    }
}

/// The manifest of a list of entries: how many there are, and how many
/// are complete or partial.
pub fn media_manifest(entries: Vec<MediaEntry>) -> (manifest: MediaManifest)
    ensures
        manifest.format_version == 1,
        manifest.entries@ == entries@,
        manifest.extracted_files == entries@.len(),
        manifest.complete_files == entries@.filter(|entry: MediaEntry| entry.complete).len(),
        manifest.partial_files == entries@.len() - manifest.complete_files,
{
    let mut complete_files: usize = 0;
    let mut i: usize = 0;
    while i < entries.len()
        invariant
            i <= entries@.len(),
            complete_files == entries@.take(i as int).filter(|entry: MediaEntry| entry.complete).len(),
            complete_files <= i,
        decreases entries.len() - i,
    {
        proof {
            assert(entries@.take(i + 1) =~= entries@.take(i as int).push(entries@[i as int]));
            entries@.take(i as int).lemma_filter_push(entries@[i as int], |entry: MediaEntry| entry.complete);
        }
        if entries[i].complete {
            complete_files = complete_files + 1;
        }
        i = i + 1;
    }
    assert(entries@.take(entries@.len() as int) =~= entries@);
    let extracted_files = entries.len();
    MediaManifest {
        format_version: 1,
        extracted_files,
        complete_files,
        partial_files: extracted_files - complete_files,
        entries,
    }
}

} // verus!
