//! The plain-text report of a decoded capture.
//!
//! The average payload of an endpoint is a floating-point quotient printed
//! with two decimals; it is formatted by the caller and handed over as
//! text, one per endpoint.
use vstd::prelude::*;

use crate::pcap::capture::{ByteOrder, Capture};
use crate::pcap::statistics::{
    captured_of, common_prefixes, declared_of, endpoint_statistics, is_top_prefixes, statistics_of, sum_of,
    EndpointStats,
};
use crate::pcap::usbpcap::UsbPacket;
use crate::pcap::usbpcap::TimestampResolution;
use crate::text::{decimal, decimal_string, occurs_at, push_char, push_decimal, push_str};

verus! {

/// The name of a byte order as the report prints it.
pub open spec fn byte_order_name(order: ByteOrder) -> Seq<char> {
    match order {
        ByteOrder::Little => "Little"@,
        ByteOrder::Big => "Big"@,
    }
}

/// The name of a timestamp resolution as the report prints it.
pub open spec fn resolution_name(resolution: TimestampResolution) -> Seq<char> {
    match resolution {
        TimestampResolution::Microseconds => "Microseconds"@,
        TimestampResolution::Nanoseconds => "Nanoseconds"@,
    }
}

/// `text` preceded by spaces up to `width` characters.
pub open spec fn right_aligned(text: Seq<char>, width: nat) -> Seq<char> {
    if text.len() < width {
        Seq::new((width - text.len()) as nat, |i: int| ' ') + text
    } else {
        text
    }
}

/// The capture section and the start of the endpoint section.
pub open spec fn report_header(capture: Capture) -> Seq<char> {
    "Capture\n=======\nPCAP version: "@ + decimal(capture.pcap_major as nat) + "."@ + decimal(
        capture.pcap_minor as nat,
    ) + "\nbyte order: "@ + byte_order_name(capture.byte_order) + "\ntimestamp resolution: "@
        + resolution_name(capture.timestamp_resolution) + "\nsnaplen: "@ + decimal(
        capture.snaplen as nat,
    ) + "\nlink type: "@ + decimal(capture.link_type as nat) + "\nparsed USB packets: "@ + decimal(
        capture.packets@.len(),
    ) + "\nskipped records: "@ + decimal(capture.skipped_records as nat)
        + "\n\nEndpoints\n=========\n"@
}

/// The lines of one endpoint, with its average payload already formatted.
pub open spec fn endpoint_block(key: Seq<char>, stats: EndpointStats, average: Seq<char>) -> Seq<
    char,
> {
    key + "\n  packets: "@ + decimal(stats.packet_count as nat) + "\n  packets with payload: "@
        + decimal(stats.packets_with_payload as nat) + "\n  captured payload bytes: "@ + decimal(
        stats.captured_payload_bytes as nat,
    ) + "\n  declared payload bytes: "@ + decimal(stats.declared_payload_bytes as nat)
        + "\n  minimum payload: "@ + decimal(stats.min_payload_size as nat)
        + "\n  maximum payload: "@ + decimal(stats.max_payload_size as nat)
        + "\n  average payload: "@ + average + "\n  truncated packets: "@ + decimal(
        stats.truncated_packets as nat,
    ) + "\n\n"@
}

/// The blocks of the first `n` endpoints.
pub open spec fn endpoint_blocks(
    endpoints: Seq<(String, EndpointStats)>,
    averages: Seq<String>,
    n: int,
) -> Seq<char>
    decreases n,
{
    if n <= 0 {
        Seq::empty()
    } else {
        endpoint_blocks(endpoints, averages, n - 1) + endpoint_block(
            endpoints[n - 1].0@,
            endpoints[n - 1].1,
            averages[n - 1]@,
        )
    }
}

/// The line of one common prefix: its count right-aligned in ten
/// columns, two spaces, the prefix.
pub open spec fn prefix_line(prefix: (String, u64)) -> Seq<char> {
    right_aligned(decimal(prefix.1 as nat), 10) + "  "@ + prefix.0@ + "\n"@
}

/// The lines of the first `n` prefixes.
pub open spec fn prefix_lines(prefixes: Seq<(String, u64)>, n: int) -> Seq<char>
    decreases n,
{
    if n <= 0 {
        Seq::empty()
    } else {
        prefix_lines(prefixes, n - 1) + prefix_line(prefixes[n - 1])
    }
}

/// The whole report.
pub open spec fn spec_text_report(
    capture: Capture,
    endpoints: Seq<(String, EndpointStats)>,
    averages: Seq<String>,
    prefix_bytes: usize,
    prefixes: Seq<(String, u64)>,
) -> Seq<char> {
    report_header(capture) + endpoint_blocks(endpoints, averages, endpoints.len() as int)
        + "Common payload prefixes ("@ + decimal(prefix_bytes as nat) + " bytes)\n"@
        + "==================================\n"@ + prefix_lines(prefixes, prefixes.len() as int)
}

fn push_byte_order(s: &mut String, order: ByteOrder)
    ensures
        final(s)@ == old(s)@ + byte_order_name(order),
{
    match order {
        ByteOrder::Little => push_str(s, "Little"),
        ByteOrder::Big => push_str(s, "Big"),
    }
}

fn push_resolution(s: &mut String, resolution: TimestampResolution)
    ensures
        final(s)@ == old(s)@ + resolution_name(resolution),
{
    match resolution {
        TimestampResolution::Microseconds => push_str(s, "Microseconds"),
        TimestampResolution::Nanoseconds => push_str(s, "Nanoseconds"),
    }
}

fn push_right_aligned(s: &mut String, text: &str, width: usize)
    ensures
        final(s)@ == old(s)@ + right_aligned(text@, width as nat),
{
    let len = text.unicode_len();
    if len < width {
        let target = width - len;
        let mut padding: usize = 0;
        while padding < target
            invariant
                padding <= target,
                s@ == old(s)@ + Seq::new(padding as nat, |i: int| ' '),
            decreases target - padding,
        {
            push_char(s, ' ');
            padding = padding + 1;
            assert(s@ =~= old(s)@ + Seq::new(padding as nat, |i: int| ' '));
        }
    }
    push_str(s, text);
    assert(s@ =~= old(s)@ + right_aligned(text@, width as nat));
}

fn push_header(s: &mut String, capture: &Capture)
    ensures
        final(s)@ == old(s)@ + report_header(*capture),
{
    push_str(s, "Capture\n=======\nPCAP version: ");
    push_decimal(s, capture.pcap_major as u64);
    push_str(s, ".");
    push_decimal(s, capture.pcap_minor as u64);
    push_str(s, "\nbyte order: ");
    push_byte_order(s, capture.byte_order);
    push_str(s, "\ntimestamp resolution: ");
    push_resolution(s, capture.timestamp_resolution);
    push_str(s, "\nsnaplen: ");
    push_decimal(s, capture.snaplen as u64);
    push_str(s, "\nlink type: ");
    push_decimal(s, capture.link_type as u64);
    push_str(s, "\nparsed USB packets: ");
    push_decimal(s, capture.packets.len() as u64);
    push_str(s, "\nskipped records: ");
    push_decimal(s, capture.skipped_records);
    push_str(s, "\n\nEndpoints\n=========\n");
    assert(s@ =~= old(s)@ + report_header(*capture));
}

#[verifier::spinoff_prover]
fn push_endpoint(s: &mut String, key: &String, stats: &EndpointStats, average: &String)
    ensures
        final(s)@ == old(s)@ + endpoint_block(key@, *stats, average@),
{
    push_str(s, key.as_str());
    push_str(s, "\n  packets: ");
    push_decimal(s, stats.packet_count);
    push_str(s, "\n  packets with payload: ");
    push_decimal(s, stats.packets_with_payload);
    push_str(s, "\n  captured payload bytes: ");
    push_decimal(s, stats.captured_payload_bytes);
    push_str(s, "\n  declared payload bytes: ");
    push_decimal(s, stats.declared_payload_bytes);
    push_str(s, "\n  minimum payload: ");
    push_decimal(s, stats.min_payload_size as u64);
    push_str(s, "\n  maximum payload: ");
    push_decimal(s, stats.max_payload_size as u64);
    push_str(s, "\n  average payload: ");
    push_str(s, average.as_str());
    push_str(s, "\n  truncated packets: ");
    push_decimal(s, stats.truncated_packets);
    push_str(s, "\n\n");
    assert(s@ =~= old(s)@ + endpoint_block(key@, *stats, average@));
}

/// The text report of a capture: the capture's header fields, a block per
/// endpoint (from `endpoint_statistics`, with `averages[i]` the formatted
/// average payload of endpoint `i`), and the common payload prefixes (from
/// `common_prefixes`) counted over `prefix_bytes` bytes.
pub fn text_report(
    capture: &Capture,
    endpoints: &Vec<(String, EndpointStats)>,
    averages: &Vec<String>,
    prefix_bytes: usize,
    prefixes: &Vec<(String, u64)>,
) -> (report: String)
    requires
        averages@.len() == endpoints@.len(),
    ensures
        report@ == spec_text_report(*capture, endpoints@, averages@, prefix_bytes, prefixes@),
{
    let mut report = String::new();
    push_header(&mut report, capture);
    let ghost header = report@;
    let mut i: usize = 0;
    while i < endpoints.len()
        invariant
            i <= endpoints@.len(),
            averages@.len() == endpoints@.len(),
            header == report_header(*capture),
            report@ == header + endpoint_blocks(endpoints@, averages@, i as int),
        decreases endpoints.len() - i,
    {
        push_endpoint(&mut report, &endpoints[i].0, &endpoints[i].1, &averages[i]);
        i = i + 1;
        assert(report@ =~= header + endpoint_blocks(endpoints@, averages@, i as int));
    }
    let ghost middle = report@;
    push_str(&mut report, "Common payload prefixes (");
    push_decimal(&mut report, prefix_bytes as u64);
    push_str(&mut report, " bytes)\n");
    push_str(&mut report, "==================================\n");
    let ghost titled = report@;
    let mut j: usize = 0;
    while j < prefixes.len()
        invariant
            j <= prefixes@.len(),
            report@ == titled + prefix_lines(prefixes@, j as int),
        decreases prefixes.len() - j,
    {
        let count = decimal_string(prefixes[j].1);
        push_right_aligned(&mut report, count.as_str(), 10);
        push_str(&mut report, "  ");
        push_str(&mut report, prefixes[j].0.as_str());
        push_str(&mut report, "\n");
        j = j + 1;
        assert(report@ =~= titled + prefix_lines(prefixes@, j as int));
    }
    assert(report@ =~= spec_text_report(*capture, endpoints@, averages@, prefix_bytes, prefixes@));
    report
}

/// The text report of a whole capture: its per-endpoint statistics (as
/// `endpoint_statistics` makes them) and its `top_prefixes` most common
/// payload prefixes over `prefix_bytes` bytes (as `common_prefixes` makes
/// them), with `averages[i]` the formatted average payload of endpoint `i`
/// in key order. `None` when there is not one average per endpoint.
pub fn capture_text_report(
    capture: &Capture,
    prefix_bytes: usize,
    top_prefixes: usize,
    averages: &Vec<String>,
) -> (report: Option<String>)
    requires
        capture.packets@.len() + 1 < u64::MAX,
        sum_of(capture.packets@, |p: UsbPacket| captured_of(p)) < u64::MAX,
        sum_of(capture.packets@, |p: UsbPacket| declared_of(p)) < u64::MAX,
    ensures
        exists|endpoints: Seq<(String, EndpointStats)>, prefixes: Seq<(String, u64)>|
            #[trigger] statistics_of(endpoints, capture.packets@, true) && #[trigger] is_top_prefixes(
                prefixes,
                capture.packets@,
                prefix_bytes,
                top_prefixes,
            ) && match report {
                Some(text) => averages@.len() == endpoints.len() && text@ == spec_text_report(
                    *capture,
                    endpoints,
                    averages@,
                    prefix_bytes,
                    prefixes,
                ),
                None => averages@.len() != endpoints.len(),
            },
{
    let endpoints = endpoint_statistics(capture.packets.as_slice());
    let prefixes = common_prefixes(capture.packets.as_slice(), prefix_bytes, top_prefixes);
    let report = if averages.len() == endpoints.len() {
        Some(text_report(capture, &endpoints, averages, prefix_bytes, &prefixes))
    } else {
        None
    };
    assert(statistics_of(endpoints@, capture.packets@, true) && is_top_prefixes(
        prefixes@,
        capture.packets@,
        prefix_bytes,
        top_prefixes,
    ));
    report
}

proof fn lemma_blocks_grow(
    endpoints: Seq<(String, EndpointStats)>,
    averages: Seq<String>,
    i: int,
    n: int,
)
    requires
        0 <= i < n,
    ensures
        endpoint_blocks(endpoints, averages, n).subrange(
            endpoint_blocks(endpoints, averages, i).len() as int,
            (endpoint_blocks(endpoints, averages, i).len() + endpoint_block(
                endpoints[i].0@,
                endpoints[i].1,
                averages[i]@,
            ).len()) as int,
        ) == endpoint_block(endpoints[i].0@, endpoints[i].1, averages[i]@),
        endpoint_blocks(endpoints, averages, i + 1).len() <= endpoint_blocks(endpoints, averages, n).len(),
    decreases n - i,
{
    let block = endpoint_block(endpoints[i].0@, endpoints[i].1, averages[i]@);
    let before = endpoint_blocks(endpoints, averages, i);
    if n == i + 1 {
        assert(endpoint_blocks(endpoints, averages, n) == before + block);
        assert((before + block).subrange(before.len() as int, (before.len() + block.len()) as int) =~= block);
    } else {
        lemma_blocks_grow(endpoints, averages, i, n - 1);
        let shorter = endpoint_blocks(endpoints, averages, n - 1);
        let last = endpoint_block(endpoints[n - 1].0@, endpoints[n - 1].1, averages[n - 1]@);
        assert(endpoint_blocks(endpoints, averages, n) == shorter + last);
        assert((shorter + last).subrange(before.len() as int, (before.len() + block.len()) as int)
            =~= shorter.subrange(before.len() as int, (before.len() + block.len()) as int));
    }
}

/// The report holds one block per endpoint, in the endpoints' order: the
/// block of endpoint `i` (its key, its statistics and `averages[i]`)
/// stands right after the header and the blocks of the endpoints before
/// it.
pub proof fn law_report_has_every_endpoint(
    capture: Capture,
    endpoints: Seq<(String, EndpointStats)>,
    averages: Seq<String>,
    prefix_bytes: usize,
    prefixes: Seq<(String, u64)>,
    i: int,
)
    requires
        averages.len() == endpoints.len(),
        0 <= i < endpoints.len(),
    ensures
        occurs_at(
            spec_text_report(capture, endpoints, averages, prefix_bytes, prefixes),
            endpoint_block(endpoints[i].0@, endpoints[i].1, averages[i]@),
            (report_header(capture).len() + endpoint_blocks(endpoints, averages, i).len()) as int,
        ),
{
    let header = report_header(capture);
    let n = endpoints.len() as int;
    let blocks = endpoint_blocks(endpoints, averages, n);
    let block = endpoint_block(endpoints[i].0@, endpoints[i].1, averages[i]@);
    let start = endpoint_blocks(endpoints, averages, i).len() as int;
    lemma_blocks_grow(endpoints, averages, i, n);
    assert(endpoint_blocks(endpoints, averages, i + 1) == endpoint_blocks(endpoints, averages, i) + block);
    let report = spec_text_report(capture, endpoints, averages, prefix_bytes, prefixes);
    let tail = "Common payload prefixes ("@ + decimal(prefix_bytes as nat) + " bytes)\n"@
        + "==================================\n"@ + prefix_lines(prefixes, prefixes.len() as int);
    assert(report == header + blocks + tail);
    assert(report.subrange(header.len() + start, header.len() + start + block.len())
        =~= blocks.subrange(start, start + block.len()));
}

} // verus!
