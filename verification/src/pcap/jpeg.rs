//! Finding JPEG images in USB payloads and reading their dimensions.
use vstd::prelude::*;

use crate::pcap::usbpcap::{be_u16, Direction, Timestamp, TransferType, UsbPacket};
use crate::text::{occurs_at, padded_decimal, push_padded_decimal, push_str};

verus! {

/// JPEG start-of-image marker.
pub const JPEG_SOI: [u8; 2] = [0xff, 0xd8];

/// JPEG end-of-image marker.
pub const JPEG_EOI: [u8; 2] = [0xff, 0xd9];

/// The positions below `upto` where `needle` occurs in `haystack`, in
/// increasing order.
pub open spec fn occurrences(haystack: Seq<u8>, needle: Seq<u8>, upto: int) -> Seq<usize>
    decreases upto,
{
    if upto <= 0 {
        Seq::empty()
    } else {
        let before = occurrences(haystack, needle, upto - 1);
        if occurs_at(haystack, needle, upto - 1) {
            before.push((upto - 1) as usize)
        } else {
            before
        }
    }
}

/// Every position where a non-empty `needle` occurs in `haystack`.
pub open spec fn all_occurrences(haystack: Seq<u8>, needle: Seq<u8>) -> Seq<usize> {
    if needle.len() == 0 || haystack.len() < needle.len() {
        Seq::empty()
    } else {
        occurrences(haystack, needle, haystack.len() - needle.len() + 1)
    }
}

/// The first position where a non-empty `needle` occurs in `haystack`.
pub open spec fn first_occurrence(haystack: Seq<u8>, needle: Seq<u8>) -> Option<usize> {
    let all = all_occurrences(haystack, needle);
    if all.len() == 0 {
        None
    } else {
        Some(all[0])
    }
}

/// `occurrences` lists exactly the positions below `upto` where the
/// needle occurs, in increasing order.
pub proof fn lemma_occurrences(haystack: Seq<u8>, needle: Seq<u8>, upto: int)
    requires
        upto <= usize::MAX + 1,
    ensures
        forall|k: int|
            0 <= k < occurrences(haystack, needle, upto).len() ==> {
                let p = #[trigger] occurrences(haystack, needle, upto)[k] as int;
                0 <= p < upto && occurs_at(haystack, needle, p)
            },
        forall|a: int, b: int|
            0 <= a < b < occurrences(haystack, needle, upto).len() ==> #[trigger] occurrences(
                haystack,
                needle,
                upto,
            )[a] < #[trigger] occurrences(haystack, needle, upto)[b],
        forall|p: int|
            0 <= p < upto && occurs_at(haystack, needle, p) ==> #[trigger] occurrences(
                haystack,
                needle,
                upto,
            ).contains(p as usize),
    decreases upto,
{
    if upto > 0 {
        lemma_occurrences(haystack, needle, upto - 1);
        let before = occurrences(haystack, needle, upto - 1);
        assert forall|p: int| 0 <= p < upto && occurs_at(haystack, needle, p) implies #[trigger] occurrences(
            haystack,
            needle,
            upto,
        ).contains(p as usize) by {
            if p < upto - 1 {
                assert(before.contains(p as usize));
                let k = choose|k: int| 0 <= k < before.len() && before[k] == p as usize;
                assert(occurrences(haystack, needle, upto)[k] == p as usize);
            } else {
                assert(occurrences(haystack, needle, upto).last() == p as usize);
            }
        }
    }
}

/// All positions where `needle` occurs in `haystack`, in increasing order;
/// none for an empty needle.
pub fn find_all(haystack: &[u8], needle: &[u8]) -> (positions: Vec<usize>)
    ensures
        positions@ == all_occurrences(haystack@, needle@),
{
    if needle.len() == 0 || haystack.len() < needle.len() {
        return Vec::new();
    }
    let limit = haystack.len() - needle.len() + 1;
    let mut positions: Vec<usize> = Vec::new();
    let mut i: usize = 0;
    while i < limit
        invariant
            i <= limit,
            limit == haystack@.len() - needle@.len() + 1,
            needle@.len() > 0,
            positions@ == occurrences(haystack@, needle@, i as int),
        decreases limit - i,
    {
        if bytes_occur_at(haystack, needle, i) {
            positions.push(i);
        }
        i = i + 1;
    }
    positions
}

/// Whether `needle` occurs at position `i` of `haystack`.
pub fn bytes_occur_at(haystack: &[u8], needle: &[u8], i: usize) -> (found: bool)
    requires
        i + needle@.len() <= haystack@.len(),
    ensures
        found == occurs_at(haystack@, needle@, i as int),
{
    let n = haystack.len();
    let mut k: usize = 0;
    while k < needle.len()
        invariant
            n == haystack@.len(),
            k <= needle@.len(),
            i + needle@.len() <= haystack@.len(),
            forall|j: int| 0 <= j < k ==> haystack@[i + j] == needle@[j],
        decreases needle@.len() - k,
    {
        assert(i + k < haystack@.len());
        if haystack[i + k] != needle[k] {
            assert(haystack@.subrange(i as int, i + needle@.len())[k as int] != needle@[k as int]);
            return false;
        }
        k = k + 1;
    }
    assert(haystack@.subrange(i as int, i + needle@.len()) =~= needle@);
    true
}

/// The first position where `needle` occurs in `haystack`; none for an
/// empty needle.
pub fn find_subslice(haystack: &[u8], needle: &[u8]) -> (position: Option<usize>)
    ensures
        position == first_occurrence(haystack@, needle@),
{
    if needle.len() == 0 || haystack.len() < needle.len() {
        return None;
    }
    let limit = haystack.len() - needle.len() + 1;
    let mut i: usize = 0;
    while i < limit
        invariant
            i <= limit,
            limit == haystack@.len() - needle@.len() + 1,
            needle@.len() > 0,
            occurrences(haystack@, needle@, i as int).len() == 0,
        decreases limit - i,
    {
        if bytes_occur_at(haystack, needle, i) {
            proof {
                lemma_occurrences_prefix(haystack@, needle@, i as int + 1, limit as int);
                assert(occurrences(haystack@, needle@, i as int + 1) =~= seq![i]);
                assert(all_occurrences(haystack@, needle@).subrange(0, 1)[0] == i);
            }
            return Some(i);
        }
        i = i + 1;
    }
    None
}

/// Occurrences below a smaller bound are a prefix of those below a larger
/// one.
pub proof fn lemma_occurrences_prefix(haystack: Seq<u8>, needle: Seq<u8>, small: int, large: int)
    requires
        0 <= small <= large,
    ensures
        occurrences(haystack, needle, large).len() >= occurrences(haystack, needle, small).len(),
        occurrences(haystack, needle, large).subrange(
            0,
            occurrences(haystack, needle, small).len() as int,
        ) == occurrences(haystack, needle, small),
    decreases large - small,
{
    if large > small {
        lemma_occurrences_prefix(haystack, needle, small, large - 1);
        let mid = occurrences(haystack, needle, large - 1);
        let big = occurrences(haystack, needle, large);
        let sm = occurrences(haystack, needle, small);
        assert(big.subrange(0, sm.len() as int) =~= mid.subrange(0, sm.len() as int));
    } else {
        assert(occurrences(haystack, needle, large).subrange(
            0,
            occurrences(haystack, needle, small).len() as int,
        ) =~= occurrences(haystack, needle, small));
    }
}

/// Markers that begin a frame header and carry the image's dimensions.
pub open spec fn spec_is_start_of_frame(marker: u8) -> bool {
    marker == 0xc0 || marker == 0xc1 || marker == 0xc2 || marker == 0xc3 || marker == 0xc5
        || marker == 0xc6 || marker == 0xc7 || marker == 0xc9 || marker == 0xca || marker == 0xcb
        || marker == 0xcd || marker == 0xce || marker == 0xcf
}

/// Whether `marker` starts a frame header.
pub fn is_start_of_frame(marker: u8) -> (sof: bool)
    ensures
        sof == spec_is_start_of_frame(marker),
{
    matches!(
        marker,
        0xc0 | 0xc1 | 0xc2 | 0xc3 | 0xc5 | 0xc6 | 0xc7 | 0xc9 | 0xca | 0xcb | 0xcd | 0xce | 0xcf
    )
}

/// Markers that stand alone, without a length field.
pub open spec fn is_standalone_marker(marker: u8) -> bool {
    marker == 0x00 || marker == 0x01 || (0xd0 <= marker && marker <= 0xd9)
}

/// The first position at or after `offset` that holds 0xff, or the end.
pub open spec fn next_ff(b: Seq<u8>, offset: int) -> int
    decreases b.len() - offset,
{
    if offset < 0 || offset >= b.len() || b[offset] == 0xff {
        offset
    } else {
        next_ff(b, offset + 1)
    }
}

/// The first position at or after `offset` that does not hold 0xff, or
/// the end.
pub open spec fn past_ffs(b: Seq<u8>, offset: int) -> int
    decreases b.len() - offset,
{
    if offset < 0 || offset >= b.len() || b[offset] != 0xff {
        offset
    } else {
        past_ffs(b, offset + 1)
    }
}

proof fn lemma_next_ff_bounds(b: Seq<u8>, offset: int)
    requires
        0 <= offset,
    ensures
        offset <= next_ff(b, offset),
        offset <= b.len() ==> next_ff(b, offset) <= b.len(),
    decreases b.len() - offset,
{
    if offset < b.len() && b[offset] != 0xff {
        lemma_next_ff_bounds(b, offset + 1);
    }
}

proof fn lemma_past_ffs_bounds(b: Seq<u8>, offset: int)
    requires
        0 <= offset,
    ensures
        offset <= past_ffs(b, offset),
        offset <= b.len() ==> past_ffs(b, offset) <= b.len(),
    decreases b.len() - offset,
{
    if offset < b.len() && b[offset] == 0xff {
        lemma_past_ffs_bounds(b, offset + 1);
    }
}

/// The marker walk that looks for a frame header from `offset`: each step
/// skips to the next marker, passes over stand-alone markers, and either
/// reads the frame header's width and height or jumps over the segment.
pub open spec fn scan_dimensions(b: Seq<u8>, offset: int) -> (Option<u16>, Option<u16>)
    decreases b.len() - offset,
{
    if offset < 0 || offset + 1 >= b.len() {
        (None, None)
    } else {
        let at_marker = past_ffs(b, next_ff(b, offset));
        if at_marker < offset || at_marker >= b.len() {
            (None, None)
        } else {
            let marker = b[at_marker];
            let body = at_marker + 1;
            if is_standalone_marker(marker) {
                scan_dimensions(b, body)
            } else if body + 2 > b.len() {
                (None, None)
            } else {
                let length = be_u16(b, body);
                if length < 2 || body + length > b.len() {
                    (None, None)
                } else if spec_is_start_of_frame(marker) && length >= 7 {
                    (Some(be_u16(b, body + 5)), Some(be_u16(b, body + 3)))
                } else {
                    scan_dimensions(b, body + length)
                }
            }
        }
    }
}

/// Width and height of a JPEG image, read from its first frame header.
pub open spec fn spec_jpeg_dimensions(b: Seq<u8>) -> (Option<u16>, Option<u16>) {
    if b.len() < 4 || b[0] != 0xff || b[1] != 0xd8 {
        (None, None)
    } else {
        scan_dimensions(b, 2)
    }
}

/// Width and height of a JPEG image (`None` when no frame header is found
/// before the data runs out or turns out malformed).
pub fn jpeg_dimensions(bytes: &[u8]) -> (dimensions: (Option<u16>, Option<u16>))
    ensures
        dimensions == spec_jpeg_dimensions(bytes@),
{
    let n = bytes.len();
    if n < 4 || bytes[0] != 0xff || bytes[1] != 0xd8 {
        return (None, None);
    }
    let mut offset: usize = 2;
    while offset < n - 1
        invariant
            n == bytes@.len(),
            2 <= offset <= n,
            scan_dimensions(bytes@, offset as int) == spec_jpeg_dimensions(bytes@),
        decreases n - offset,
    {
        let ghost start = offset as int;
        proof {
            lemma_next_ff_bounds(bytes@, start);
        }
        while offset < n && bytes[offset] != 0xff
            invariant
                n == bytes@.len(),
                start <= offset <= n,
                next_ff(bytes@, offset as int) == next_ff(bytes@, start),
            decreases n - offset,
        {
            offset = offset + 1;
        }
        let ghost after_ff = offset as int;
        proof {
            lemma_past_ffs_bounds(bytes@, after_ff);
        }
        while offset < n && bytes[offset] == 0xff
            invariant
                n == bytes@.len(),
                after_ff <= offset <= n,
                past_ffs(bytes@, offset as int) == past_ffs(bytes@, after_ff),
            decreases n - offset,
        {
            offset = offset + 1;
        }
        if offset >= n {
            return (None, None);
        }
        let marker = bytes[offset];
        offset = offset + 1;
        if marker == 0x00 || marker == 0x01 || (0xd0 <= marker && marker <= 0xd9) {
            continue;
        }
        if offset > n || n - offset < 2 {
            return (None, None);
        }
        let length = (bytes[offset] as usize) * 256 + bytes[offset + 1] as usize;
        if length < 2 || length > n - offset {
            return (None, None);
        }
        if is_start_of_frame(marker) && length >= 7 {
            let height = (bytes[offset + 3] as u16) * 256 + bytes[offset + 4] as u16;
            let width = (bytes[offset + 5] as u16) * 256 + bytes[offset + 6] as u16;
            return (Some(width), Some(height));
        }
        offset = offset + length;
    }
    (None, None)
}

/// An image that opens with a frame header of any start-of-frame kind
/// (0xc0 to 0xcf but for 0xc4, 0xc8 and 0xcc: baseline, extended,
/// progressive, lossless, hierarchical, arithmetic-coded) right after its
/// start-of-image marker has the width and height that header holds: the
/// big-endian numbers at bytes 9-10 and 7-8.
pub proof fn law_first_frame_header_gives_dimensions(b: Seq<u8>)
    requires
        b.len() >= 4,
        b[0] == 0xff,
        b[1] == 0xd8,
        b[2] == 0xff,
        0xc0 <= b[3] <= 0xcf,
        b[3] != 0xc4,
        b[3] != 0xc8,
        b[3] != 0xcc,
        7 <= 256 * b[4] + b[5],
        4 + 256 * b[4] + b[5] <= b.len(),
    ensures
        spec_jpeg_dimensions(b) == (
            Some((256 * b[9] + b[10]) as u16),
            Some((256 * b[7] + b[8]) as u16),
        ),
{
    assert(next_ff(b, 2) == 2);
    assert(past_ffs(b, 3) == 3);
    assert(past_ffs(b, 2) == 3);
    assert(be_u16(b, 4) == 256 * b[4] + b[5]);
}

} // verus!
