//! Per-endpoint payload dumps: which packets go into the dump of each
//! endpoint, and at which offset of the dump file each payload starts.
use vstd::prelude::*;

use crate::pcap::media::total_payload;
use crate::pcap::statistics::{has_payload, key_of};
use crate::pcap::usbpcap::UsbPacket;
use crate::text::{chars_less, lemma_chars_less_total, lemma_chars_less_transitive, str_less};

verus! {

/// Whether a packet goes into the dump of endpoint `key`: it carries
/// payload and belongs to that endpoint.
pub open spec fn dumped(packet: UsbPacket, key: Seq<char>) -> bool {
    has_payload(packet) && key_of(packet) == key
}

/// Payload bytes of the packets of `packets` that go into dump `key`.
pub open spec fn dump_bytes(packets: Seq<UsbPacket>, key: Seq<char>) -> int
    decreases packets.len(),
{
    if packets.len() == 0 {
        0
    } else {
        dump_bytes(packets.drop_last(), key) + if dumped(packets.last(), key) {
            packets.last().payload@.len() as int
        } else {
            0
        }
    }
}

/// The packets of dump `key`, in capture order, each as its index in
/// `packets` and the offset in the dump where its payload starts.
pub open spec fn dump_entries(packets: Seq<UsbPacket>, key: Seq<char>) -> Seq<(int, int)>
    decreases packets.len(),
{
    if packets.len() == 0 {
        Seq::empty()
    } else {
        let earlier = dump_entries(packets.drop_last(), key);
        if dumped(packets.last(), key) {
            earlier.push((packets.len() - 1, dump_bytes(packets.drop_last(), key)))
        } else {
            earlier
        }
    }
}

/// The dump of one endpoint.
#[derive(Debug)]
pub struct EndpointDump {
    pub key: String,
    /// Index of each packet in the capture and offset of its payload in
    /// the dump.
    pub packets: Vec<(usize, u64)>,
}

/// The entries of a dump as integers.
pub open spec fn entries_of(packets: Seq<(usize, u64)>) -> Seq<(int, int)> {
    packets.map_values(|entry: (usize, u64)| (entry.0 as int, entry.1 as int))
}

proof fn lemma_dump_bytes_bounded(packets: Seq<UsbPacket>, key: Seq<char>)
    ensures
        0 <= dump_bytes(packets, key) <= total_payload(packets),
    decreases packets.len(),
{
    if packets.len() > 0 {
        lemma_dump_bytes_bounded(packets.drop_last(), key);
    }
}

proof fn lemma_dump_entries_indices(packets: Seq<UsbPacket>, key: Seq<char>)
    ensures
        forall|j: int|
            0 <= j < dump_entries(packets, key).len() ==> 0 <= #[trigger] dump_entries(
                packets,
                key,
            )[j].0 < packets.len() && dumped(packets[dump_entries(packets, key)[j].0], key),
    decreases packets.len(),
{
    if packets.len() > 0 {
        let rest = packets.drop_last();
        lemma_dump_entries_indices(rest, key);
        assert forall|j: int| 0 <= j < dump_entries(packets, key).len() implies 0
            <= #[trigger] dump_entries(packets, key)[j].0 < packets.len() && dumped(
            packets[dump_entries(packets, key)[j].0],
            key,
        ) by {
            if j < dump_entries(rest, key).len() {
                assert(dump_entries(packets, key)[j] == dump_entries(rest, key)[j]);
                assert(packets[dump_entries(rest, key)[j].0] == rest[dump_entries(rest, key)[j].0]);
            }
        }
    }
}

proof fn lemma_dumped_entry_exists(packets: Seq<UsbPacket>, key: Seq<char>, k: int)
    requires
        0 <= k < packets.len(),
        dumped(packets[k], key),
    ensures
        dump_entries(packets, key).len() > 0,
    decreases packets.len(),
{
    if k < packets.len() - 1 {
        lemma_dumped_entry_exists(packets.drop_last(), key, k);
    }
}

/// `keys` are strictly ordered.
spec fn keys_sorted(keys: Seq<String>) -> bool {
    forall|a: int, b: int| 0 <= a < b < keys.len() ==> chars_less(#[trigger] keys[a]@, #[trigger] keys[b]@)
}

/// Every packet among the first `n` that carries payload has its key in
/// `keys`.
spec fn keys_cover(keys: Seq<String>, packets: Seq<UsbPacket>, n: int) -> bool {
    forall|k: int|
        0 <= k < n && has_payload(packets[k]) ==> exists|e: int|
            0 <= e < keys.len() && #[trigger] keys[e]@ == key_of(#[trigger] packets[k])
}

/// Every key of `keys` is that of one of the first `n` packets carrying
/// payload.
spec fn keys_used(keys: Seq<String>, packets: Seq<UsbPacket>, n: int) -> bool {
    forall|e: int| 0 <= e < keys.len() ==> #[trigger] key_used(keys[e]@, packets, n)
}

/// One of the first `n` packets carries payload and has endpoint `key`.
spec fn key_used(key: Seq<char>, packets: Seq<UsbPacket>, n: int) -> bool {
    exists|k: int| 0 <= k < n && has_payload(packets[k]) && key == key_of(#[trigger] packets[k])
}

/// The endpoint keys of the first `n` packets that carry payload are
/// exactly `keys`, strictly ordered.
#[verifier::opaque]
spec fn keys_of_prefix(keys: Seq<String>, packets: Seq<UsbPacket>, n: int) -> bool {
    keys_sorted(keys) && keys_cover(keys, packets, n) && keys_used(keys, packets, n)
}

proof fn lemma_insert_sorted(before: Seq<String>, after: Seq<String>, key: Seq<char>, pos: int)
    requires
        keys_sorted(before),
        0 <= pos <= before.len(),
        forall|j: int| 0 <= j < pos ==> chars_less(#[trigger] before[j]@, key),
        pos < before.len() ==> chars_less(key, before[pos]@),
        after == before.insert(pos, after[pos]),
        after[pos]@ == key,
    ensures
        keys_sorted(after),
{
    before.insert_ensures(pos, after[pos]);
    assert forall|a: int, b: int|
        0 <= a < b < after.len() implies chars_less(#[trigger] after[a]@, #[trigger] after[b]@) by {
        if b < pos {
            assert(after[a] == before[a] && after[b] == before[b]);
        } else if b == pos {
            assert(after[a] == before[a]);
        } else if a < pos {
            assert(after[a] == before[a]);
            assert(after[b] == before[b - 1]);
            lemma_chars_less_transitive(before[a]@, key, before[pos]@);
            if b - 1 > pos {
                lemma_chars_less_transitive(before[a]@, before[pos]@, before[b - 1]@);
            }
        } else if a == pos {
            assert(after[b] == before[b - 1]);
            if b - 1 > pos {
                lemma_chars_less_transitive(key, before[pos]@, before[b - 1]@);
            }
        } else {
            assert(after[a] == before[a - 1] && after[b] == before[b - 1]);
        }
    }
}

proof fn lemma_insert_cover(before: Seq<String>, after: Seq<String>, packets: Seq<UsbPacket>, n: int, pos: int)
    requires
        0 <= n < packets.len(),
        keys_cover(before, packets, n),
        0 <= pos <= before.len(),
        after == before.insert(pos, after[pos]),
        after[pos]@ == key_of(packets[n]),
    ensures
        keys_cover(after, packets, n + 1),
{
    before.insert_ensures(pos, after[pos]);
    assert forall|k: int| 0 <= k < n + 1 && has_payload(packets[k]) implies exists|e: int|
        0 <= e < after.len() && #[trigger] after[e]@ == key_of(#[trigger] packets[k]) by {
        if k < n {
            let w = choose|w: int| 0 <= w < before.len() && #[trigger] before[w]@ == key_of(#[trigger] packets[k]);
            if w < pos {
                assert(after[w] == before[w]);
                assert(after[w]@ == key_of(packets[k]));
            } else {
                assert(after[w + 1] == before[w]);
                assert(after[w + 1]@ == key_of(packets[k]));
            }
        } else {
            assert(after[pos]@ == key_of(packets[k]));
        }
    }
}

proof fn lemma_insert_used(before: Seq<String>, after: Seq<String>, packets: Seq<UsbPacket>, n: int, pos: int)
    requires
        0 <= n < packets.len(),
        has_payload(packets[n]),
        keys_used(before, packets, n),
        0 <= pos <= before.len(),
        after == before.insert(pos, after[pos]),
        after[pos]@ == key_of(packets[n]),
    ensures
        keys_used(after, packets, n + 1),
{
    before.insert_ensures(pos, after[pos]);
    assert forall|e: int| 0 <= e < after.len() implies #[trigger] key_used(after[e]@, packets, n + 1) by {
        if e == pos {
            assert(0 <= n < n + 1 && has_payload(packets[n]) && after[e]@ == key_of(packets[n]));
        } else {
            let b = if e < pos { e } else { e - 1 };
            assert(after[e] == before[b]);
            assert(key_used(before[b]@, packets, n));
            let k = choose|k: int| 0 <= k < n && has_payload(packets[k]) && before[b]@ == key_of(#[trigger] packets[k]);
            assert(0 <= k < n + 1 && has_payload(packets[k]) && after[e]@ == key_of(packets[k]));
        }
    }
}

proof fn lemma_insert_key(
    before: Seq<String>,
    after: Seq<String>,
    packets: Seq<UsbPacket>,
    n: int,
    pos: int,
)
    requires
        0 <= n < packets.len(),
        has_payload(packets[n]),
        keys_of_prefix(before, packets, n),
        0 <= pos <= before.len(),
        forall|j: int| 0 <= j < pos ==> chars_less(#[trigger] before[j]@, key_of(packets[n])),
        pos < before.len() ==> chars_less(key_of(packets[n]), before[pos]@),
        after == before.insert(pos, after[pos]),
        after[pos]@ == key_of(packets[n]),
    ensures
        keys_of_prefix(after, packets, n + 1),
{
    reveal(keys_of_prefix);
    lemma_insert_sorted(before, after, key_of(packets[n]), pos);
    lemma_insert_cover(before, after, packets, n, pos);
    lemma_insert_used(before, after, packets, n, pos);
}

proof fn lemma_cover_grows(keys: Seq<String>, packets: Seq<UsbPacket>, n: int, w: int)
    requires
        0 <= n < packets.len(),
        keys_cover(keys, packets, n),
        !has_payload(packets[n]) || (0 <= w < keys.len() && keys[w]@ == key_of(packets[n])),
    ensures
        keys_cover(keys, packets, n + 1),
{
    assert forall|k: int| 0 <= k < n + 1 && has_payload(packets[k]) implies exists|e: int|
        0 <= e < keys.len() && #[trigger] keys[e]@ == key_of(#[trigger] packets[k]) by {
        if k == n {
            assert(keys[w]@ == key_of(packets[k]));
        }
    }
}

proof fn lemma_used_grows(keys: Seq<String>, packets: Seq<UsbPacket>, n: int)
    requires
        0 <= n < packets.len(),
        keys_used(keys, packets, n),
    ensures
        keys_used(keys, packets, n + 1),
{
    assert forall|e: int| 0 <= e < keys.len() implies #[trigger] key_used(keys[e]@, packets, n + 1) by {
        assert(key_used(keys[e]@, packets, n));
        let k = choose|k: int| 0 <= k < n && has_payload(packets[k]) && keys[e]@ == key_of(#[trigger] packets[k]);
        assert(0 <= k < n + 1 && has_payload(packets[k]) && keys[e]@ == key_of(packets[k]));
    }
}

proof fn lemma_keys_grow(keys: Seq<String>, packets: Seq<UsbPacket>, n: int, w: int)
    requires
        0 <= n < packets.len(),
        keys_of_prefix(keys, packets, n),
        !has_payload(packets[n]) || (0 <= w < keys.len() && keys[w]@ == key_of(packets[n])),
    ensures
        keys_of_prefix(keys, packets, n + 1),
{
    reveal(keys_of_prefix);
    lemma_cover_grows(keys, packets, n, w);
    lemma_used_grows(keys, packets, n);
}

/// The endpoint keys of the packets that carry payload, in key order,
/// each once.
fn dump_keys(packets: &[UsbPacket]) -> (keys: Vec<String>)
    ensures
        keys_of_prefix(keys@, packets@, packets@.len() as int),
{
    let mut keys: Vec<String> = Vec::new();
    proof {
        reveal(keys_of_prefix);
    }
    let mut k: usize = 0;
    while k < packets.len()
        invariant
            k <= packets@.len(),
            keys_of_prefix(keys@, packets@, k as int),
        decreases packets.len() - k,
    {
        let packet = &packets[k];
        if packet.payload.len() > 0 {
            let key = packet.endpoint_key();
            let mut pos: usize = 0;
            while pos < keys.len() && str_less(keys[pos].as_str(), key.as_str())
                invariant
                    pos <= keys@.len(),
                    key@ == key_of(*packet),
                    forall|j: int| 0 <= j < pos ==> chars_less(#[trigger] keys@[j]@, key@),
                decreases keys@.len() - pos,
            {
                pos = pos + 1;
            }
            if pos < keys.len() && keys[pos] == key {
                proof {
                    lemma_keys_grow(keys@, packets@, k as int, pos as int);
                }
            } else {
                proof {
                    if pos < keys@.len() {
                        lemma_chars_less_total(keys@[pos as int]@, key@);
                    }
                }
                let ghost before = keys@;
                keys.insert(pos, key);
                proof {
                    lemma_insert_key(before, keys@, packets@, k as int, pos as int);
                }
            }
        } else {
            proof {
                lemma_keys_grow(keys@, packets@, k as int, 0);
            }
        }
        k = k + 1;
    }
    keys
}

/// The entries of the dump of `key`.
fn dump_of(packets: &[UsbPacket], key: &String) -> (entries: Vec<(usize, u64)>)
    requires
        total_payload(packets@) < u64::MAX,
    ensures
        entries_of(entries@) == dump_entries(packets@, key@),
{
    let mut entries: Vec<(usize, u64)> = Vec::new();
    let mut offset: u64 = 0;
    let mut k: usize = 0;
    while k < packets.len()
        invariant
            k <= packets@.len(),
            total_payload(packets@) < u64::MAX,
            entries_of(entries@) == dump_entries(packets@.take(k as int), key@),
            offset == dump_bytes(packets@.take(k as int), key@),
        decreases packets.len() - k,
    {
        let packet = &packets[k];
        proof {
            assert(packets@.take(k + 1).drop_last() =~= packets@.take(k as int));
            assert(packets@.take(k + 1).last() == packets@[k as int]);
            lemma_dump_bytes_bounded(packets@.take(k + 1), key@);
            lemma_total_prefix(packets@, k + 1);
        }
        if packet.payload.len() > 0 && packet.endpoint_key() == *key {
            entries.push((k, offset));
            offset = offset + packet.payload.len() as u64;
            assert(entries_of(entries@) =~= dump_entries(packets@.take(k + 1), key@));
        }
        k = k + 1;
    }
    assert(packets@.take(packets@.len() as int) =~= packets@);
    entries
}

proof fn lemma_total_prefix(packets: Seq<UsbPacket>, n: int)
    requires
        0 <= n <= packets.len(),
    ensures
        total_payload(packets.take(n)) <= total_payload(packets),
    decreases packets.len(),
{
    if n < packets.len() {
        assert(packets.drop_last().take(n) =~= packets.take(n));
        lemma_total_prefix(packets.drop_last(), n);
    } else {
        assert(packets.take(n) =~= packets);
    }
}

/// The dumps of a capture: one per endpoint that has packets with payload,
/// in key order, each listing its packets in capture order with the offset
/// at which each payload starts in the concatenated dump.
pub fn endpoint_dumps(packets: &[UsbPacket]) -> (dumps: Vec<EndpointDump>)
    requires
        total_payload(packets@) < u64::MAX,
    ensures
        forall|a: int, b: int|
            0 <= a < b < dumps@.len() ==> chars_less(#[trigger] dumps@[a].key@, #[trigger] dumps@[b].key@),
        forall|e: int|
            0 <= e < dumps@.len() ==> dump_entries(packets@, #[trigger] dumps@[e].key@).len() > 0
                && entries_of(dumps@[e].packets@) == dump_entries(packets@, dumps@[e].key@),
        forall|k: int|
            0 <= k < packets@.len() && has_payload(#[trigger] packets@[k]) ==> exists|e: int|
                0 <= e < dumps@.len() && #[trigger] dumps@[e].key@ == key_of(packets@[k]),
{
    let keys = dump_keys(packets);
    let mut dumps: Vec<EndpointDump> = Vec::new();
    let mut e: usize = 0;
    while e < keys.len()
        invariant
            e <= keys@.len(),
            total_payload(packets@) < u64::MAX,
            keys_of_prefix(keys@, packets@, packets@.len() as int),
            dumps@.len() == e,
            forall|j: int| 0 <= j < e ==> #[trigger] dumps@[j].key == keys@[j],
            forall|j: int|
                0 <= j < e ==> entries_of(#[trigger] dumps@[j].packets@) == dump_entries(packets@, keys@[j]@),
        decreases keys.len() - e,
    {
        let key = keys[e].clone();
        let entries = dump_of(packets, &keys[e]);
        dumps.push(EndpointDump { key, packets: entries });
        e = e + 1;
    }
    proof {
        reveal(keys_of_prefix);
        assert forall|a: int, b: int| 0 <= a < b < dumps@.len() implies chars_less(
            #[trigger] dumps@[a].key@,
            #[trigger] dumps@[b].key@,
        ) by {
            assert(dumps@[a].key == keys@[a] && dumps@[b].key == keys@[b]);
        }
        assert forall|j: int| 0 <= j < dumps@.len() implies dump_entries(packets@, #[trigger] dumps@[j].key@).len() > 0
            && entries_of(dumps@[j].packets@) == dump_entries(packets@, dumps@[j].key@) by {
            assert(dumps@[j].key == keys@[j]);
            assert(key_used(keys@[j]@, packets@, packets@.len() as int));
            let k = choose|k: int| 0 <= k < packets@.len() && has_payload(packets@[k]) && keys@[j]@ == key_of(#[trigger] packets@[k]);
            lemma_dumped_entry_exists(packets@, keys@[j]@, k);
        }
        assert forall|k: int| 0 <= k < packets@.len() && has_payload(#[trigger] packets@[k]) implies exists|w: int|
            0 <= w < dumps@.len() && #[trigger] dumps@[w].key@ == key_of(packets@[k]) by {
            let w = choose|w: int| 0 <= w < keys@.len() && #[trigger] keys@[w]@ == key_of(#[trigger] packets@[k]);
            assert(dumps@[w].key == keys@[w]);
        }
    }
    dumps
}

} // verus!
