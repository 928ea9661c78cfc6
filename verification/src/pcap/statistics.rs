//! Per-endpoint statistics and the most common payload prefixes of a
//! capture.
use vstd::prelude::*;

use crate::pcap::usbpcap::{endpoint_key_of, TransferType, UsbPacket};
use crate::text::{chars_less, hex_lower, lemma_chars_less_irreflexive, lemma_chars_less_total, lemma_chars_less_transitive, str_less};

verus! {

/// Lower-case hexadecimal text of `bytes` (the `hex` crate's `encode`):
/// two digits per byte, in order.
#[verifier::external_body]
fn hex_encode(bytes: &[u8]) -> (text: String)
    ensures
        text@ == hex_lower(bytes@),
{
    hex::encode(bytes)
}

/// The prefix text of a packet: its first `prefix_bytes` payload bytes
/// (or all of them, if fewer) in hexadecimal.
pub open spec fn payload_prefix(packet: UsbPacket, prefix_bytes: nat) -> Seq<char> {
    let payload = packet.payload@;
    hex_lower(payload.take(if payload.len() < prefix_bytes { payload.len() as int } else { prefix_bytes as int }))
}

/// Packets with a payload whose prefix text is `prefix`.
pub open spec fn with_prefix(packets: Seq<UsbPacket>, prefix_bytes: nat, prefix: Seq<char>) -> Seq<
    UsbPacket,
> {
    packets.filter(
        |packet: UsbPacket| packet.payload@.len() > 0 && payload_prefix(packet, prefix_bytes) == prefix,
    )
}

/// Ranking of prefixes: more frequent first, then by text.
pub open spec fn ranks_before(a: (Seq<char>, u64), b: (Seq<char>, u64)) -> bool {
    a.1 > b.1 || (a.1 == b.1 && chars_less(a.0, b.0))
}

/// The view of a (prefix, count) entry.
pub open spec fn entry_view(entry: (String, u64)) -> (Seq<char>, u64) {
    (entry.0@, entry.1)
}

proof fn lemma_ranks_transitive(a: (Seq<char>, u64), b: (Seq<char>, u64), c: (Seq<char>, u64))
    requires
        ranks_before(a, b),
        ranks_before(b, c),
    ensures
        ranks_before(a, c),
{
    if a.1 == b.1 && b.1 == c.1 {
        lemma_chars_less_transitive(a.0, b.0, c.0);
    }
}

proof fn lemma_ranks_total(a: (Seq<char>, u64), b: (Seq<char>, u64))
    requires
        a.0 != b.0,
    ensures
        ranks_before(a, b) || ranks_before(b, a),
{
    lemma_chars_less_total(a.0, b.0);
}

proof fn lemma_ranks_irreflexive(a: (Seq<char>, u64))
    ensures
        !ranks_before(a, a),
{
    lemma_chars_less_irreflexive(a.0);
}

/// Counts of every distinct prefix among the packets seen so far.
spec fn counts_hold(
    counts: Seq<(String, u64)>,
    packets: Seq<UsbPacket>,
    prefix_bytes: nat,
) -> bool {
    &&& forall|i: int|
        0 <= i < counts.len() ==> #[trigger] counts[i].1 == with_prefix(
            packets,
            prefix_bytes,
            counts[i].0@,
        ).len() && counts[i].1 > 0
    &&& forall|i: int, j: int|
        0 <= i < j < counts.len() ==> #[trigger] counts[i].0@ != #[trigger] counts[j].0@
    &&& forall|k: int|
        0 <= k < packets.len() && packets[k].payload@.len() > 0 ==> exists|i: int|
            0 <= i < counts.len() && #[trigger] counts[i].0@ == payload_prefix(
                #[trigger] packets[k],
                prefix_bytes,
            )
}

/// `top` lists the most common payload prefixes of `packets`: for each
/// listed prefix text, how many packets with a payload share it; ranked by
/// count (highest first) and then by text; cut to the first `limit`, and
/// empty when `prefix_bytes` or `limit` is 0.
pub open spec fn is_top_prefixes(
    top: Seq<(String, u64)>,
    packets: Seq<UsbPacket>,
    prefix_bytes: usize,
    limit: usize,
) -> bool {
    &&& prefix_bytes == 0 || limit == 0 ==> top.len() == 0
    &&& top.len() <= limit
    &&& forall|i: int|
        0 <= i < top.len() ==> #[trigger] top[i].1 == with_prefix(
            packets,
            prefix_bytes as nat,
            top[i].0@,
        ).len() && top[i].1 > 0
    &&& forall|i: int, j: int|
        0 <= i < j < top.len() ==> ranks_before(
            entry_view(#[trigger] top[i]),
            entry_view(#[trigger] top[j]),
        )
    &&& prefix_bytes > 0 && limit > 0 ==> forall|k: int|
        0 <= k < packets.len() && packets[k].payload@.len() > 0 ==> {
            let prefix = payload_prefix(#[trigger] packets[k], prefix_bytes as nat);
            (exists|i: int| 0 <= i < top.len() && top[i].0@ == prefix) || (top.len() == limit
                && forall|i: int|
                0 <= i < top.len() ==> ranks_before(
                    entry_view(#[trigger] top[i]),
                    (prefix, with_prefix(packets, prefix_bytes as nat, prefix).len() as u64),
                ))
        }
}

/// The most common payload prefixes: for each distinct prefix text of the
/// packets that have a payload, how many packets share it; ranked by count
/// (highest first) and then by text, and cut to the first `limit`.
pub fn common_prefixes(packets: &[UsbPacket], prefix_bytes: usize, limit: usize) -> (top: Vec<
    (String, u64),
>)
    requires
        packets@.len() < u64::MAX,
    ensures
        is_top_prefixes(top@, packets@, prefix_bytes, limit),
{
    if prefix_bytes == 0 || limit == 0 {
        return Vec::new();
    }
    let counts = count_prefixes(packets, prefix_bytes);
    let top = select_top(&counts, limit);
    proof {
        assert forall|i: int|
            0 <= i < top@.len() implies #[trigger] top@[i].1 == with_prefix(
                packets@,
                prefix_bytes as nat,
                top@[i].0@,
            ).len() && top@[i].1 > 0 by {
            assert(counts@.contains(top@[i]));
        }
        assert forall|k: int|
            0 <= k < packets@.len() && packets@[k].payload@.len() > 0 implies {
                let prefix = payload_prefix(#[trigger] packets@[k], prefix_bytes as nat);
                (exists|i: int| 0 <= i < top@.len() && top@[i].0@ == prefix) || (top@.len() == limit
                    && forall|i: int|
                    0 <= i < top@.len() ==> ranks_before(
                        entry_view(#[trigger] top@[i]),
                        (prefix, with_prefix(packets@, prefix_bytes as nat, prefix).len() as u64),
                    ))
            } by {
            let prefix = payload_prefix(packets@[k], prefix_bytes as nat);
            let c = choose|c: int| 0 <= c < counts@.len() && #[trigger] counts@[c].0@ == prefix;
            if top@.contains(counts@[c]) {
                let r = choose|r: int| 0 <= r < top@.len() && top@[r] == counts@[c];
                assert(top@[r].0@ == prefix);
            } else {
                assert(entry_view(counts@[c]) == (prefix, with_prefix(packets@, prefix_bytes as nat, prefix).len() as u64));
            }
        }
    }
    top
}

/// With no counted prefix equal to `p`, no seen packet has prefix `p`.
proof fn lemma_uncounted_prefix(
    counts: Seq<(String, u64)>,
    seen: Seq<UsbPacket>,
    prefix_bytes: nat,
    p: Seq<char>,
)
    requires
        counts_hold(counts, seen, prefix_bytes),
        forall|j: int| 0 <= j < counts.len() ==> #[trigger] counts[j].0@ != p,
    ensures
        with_prefix(seen, prefix_bytes, p).len() == 0,
{
    let pred = |q: UsbPacket| q.payload@.len() > 0 && payload_prefix(q, prefix_bytes) == p;
    let f = with_prefix(seen, prefix_bytes, p);
    if f.len() > 0 {
        seen.lemma_filter_pred(pred, 0);
        assert(f.contains(f[0]));
        seen.lemma_filter_contains_rev(pred, f[0]);
        let k = choose|k: int| 0 <= k < seen.len() && seen[k] == f[0];
        assert(seen[k].payload@.len() > 0);
        let i = choose|i: int| 0 <= i < counts.len() && #[trigger] counts[i].0@ == payload_prefix(
            seen[k],
            prefix_bytes,
        );
        assert(counts[i].0@ != p);
    }
}

/// Counts each distinct prefix, in order of first appearance.
fn count_prefixes(packets: &[UsbPacket], prefix_bytes: usize) -> (counts: Vec<(String, u64)>)
    requires
        packets@.len() < u64::MAX,
    ensures
        counts_hold(counts@, packets@, prefix_bytes as nat),
{
    let mut counts: Vec<(String, u64)> = Vec::new();
    let mut k: usize = 0;
    while k < packets.len()
        invariant
            k <= packets@.len(),
            packets@.len() < u64::MAX,
            counts_hold(counts@, packets@.take(k as int), prefix_bytes as nat),
            forall|i: int| 0 <= i < counts@.len() ==> #[trigger] counts@[i].1 <= k,
        decreases packets.len() - k,
    {
        let ghost seen = packets@.take(k as int);
        let ghost next = packets@.take(k + 1);
        let ghost before = counts@;
        let packet = &packets[k];
        proof {
            assert(next =~= seen.push(*packet));
            assert forall|j: int| 0 <= j < seen.len() implies #[trigger] next[j] == seen[j] by {}
        }
        if packet.payload.len() > 0 {
            let end = if packet.payload.len() < prefix_bytes {
                packet.payload.len()
            } else {
                prefix_bytes
            };
            let prefix = hex_encode(&packet.payload.as_slice()[0..end]);
            assert(packet.payload@.subrange(0, end as int) =~= packet.payload@.take(end as int));
            let ghost p = prefix@;
            assert(p == payload_prefix(*packet, prefix_bytes as nat));
            let mut found: Option<usize> = None;
            let mut i: usize = 0;
            while i < counts.len()
                invariant_except_break
                    found is None,
                invariant
                    i <= counts@.len(),
                    counts@ == before,
                    p == prefix@,
                    forall|j: int| 0 <= j < i ==> #[trigger] counts@[j].0@ != p,
                ensures
                    match found {
                        Some(index) => index < counts@.len() && counts@[index as int].0@ == p,
                        None => forall|j: int| 0 <= j < counts@.len() ==> #[trigger] counts@[j].0@ != p,
                    },
                    counts@ == before,
                decreases counts.len() - i,
            {
                if counts[i].0 == prefix {
                    found = Some(i);
                    break;
                }
                i = i + 1;
            }
            proof {
                let pred = |q: UsbPacket| q.payload@.len() > 0 && payload_prefix(q, prefix_bytes as nat) == p;
                seen.lemma_filter_push(*packet, pred);
                assert forall|t: Seq<char>| t != p implies #[trigger] with_prefix(next, prefix_bytes as nat, t)
                    == with_prefix(seen, prefix_bytes as nat, t) by {
                    let pt = |q: UsbPacket| q.payload@.len() > 0 && payload_prefix(q, prefix_bytes as nat) == t;
                    seen.lemma_filter_push(*packet, pt);
                }
            }
            match found {
                Some(index) => {
                    let name = counts[index].0.clone();
                    let count = counts[index].1;
                    counts.set(index, (name, count + 1));
                },
                None => {
                    proof {
                        lemma_uncounted_prefix(before, seen, prefix_bytes as nat, p);
                    }
                    counts.push((prefix, 1));
                },
            }
            proof {
                assert forall|j: int| 0 <= j < before.len() implies #[trigger] counts@[j].0@
                    == before[j].0@ by {}
                assert forall|j: int|
                    0 <= j < next.len() && next[j].payload@.len() > 0 implies exists|i: int|
                    0 <= i < counts@.len() && #[trigger] counts@[i].0@ == payload_prefix(
                        #[trigger] next[j],
                        prefix_bytes as nat,
                    ) by {
                    if j < k {
                        let w = choose|w: int| 0 <= w < before.len() && #[trigger] before[w].0@
                            == payload_prefix(seen[j], prefix_bytes as nat);
                        assert(counts@[w].0@ == before[w].0@);
                    } else {
                        match found {
                            Some(index) => {
                                assert(counts@[index as int].0@ == p);
                            },
                            None => {
                                assert(counts@[before.len() as int].0@ == p);
                            },
                        }
                    }
                }
                assert forall|a: int, b: int|
                    0 <= a < b < counts@.len() implies #[trigger] counts@[a].0@
                    != #[trigger] counts@[b].0@ by {
                    if b < before.len() {
                        assert(before[a].0@ != before[b].0@);
                    }
                }
                assert forall|i: int|
                    0 <= i < counts@.len() implies #[trigger] counts@[i].1 == with_prefix(
                        next,
                        prefix_bytes as nat,
                        counts@[i].0@,
                    ).len() && counts@[i].1 > 0 by {
                    if i < before.len() && before[i].0@ != p {
                        assert(with_prefix(next, prefix_bytes as nat, before[i].0@)
                            == with_prefix(seen, prefix_bytes as nat, before[i].0@));
                    }
                }
            }
        } else {
            proof {
                assert forall|t: Seq<char>| #[trigger] with_prefix(next, prefix_bytes as nat, t)
                    == with_prefix(seen, prefix_bytes as nat, t) by {
                    let pt = |q: UsbPacket| q.payload@.len() > 0 && payload_prefix(q, prefix_bytes as nat) == t;
                    seen.lemma_filter_push(*packet, pt);
                }
                assert forall|i: int|
                    0 <= i < counts@.len() implies #[trigger] counts@[i].1 == with_prefix(
                        next,
                        prefix_bytes as nat,
                        counts@[i].0@,
                    ).len() && counts@[i].1 > 0 by {
                    assert(with_prefix(next, prefix_bytes as nat, counts@[i].0@)
                        == with_prefix(seen, prefix_bytes as nat, counts@[i].0@));
                }
            }
        }
        k = k + 1;
    }
    assert(packets@.take(packets@.len() as int) =~= packets@);
    counts
}

/// Whether entry `a` ranks before entry `b`.
fn ranks_before_exec(a: &(String, u64), b: &(String, u64)) -> (before: bool)
    ensures
        before == ranks_before(entry_view(*a), entry_view(*b)),
{
    a.1 > b.1 || (a.1 == b.1 && str_less(a.0.as_str(), b.0.as_str()))
}

/// The state of a selection: `top` holds chosen entries in rank order,
/// `remaining` the others, all of them entries of `counts`, and every chosen
/// entry ranks before every remaining one.
spec fn selection_inv(
    counts: Seq<(String, u64)>,
    top: Seq<(String, u64)>,
    remaining: Seq<(String, u64)>,
) -> bool {
    &&& forall|r: int| 0 <= r < top.len() ==> #[trigger] counts.contains(top[r])
    &&& forall|q: int| 0 <= q < remaining.len() ==> #[trigger] counts.contains(remaining[q])
    &&& forall|i: int| 0 <= i < counts.len() ==> #[trigger] top.contains(counts[i]) || remaining.contains(counts[i])
    &&& forall|a: int, b: int|
        0 <= a < b < remaining.len() ==> #[trigger] remaining[a].0@ != #[trigger] remaining[b].0@
    &&& forall|r1: int, r2: int|
        0 <= r1 < r2 < top.len() ==> ranks_before(
            entry_view(#[trigger] top[r1]),
            entry_view(#[trigger] top[r2]),
        )
    &&& forall|r: int, q: int|
        0 <= r < top.len() && 0 <= q < remaining.len() ==> ranks_before(
            entry_view(#[trigger] top[r]),
            entry_view(#[trigger] remaining[q]),
        )
}

/// Moving the best remaining entry to the end of `top` keeps the selection
/// state.
proof fn lemma_select_step(
    counts: Seq<(String, u64)>,
    top: Seq<(String, u64)>,
    rem: Seq<(String, u64)>,
    best: int,
)
    requires
        selection_inv(counts, top, rem),
        0 <= best < rem.len(),
        forall|k: int| 0 <= k < rem.len() ==> !ranks_before(entry_view(#[trigger] rem[k]), entry_view(rem[best])),
    ensures
        selection_inv(counts, top.push(rem[best]), rem.remove(best)),
{
    let new_top = top.push(rem[best]);
    let new_rem = rem.remove(best);
    assert forall|k: int| 0 <= k < rem.len() && k != best implies ranks_before(entry_view(rem[best]), entry_view(#[trigger] rem[k])) by {
        if k < best {
            assert(rem[k].0@ != rem[best].0@);
        } else {
            assert(rem[best].0@ != rem[k].0@);
        }
        lemma_ranks_total(entry_view(rem[best]), entry_view(rem[k]));
    }
    assert forall|q: int| 0 <= q < new_rem.len() implies #[trigger] new_rem[q] == rem[if q < best { q } else { q + 1 }] by {}
    assert forall|r: int| 0 <= r < new_top.len() implies #[trigger] counts.contains(new_top[r]) by {
        if r < top.len() {
            assert(new_top[r] == top[r]);
        } else {
            assert(new_top[r] == rem[best]);
        }
    }
    assert forall|q: int| 0 <= q < new_rem.len() implies #[trigger] counts.contains(new_rem[q]) by {
        let w = if q < best { q } else { q + 1 };
        assert(new_rem[q] == rem[w]);
    }
    assert forall|i: int| 0 <= i < counts.len() implies #[trigger] new_top.contains(counts[i]) || new_rem.contains(counts[i]) by {
        if top.contains(counts[i]) {
            let r = choose|r: int| 0 <= r < top.len() && top[r] == counts[i];
            assert(new_top[r] == top[r]);
        } else {
            let q = choose|q: int| 0 <= q < rem.len() && rem[q] == counts[i];
            if q == best {
                assert(new_top[top.len() as int] == counts[i]);
            } else if q < best {
                assert(new_rem[q] == counts[i]);
            } else {
                assert(new_rem[q - 1] == counts[i]);
            }
        }
    }
    assert forall|a: int, b: int|
        0 <= a < b < new_rem.len() implies #[trigger] new_rem[a].0@ != #[trigger] new_rem[b].0@ by {
        let wa = if a < best { a } else { a + 1 };
        let wb = if b < best { b } else { b + 1 };
        assert(new_rem[a] == rem[wa]);
        assert(new_rem[b] == rem[wb]);
    }
    assert forall|r1: int, r2: int|
        0 <= r1 < r2 < new_top.len() implies ranks_before(
            entry_view(#[trigger] new_top[r1]),
            entry_view(#[trigger] new_top[r2]),
        ) by {
        assert(new_top[r1] == top[r1]);
        if r2 == top.len() {
            assert(new_top[r2] == rem[best]);
        } else {
            assert(new_top[r2] == top[r2]);
        }
    }
    assert forall|r: int, q: int|
        0 <= r < new_top.len() && 0 <= q < new_rem.len() implies ranks_before(
            entry_view(#[trigger] new_top[r]),
            entry_view(#[trigger] new_rem[q]),
        ) by {
        let w = if q < best { q } else { q + 1 };
        assert(new_rem[q] == rem[w]);
        if r < top.len() {
            assert(new_top[r] == top[r]);
        } else {
            assert(new_top[r] == rem[best]);
        }
    }
}

/// The first `limit` counted prefixes in rank order.
fn select_top(counts: &Vec<(String, u64)>, limit: usize) -> (top: Vec<(String, u64)>)
    requires
        forall|a: int, b: int|
            0 <= a < b < counts@.len() ==> #[trigger] counts@[a].0@ != #[trigger] counts@[b].0@,
    ensures
        top@.len() <= limit,
        forall|r: int| 0 <= r < top@.len() ==> #[trigger] counts@.contains(top@[r]),
        forall|r1: int, r2: int|
            0 <= r1 < r2 < top@.len() ==> ranks_before(
                entry_view(#[trigger] top@[r1]),
                entry_view(#[trigger] top@[r2]),
            ),
        forall|i: int|
            0 <= i < counts@.len() ==> #[trigger] top@.contains(counts@[i]) || (top@.len() == limit
                && forall|r: int|
                0 <= r < top@.len() ==> ranks_before(entry_view(#[trigger] top@[r]), entry_view(counts@[i]))),
{
    let n = counts.len();
    let mut remaining: Vec<(String, u64)> = Vec::new();
    let mut i: usize = 0;
    while i < n
        invariant
            i <= n,
            n == counts@.len(),
            remaining@ == counts@.take(i as int),
        decreases n - i,
    {
        remaining.push((counts[i].0.clone(), counts[i].1));
        i = i + 1;
        assert(remaining@ =~= counts@.take(i as int));
    }
    assert(remaining@ =~= counts@);
    let mut top: Vec<(String, u64)> = Vec::new();
    proof {
        assert forall|q: int| 0 <= q < remaining@.len() implies #[trigger] counts@.contains(remaining@[q]) by {
            assert(counts@[q] == remaining@[q]);
        }
        assert forall|i: int| 0 <= i < counts@.len() implies #[trigger] top@.contains(counts@[i]) || remaining@.contains(counts@[i]) by {
            assert(remaining@[i] == counts@[i]);
        }
    }
    while top.len() < limit && remaining.len() > 0
        invariant
            top@.len() <= limit,
            selection_inv(counts@, top@, remaining@),
        decreases remaining@.len(),
    {
        let mut best: usize = 0;
        let mut j: usize = 1;
        proof {
            lemma_ranks_irreflexive(entry_view(remaining@[0]));
        }
        while j < remaining.len()
            invariant
                best < remaining@.len(),
                1 <= j <= remaining@.len(),
                forall|k: int| 0 <= k < j ==> !ranks_before(entry_view(#[trigger] remaining@[k]), entry_view(remaining@[best as int])),
            decreases remaining@.len() - j,
        {
            if ranks_before_exec(&remaining[j], &remaining[best]) {
                proof {
                    assert forall|k: int| 0 <= k < j + 1 implies !ranks_before(entry_view(#[trigger] remaining@[k]), entry_view(remaining@[j as int])) by {
                        if k < j && ranks_before(entry_view(remaining@[k]), entry_view(remaining@[j as int])) {
                            lemma_ranks_transitive(entry_view(remaining@[k]), entry_view(remaining@[j as int]), entry_view(remaining@[best as int]));
                        }
                        if k == j {
                            lemma_ranks_irreflexive(entry_view(remaining@[k]));
                        }
                    }
                }
                best = j;
            }
            j = j + 1;
        }
        proof {
            lemma_select_step(counts@, top@, remaining@, best as int);
        }
        let chosen = remaining.remove(best);
        top.push(chosen);
    }
    proof {
        assert forall|i: int| 0 <= i < counts@.len() implies #[trigger] top@.contains(counts@[i]) || (top@.len() == limit
            && forall|r: int| 0 <= r < top@.len() ==> ranks_before(entry_view(#[trigger] top@[r]), entry_view(counts@[i]))) by {
            if !top@.contains(counts@[i]) {
                assert(remaining@.contains(counts@[i]));
                let q = choose|q: int| 0 <= q < remaining@.len() && remaining@[q] == counts@[i];
                assert forall|r: int| 0 <= r < top@.len() implies ranks_before(entry_view(#[trigger] top@[r]), entry_view(counts@[i])) by {
                    assert(ranks_before(entry_view(top@[r]), entry_view(remaining@[q])));
                }
            }
        }
    }
    top
}

/// Statistics of the packets of one endpoint.
#[derive(Debug)]
pub struct EndpointStats {
    pub packet_count: u64,
    pub packets_with_payload: u64,
    pub captured_payload_bytes: u64,
    pub declared_payload_bytes: u64,
    pub min_payload_size: usize,
    pub max_payload_size: usize,
    pub truncated_packets: u64,
    /// How many packets of each transfer type, in order of first appearance.
    pub transfer_counts: Vec<(TransferType, u64)>,
}

/// The endpoint key of a packet.
pub open spec fn key_of(packet: UsbPacket) -> Seq<char> {
    endpoint_key_of(packet.bus, packet.device, packet.endpoint, packet.direction)
}

/// The packets of the endpoint `key`.
pub open spec fn endpoint_group(packets: Seq<UsbPacket>, key: Seq<char>) -> Seq<UsbPacket> {
    packets.filter(|packet: UsbPacket| key_of(packet) == key)
}

/// Sum of `f` over the packets.
pub open spec fn sum_of(packets: Seq<UsbPacket>, f: spec_fn(UsbPacket) -> nat) -> nat
    decreases packets.len(),
{
    if packets.len() == 0 {
        0
    } else {
        sum_of(packets.drop_last(), f) + f(packets.last())
    }
}

/// Captured payload length of a packet.
pub open spec fn captured_of(packet: UsbPacket) -> nat {
    packet.captured_payload_length as nat
}

/// Declared payload length of a packet.
pub open spec fn declared_of(packet: UsbPacket) -> nat {
    packet.declared_data_length as nat
}

/// Packets that carry payload bytes.
pub open spec fn has_payload(packet: UsbPacket) -> bool {
    packet.payload@.len() > 0
}

/// The smallest captured payload length among packets with payload
/// (`usize::MAX` when there is none).
pub open spec fn smallest_payload(packets: Seq<UsbPacket>) -> int
    decreases packets.len(),
{
    if packets.len() == 0 {
        usize::MAX as int
    } else {
        let rest = smallest_payload(packets.drop_last());
        let last = packets.last();
        if has_payload(last) && (last.captured_payload_length as int) < rest {
            last.captured_payload_length as int
        } else {
            rest
        }
    }
}

/// The largest captured payload length among packets with payload (0 when
/// there is none).
pub open spec fn largest_payload(packets: Seq<UsbPacket>) -> int
    decreases packets.len(),
{
    if packets.len() == 0 {
        0
    } else {
        let rest = largest_payload(packets.drop_last());
        let last = packets.last();
        if has_payload(last) && (last.captured_payload_length as int) > rest {
            last.captured_payload_length as int
        } else {
            rest
        }
    }
}

/// How many packets have the transfer type `transfer`.
pub open spec fn transfer_count(packets: Seq<UsbPacket>, transfer: TransferType) -> nat {
    packets.filter(|packet: UsbPacket| packet.transfer_type == transfer).len()
}

/// The minimum recorded for a group: the smallest payload size, or 0 for
/// a group without payload once settled.
pub open spec fn settled_minimum(group: Seq<UsbPacket>, done: bool) -> int {
    if done && group.filter(|packet: UsbPacket| has_payload(packet)).len() == 0 {
        0
    } else {
        smallest_payload(group)
    }
}

/// `stats` are the statistics of `group`; `done` tells whether the
/// minimum of a group without payload has been settled to 0 (before that
/// it is `usize::MAX`).
pub open spec fn stats_of(stats: EndpointStats, group: Seq<UsbPacket>, done: bool) -> bool {
    let with_payload = group.filter(|packet: UsbPacket| has_payload(packet)).len();
    &&& stats.packet_count == group.len()
    &&& stats.packets_with_payload == with_payload
    &&& stats.captured_payload_bytes == sum_of(group, |packet: UsbPacket| captured_of(packet))
    &&& stats.declared_payload_bytes == sum_of(group, |packet: UsbPacket| declared_of(packet))
    &&& stats.min_payload_size == settled_minimum(group, done)
    &&& stats.max_payload_size == largest_payload(group)
    &&& stats.truncated_packets == group.filter(|packet: UsbPacket| packet.truncated).len()
    &&& forall|a: int, b: int|
        0 <= a < b < stats.transfer_counts@.len() ==> #[trigger] stats.transfer_counts@[a].0
            != #[trigger] stats.transfer_counts@[b].0
    &&& forall|k: int|
        0 <= k < stats.transfer_counts@.len() ==> #[trigger] stats.transfer_counts@[k].1
            == transfer_count(group, stats.transfer_counts@[k].0) && stats.transfer_counts@[k].1 > 0
    &&& forall|k: int|
        0 <= k < group.len() ==> exists|t: int|
            0 <= t < stats.transfer_counts@.len() && #[trigger] stats.transfer_counts@[t].0
                == #[trigger] group[k].transfer_type
}

/// The per-endpoint statistics of `packets` at state `done`.
pub open spec fn statistics_of(
    result: Seq<(String, EndpointStats)>,
    packets: Seq<UsbPacket>,
    done: bool,
) -> bool {
    &&& forall|a: int, b: int|
        0 <= a < b < result.len() ==> chars_less(#[trigger] result[a].0@, #[trigger] result[b].0@)
    &&& forall|k: int|
        0 <= k < result.len() ==> endpoint_group(packets, #[trigger] result[k].0@).len() > 0
            && stats_of(result[k].1, endpoint_group(packets, result[k].0@), done)
    &&& forall|k: int|
        0 <= k < packets.len() ==> exists|e: int|
            0 <= e < result.len() && #[trigger] result[e].0@ == key_of(#[trigger] packets[k])
}

/// Adding a packet adds its value.
proof fn lemma_sum_push(packets: Seq<UsbPacket>, packet: UsbPacket, f: spec_fn(UsbPacket) -> nat)
    ensures
        sum_of(packets.push(packet), f) == sum_of(packets, f) + f(packet),
{
    assert(packets.push(packet).drop_last() =~= packets);
}

/// A sub-selection sums to no more than the whole.
proof fn lemma_sum_filter_le(
    packets: Seq<UsbPacket>,
    pred: spec_fn(UsbPacket) -> bool,
    f: spec_fn(UsbPacket) -> nat,
)
    ensures
        sum_of(packets.filter(pred), f) <= sum_of(packets, f),
    decreases packets.len(),
{
    if packets.len() > 0 {
        let rest = packets.drop_last();
        let last = packets.last();
        assert(packets =~= rest.push(last));
        rest.lemma_filter_push(last, pred);
        lemma_sum_filter_le(rest, pred, f);
        if pred(last) {
            lemma_sum_push(rest.filter(pred), last, f);
        }
    }
}

/// A prefix sums to no more than the whole.
proof fn lemma_sum_prefix_le(packets: Seq<UsbPacket>, n: int, f: spec_fn(UsbPacket) -> nat)
    requires
        0 <= n <= packets.len(),
    ensures
        sum_of(packets.take(n), f) <= sum_of(packets, f),
    decreases packets.len(),
{
    if n < packets.len() {
        assert(packets.drop_last().take(n) =~= packets.take(n));
        lemma_sum_prefix_le(packets.drop_last(), n, f);
    } else {
        assert(packets.take(n) =~= packets);
    }
}

/// Statistics of no packets.
fn empty_stats() -> (stats: EndpointStats)
    ensures
        stats_of(stats, Seq::empty(), false),
{
    proof {
        reveal(Seq::filter);
    }
    EndpointStats {
        packet_count: 0,
        packets_with_payload: 0,
        captured_payload_bytes: 0,
        declared_payload_bytes: 0,
        min_payload_size: usize::MAX,
        max_payload_size: 0,
        truncated_packets: 0,
        transfer_counts: Vec::new(),
    }
}

/// Accounts for one more packet of the group.
fn add_to_stats(stats: &mut EndpointStats, packet: &UsbPacket, Ghost(group): Ghost<Seq<UsbPacket>>)
    requires
        stats_of(*old(stats), group, false),
        group.len() + 1 < u64::MAX,
        sum_of(group.push(*packet), |p: UsbPacket| captured_of(p)) < u64::MAX,
        sum_of(group.push(*packet), |p: UsbPacket| declared_of(p)) < u64::MAX,
    ensures
        stats_of(*final(stats), group.push(*packet), false),
{
    let ghost next = group.push(*packet);
    proof {
        let fc = |p: UsbPacket| captured_of(p);
        let fd = |p: UsbPacket| declared_of(p);
        lemma_sum_push(group, *packet, fc);
        lemma_sum_push(group, *packet, fd);
        group.lemma_filter_push(*packet, |p: UsbPacket| has_payload(p));
        group.lemma_filter_push(*packet, |p: UsbPacket| p.truncated);
        group.lemma_filter_len(|p: UsbPacket| has_payload(p));
        group.lemma_filter_len(|p: UsbPacket| p.truncated);
        assert(next.drop_last() =~= group);
        assert forall|t: TransferType| t != packet.transfer_type implies #[trigger] transfer_count(next, t)
            == transfer_count(group, t) by {
            group.lemma_filter_push(*packet, |p: UsbPacket| p.transfer_type == t);
        }
        group.lemma_filter_push(*packet, |p: UsbPacket| p.transfer_type == packet.transfer_type);
        group.lemma_filter_len(|p: UsbPacket| p.transfer_type == packet.transfer_type);
    }
    stats.packet_count = stats.packet_count + 1;
    stats.captured_payload_bytes = stats.captured_payload_bytes + packet.captured_payload_length as u64;
    stats.declared_payload_bytes = stats.declared_payload_bytes + packet.declared_data_length as u64;
    let ghost before_counts = stats.transfer_counts@;
    let mut t: usize = 0;
    let mut found = false;
    while t < stats.transfer_counts.len()
        invariant_except_break
            !found,
        invariant
            t <= stats.transfer_counts@.len(),
            stats.transfer_counts@ == before_counts,
            forall|k: int| 0 <= k < t ==> #[trigger] stats.transfer_counts@[k].0 != packet.transfer_type,
        ensures
            found ==> t < stats.transfer_counts@.len() && stats.transfer_counts@[t as int].0
                == packet.transfer_type,
            !found ==> forall|k: int|
                0 <= k < stats.transfer_counts@.len() ==> #[trigger] stats.transfer_counts@[k].0
                    != packet.transfer_type,
            stats.transfer_counts@ == before_counts,
        decreases stats.transfer_counts@.len() - t,
    {
        if stats.transfer_counts[t].0 == packet.transfer_type {
            found = true;
            break;
        }
        t = t + 1;
    }
    if found {
        let (transfer, count) = stats.transfer_counts[t];
        stats.transfer_counts.set(t, (transfer, count + 1));
    } else {
        proof {
            if transfer_count(group, packet.transfer_type) > 0 {
                let pred = |p: UsbPacket| p.transfer_type == packet.transfer_type;
                group.lemma_filter_pred(pred, 0);
                let e = group.filter(pred)[0];
                assert(group.filter(pred).contains(e));
                group.lemma_filter_contains_rev(pred, e);
                let k = choose|k: int| 0 <= k < group.len() && group[k] == e;
                let w = choose|w: int|
                    0 <= w < before_counts.len() && #[trigger] before_counts[w].0 == #[trigger] group[k].transfer_type;
            }
        }
        stats.transfer_counts.push((packet.transfer_type, 1));
    }
    if packet.payload.len() > 0 {
        stats.packets_with_payload = stats.packets_with_payload + 1;
        if packet.captured_payload_length < stats.min_payload_size {
            stats.min_payload_size = packet.captured_payload_length;
        }
        if packet.captured_payload_length > stats.max_payload_size {
            stats.max_payload_size = packet.captured_payload_length;
        }
    }
    if packet.truncated {
        stats.truncated_packets = stats.truncated_packets + 1;
    }
    proof {
        let tc = stats.transfer_counts@;
        assert forall|k: int|
            0 <= k < next.len() implies exists|w: int|
            0 <= w < tc.len() && #[trigger] tc[w].0 == #[trigger] next[k].transfer_type by {
            if k < group.len() {
                assert(next[k] == group[k]);
                let w = choose|w: int|
                    0 <= w < before_counts.len() && #[trigger] before_counts[w].0 == #[trigger] group[k].transfer_type;
                assert(tc[w].0 == before_counts[w].0);
            } else if found {
                assert(tc[t as int].0 == packet.transfer_type);
            } else {
                assert(tc[before_counts.len() as int].0 == packet.transfer_type);
            }
        }
        assert forall|k: int|
            0 <= k < tc.len() implies #[trigger] tc[k].1 == transfer_count(next, tc[k].0) && tc[k].1 > 0 by {
            if k < before_counts.len() && before_counts[k].0 != packet.transfer_type {
                assert(tc[k] == before_counts[k]);
            }
        }
        assert forall|a: int, b: int| 0 <= a < b < tc.len() implies #[trigger] tc[a].0 != #[trigger] tc[b].0 by {
            if b < before_counts.len() {
                assert(before_counts[a].0 != before_counts[b].0);
            }
        }
    }
}

/// Statistics for every endpoint of the capture, ordered by endpoint key.
pub fn endpoint_statistics(packets: &[UsbPacket]) -> (result: Vec<(String, EndpointStats)>)
    requires
        packets@.len() + 1 < u64::MAX,
        sum_of(packets@, |p: UsbPacket| captured_of(p)) < u64::MAX,
        sum_of(packets@, |p: UsbPacket| declared_of(p)) < u64::MAX,
    ensures
        statistics_of(result@, packets@, true),
{
    let mut result: Vec<(String, EndpointStats)> = Vec::new();
    let mut k: usize = 0;
    proof {
        reveal(Seq::filter);
    }
    while k < packets.len()
        invariant
            k <= packets@.len(),
            packets@.len() + 1 < u64::MAX,
            sum_of(packets@, |p: UsbPacket| captured_of(p)) < u64::MAX,
            sum_of(packets@, |p: UsbPacket| declared_of(p)) < u64::MAX,
            statistics_of(result@, packets@.take(k as int), false),
        decreases packets.len() - k,
    {
        let ghost seen = packets@.take(k as int);
        let ghost next = packets@.take(k + 1);
        let ghost before = result@;
        let packet = &packets[k];
        let key = packet.endpoint_key();
        let ghost kv = key@;
        proof {
            assert(next =~= seen.push(*packet));
            assert forall|j: int| 0 <= j < seen.len() implies #[trigger] next[j] == seen[j] by {}
            assert(kv == key_of(*packet));
            lemma_group_push(seen, *packet);
            lemma_bounds(packets@, k as int, kv);
        }
        let mut e: usize = 0;
        let mut found = false;
        while e < result.len()
            invariant_except_break
                !found,
            invariant
                e <= result@.len(),
                result@ == before,
                kv == key@,
                forall|j: int| 0 <= j < e ==> #[trigger] result@[j].0@ != kv,
            ensures
                found ==> e < result@.len() && result@[e as int].0@ == kv,
                !found ==> forall|j: int| 0 <= j < result@.len() ==> #[trigger] result@[j].0@ != kv,
                result@ == before,
            decreases result@.len() - e,
        {
            if result[e].0 == key {
                found = true;
                break;
            }
            e = e + 1;
        }
        if found {
            let (name, mut stats) = result.remove(e);
            add_to_stats(&mut stats, packet, Ghost(endpoint_group(seen, kv)));
            result.insert(e, (name, stats));
            proof {
                lemma_update_entry(before, result@, seen, *packet, e as int);
            }
        } else {
            let mut pos: usize = 0;
            while pos < result.len() && !str_less(key.as_str(), result[pos].0.as_str())
                invariant
                    pos <= result@.len(),
                    result@ == before,
                    kv == key@,
                    forall|j: int| 0 <= j < pos ==> !chars_less(kv, #[trigger] result@[j].0@),
                decreases result@.len() - pos,
            {
                pos = pos + 1;
            }
            proof {
                lemma_absent_group(before, seen, kv);
            }
            let mut stats = empty_stats();
            add_to_stats(&mut stats, packet, Ghost(Seq::<UsbPacket>::empty()));
            result.insert(pos, (key, stats));
            proof {
                lemma_insert_entry(before, result@, seen, *packet, pos as int);
            }
        }
        k = k + 1;
    }
    assert(packets@.take(packets@.len() as int) =~= packets@);
    let ghost settled = result@;
    let mut i: usize = 0;
    while i < result.len()
        invariant
            i <= result@.len(),
            result@.len() == settled.len(),
            statistics_of(settled, packets@, false),
            forall|j: int| 0 <= j < result@.len() ==> #[trigger] result@[j].0 == settled[j].0,
            forall|j: int|
                0 <= j < i ==> stats_of(#[trigger] result@[j].1, endpoint_group(packets@, result@[j].0@), true),
            forall|j: int| i <= j < result@.len() ==> #[trigger] result@[j] == settled[j],
        decreases result@.len() - i,
    {
        let ghost current = result@;
        proof {
            assert(result@[i as int] == settled[i as int]);
            assert(stats_of(settled[i as int].1, endpoint_group(packets@, settled[i as int].0@), false));
        }
        if result[i].1.packets_with_payload == 0 {
            let (name, mut stats) = result.remove(i);
            stats.min_payload_size = 0;
            result.insert(i, (name, stats));
        }
        proof {
            assert forall|j: int| 0 <= j < result@.len() && j != i implies #[trigger] result@[j] == current[j] by {}
            assert(result@[i as int].0 == settled[i as int].0);
            lemma_settle(result@[i as int].1, settled[i as int].1, endpoint_group(packets@, settled[i as int].0@));
            assert(stats_of(result@[i as int].1, endpoint_group(packets@, result@[i as int].0@), true));
        }
        i = i + 1;
    }
    proof {
        assert forall|k: int| 0 <= k < packets@.len() implies exists|e: int|
            0 <= e < result@.len() && #[trigger] result@[e].0@ == key_of(#[trigger] packets@[k]) by {
            let e = choose|e: int| 0 <= e < settled.len() && #[trigger] settled[e].0@ == key_of(packets@[k]);
            assert(result@[e].0 == settled[e].0);
        }
        assert forall|a: int, b: int|
            0 <= a < b < result@.len() implies chars_less(#[trigger] result@[a].0@, #[trigger] result@[b].0@) by {
            assert(result@[a].0 == settled[a].0);
            assert(result@[b].0 == settled[b].0);
        }
        assert forall|k: int| 0 <= k < result@.len() implies endpoint_group(packets@, #[trigger] result@[k].0@).len() > 0 by {
            assert(result@[k].0 == settled[k].0);
        }
    }
    result
}

/// Settling the minimum of a group without payload to 0 completes its
/// statistics.
#[verifier::spinoff_prover]
proof fn lemma_settle(settled: EndpointStats, running: EndpointStats, group: Seq<UsbPacket>)
    requires
        stats_of(running, group, false),
        settled.packet_count == running.packet_count,
        settled.packets_with_payload == running.packets_with_payload,
        settled.captured_payload_bytes == running.captured_payload_bytes,
        settled.declared_payload_bytes == running.declared_payload_bytes,
        settled.max_payload_size == running.max_payload_size,
        settled.truncated_packets == running.truncated_packets,
        settled.transfer_counts@ == running.transfer_counts@,
        settled.min_payload_size == if running.packets_with_payload == 0 {
            0
        } else {
            running.min_payload_size
        },
    ensures
        stats_of(settled, group, true),
{
    let rc = running.transfer_counts@;
    assert forall|k: int| 0 <= k < group.len() implies exists|t: int|
        0 <= t < settled.transfer_counts@.len() && #[trigger] settled.transfer_counts@[t].0 == #[trigger] group[k].transfer_type by {
        let t = choose|t: int| 0 <= t < rc.len() && #[trigger] rc[t].0 == #[trigger] group[k].transfer_type;
        assert(settled.transfer_counts@[t] == rc[t]);
    }
}

/// Adding a packet extends its endpoint's group and no other.
proof fn lemma_group_push(seen: Seq<UsbPacket>, packet: UsbPacket)
    ensures
        endpoint_group(seen.push(packet), key_of(packet)) == endpoint_group(seen, key_of(packet)).push(packet),
        forall|key: Seq<char>| key != key_of(packet) ==> #[trigger] endpoint_group(seen.push(packet), key)
            == endpoint_group(seen, key),
{
    seen.lemma_filter_push(packet, |p: UsbPacket| key_of(p) == key_of(packet));
    assert forall|key: Seq<char>| key != key_of(packet) implies #[trigger] endpoint_group(seen.push(packet), key)
        == endpoint_group(seen, key) by {
        seen.lemma_filter_push(packet, |p: UsbPacket| key_of(p) == key);
    }
}

/// The sums of a group within the first `k + 1` packets stay below the
/// sums of all packets.
proof fn lemma_bounds(packets: Seq<UsbPacket>, k: int, key: Seq<char>)
    requires
        0 <= k < packets.len(),
    ensures
        sum_of(endpoint_group(packets.take(k + 1), key), |p: UsbPacket| captured_of(p))
            <= sum_of(packets, |p: UsbPacket| captured_of(p)),
        sum_of(endpoint_group(packets.take(k + 1), key), |p: UsbPacket| declared_of(p))
            <= sum_of(packets, |p: UsbPacket| declared_of(p)),
        endpoint_group(packets.take(k + 1), key).len() <= k + 1,
{
    let prefix = packets.take(k + 1);
    let pred = |p: UsbPacket| key_of(p) == key;
    lemma_sum_filter_le(prefix, pred, |p: UsbPacket| captured_of(p));
    lemma_sum_filter_le(prefix, pred, |p: UsbPacket| declared_of(p));
    lemma_sum_prefix_le(packets, k + 1, |p: UsbPacket| captured_of(p));
    lemma_sum_prefix_le(packets, k + 1, |p: UsbPacket| declared_of(p));
    prefix.lemma_filter_len(pred);
}

/// A key that no entry carries has no packets yet.
proof fn lemma_absent_group(result: Seq<(String, EndpointStats)>, seen: Seq<UsbPacket>, key: Seq<char>)
    requires
        statistics_of(result, seen, false),
        forall|j: int| 0 <= j < result.len() ==> #[trigger] result[j].0@ != key,
    ensures
        endpoint_group(seen, key) == Seq::<UsbPacket>::empty(),
{
    let pred = |p: UsbPacket| key_of(p) == key;
    let g = endpoint_group(seen, key);
    if g.len() > 0 {
        seen.lemma_filter_pred(pred, 0);
        assert(g.contains(g[0]));
        seen.lemma_filter_contains_rev(pred, g[0]);
        let k = choose|k: int| 0 <= k < seen.len() && seen[k] == g[0];
        let e = choose|e: int| 0 <= e < result.len() && #[trigger] result[e].0@ == key_of(#[trigger] seen[k]);
    }
    assert(g =~= Seq::<UsbPacket>::empty());
}

/// Updating the entry of the packet's endpoint keeps the statistics.
proof fn lemma_update_entry(
    before: Seq<(String, EndpointStats)>,
    after: Seq<(String, EndpointStats)>,
    seen: Seq<UsbPacket>,
    packet: UsbPacket,
    e: int,
)
    requires
        statistics_of(before, seen, false),
        0 <= e < before.len(),
        before[e].0@ == key_of(packet),
        after.len() == before.len(),
        after[e].0 == before[e].0,
        stats_of(after[e].1, endpoint_group(seen, key_of(packet)).push(packet), false),
        forall|j: int| 0 <= j < after.len() && j != e ==> #[trigger] after[j] == before[j],
        endpoint_group(seen.push(packet), key_of(packet)) == endpoint_group(seen, key_of(packet)).push(packet),
        forall|key: Seq<char>| key != key_of(packet) ==> #[trigger] endpoint_group(seen.push(packet), key)
            == endpoint_group(seen, key),
    ensures
        statistics_of(after, seen.push(packet), false),
{
    let next = seen.push(packet);
    assert forall|a: int, b: int|
        0 <= a < b < after.len() implies chars_less(#[trigger] after[a].0@, #[trigger] after[b].0@) by {
        assert(after[a].0 == before[a].0);
        assert(after[b].0 == before[b].0);
    }
    assert forall|j: int|
        0 <= j < after.len() implies endpoint_group(next, #[trigger] after[j].0@).len() > 0
            && stats_of(after[j].1, endpoint_group(next, after[j].0@), false) by {
        if j != e {
            assert(after[j] == before[j]);
            assert(before[j].0@ != before[e].0@) by {
                if j < e {
                    lemma_chars_less_irreflexive(before[j].0@);
                } else {
                    lemma_chars_less_irreflexive(before[e].0@);
                }
            }
        }
    }
    assert forall|k: int| 0 <= k < next.len() implies exists|w: int|
        0 <= w < after.len() && #[trigger] after[w].0@ == key_of(#[trigger] next[k]) by {
        if k < seen.len() {
            assert(next[k] == seen[k]);
            let w = choose|w: int| 0 <= w < before.len() && #[trigger] before[w].0@ == key_of(#[trigger] seen[k]);
            if w != e {
                assert(after[w] == before[w]);
            }
        } else {
            assert(after[e].0@ == key_of(packet));
        }
    }
}

/// Inserting a new endpoint at its ordered place keeps the statistics.
#[verifier::spinoff_prover]
proof fn lemma_insert_entry(
    before: Seq<(String, EndpointStats)>,
    after: Seq<(String, EndpointStats)>,
    seen: Seq<UsbPacket>,
    packet: UsbPacket,
    pos: int,
)
    requires
        statistics_of(before, seen, false),
        0 <= pos <= before.len(),
        forall|j: int| 0 <= j < before.len() ==> #[trigger] before[j].0@ != key_of(packet),
        forall|j: int| 0 <= j < pos ==> !chars_less(key_of(packet), #[trigger] before[j].0@),
        pos < before.len() ==> chars_less(key_of(packet), before[pos].0@),
        after.len() == before.len() + 1,
        after[pos].0@ == key_of(packet),
        stats_of(after[pos].1, Seq::<UsbPacket>::empty().push(packet), false),
        forall|j: int| 0 <= j < pos ==> #[trigger] after[j] == before[j],
        forall|j: int| pos < j < after.len() ==> #[trigger] after[j] == before[j - 1],
        endpoint_group(seen, key_of(packet)) == Seq::<UsbPacket>::empty(),
        endpoint_group(seen.push(packet), key_of(packet)) == endpoint_group(seen, key_of(packet)).push(packet),
        forall|key: Seq<char>| key != key_of(packet) ==> #[trigger] endpoint_group(seen.push(packet), key)
            == endpoint_group(seen, key),
    ensures
        statistics_of(after, seen.push(packet), false),
{
    let next = seen.push(packet);
    let key = key_of(packet);
    assert forall|j: int| 0 <= j < pos implies chars_less(#[trigger] before[j].0@, key) by {
        lemma_chars_less_total(before[j].0@, key);
    }
    assert forall|a: int, b: int|
        0 <= a < b < after.len() implies chars_less(#[trigger] after[a].0@, #[trigger] after[b].0@) by {
        if b < pos {
            assert(after[a] == before[a] && after[b] == before[b]);
        } else if b == pos {
            assert(after[a] == before[a]);
        } else if a < pos {
            assert(after[a] == before[a] && after[b] == before[b - 1]);
            assert(chars_less(before[a].0@, key));
            assert(chars_less(key, before[pos].0@));
            lemma_chars_less_transitive(before[a].0@, key, before[pos].0@);
            if b - 1 > pos {
                lemma_chars_less_transitive(before[a].0@, before[pos].0@, before[b - 1].0@);
            }
        } else if a == pos {
            assert(after[b] == before[b - 1]);
            if b - 1 > pos {
                lemma_chars_less_transitive(key, before[pos].0@, before[b - 1].0@);
            }
        } else {
            assert(after[a] == before[a - 1] && after[b] == before[b - 1]);
        }
    }
    assert(Seq::<UsbPacket>::empty().push(packet) =~= endpoint_group(next, key));
    assert forall|j: int|
        0 <= j < after.len() implies endpoint_group(next, #[trigger] after[j].0@).len() > 0
            && stats_of(after[j].1, endpoint_group(next, after[j].0@), false) by {
        if j < pos {
            assert(after[j] == before[j]);
        } else if j > pos {
            assert(after[j] == before[j - 1]);
        }
    }
    assert forall|k: int| 0 <= k < next.len() implies exists|w: int|
        0 <= w < after.len() && #[trigger] after[w].0@ == key_of(#[trigger] next[k]) by {
        if k < seen.len() {
            assert(next[k] == seen[k]);
            let w = choose|w: int| 0 <= w < before.len() && #[trigger] before[w].0@ == key_of(#[trigger] seen[k]);
            if w < pos {
                assert(after[w] == before[w]);
            } else {
                assert(after[w + 1] == before[w]);
            }
        } else {
            assert(after[pos].0@ == key);
        }
    }
}

/// Packets counted over the first `n` endpoints of a statistics table.
pub open spec fn counted_packets(result: Seq<(String, EndpointStats)>, n: int) -> int
    decreases n,
{
    if n <= 0 {
        0
    } else {
        counted_packets(result, n - 1) + result[n - 1].1.packet_count
    }
}

/// Sizes of the groups of `packets` under the first `n` keys, added up.
spec fn group_total(keys: Seq<Seq<char>>, packets: Seq<UsbPacket>, n: int) -> int
    decreases n,
{
    if n <= 0 {
        0
    } else {
        group_total(keys, packets, n - 1) + endpoint_group(packets, keys[n - 1]).len()
    }
}

/// How many of the first `n` keys equal `key`.
spec fn key_count(keys: Seq<Seq<char>>, key: Seq<char>, n: int) -> int
    decreases n,
{
    if n <= 0 {
        0
    } else {
        key_count(keys, key, n - 1) + if keys[n - 1] == key { 1int } else { 0int }
    }
}

proof fn lemma_group_total_empty(keys: Seq<Seq<char>>, n: int)
    ensures
        group_total(keys, Seq::<UsbPacket>::empty(), n) == 0,
    decreases n,
{
    reveal(Seq::filter);
    if n > 0 {
        lemma_group_total_empty(keys, n - 1);
        assert(endpoint_group(Seq::<UsbPacket>::empty(), keys[n - 1]) =~= Seq::<UsbPacket>::empty());
    }
}

proof fn lemma_group_total_push(keys: Seq<Seq<char>>, packets: Seq<UsbPacket>, packet: UsbPacket, n: int)
    ensures
        group_total(keys, packets.push(packet), n) == group_total(keys, packets, n) + key_count(
            keys,
            key_of(packet),
            n,
        ),
    decreases n,
{
    if n > 0 {
        lemma_group_total_push(keys, packets, packet, n - 1);
        lemma_group_push(packets, packet);
        if keys[n - 1] != key_of(packet) {
            assert(endpoint_group(packets.push(packet), keys[n - 1]) == endpoint_group(packets, keys[n - 1]));
        }
    }
}

proof fn lemma_key_count_absent(keys: Seq<Seq<char>>, key: Seq<char>, n: int)
    requires
        0 <= n <= keys.len(),
        forall|i: int| 0 <= i < n ==> keys[i] != key,
    ensures
        key_count(keys, key, n) == 0,
    decreases n,
{
    if n > 0 {
        lemma_key_count_absent(keys, key, n - 1);
    }
}

proof fn lemma_key_count_once(keys: Seq<Seq<char>>, key: Seq<char>, n: int, at: int)
    requires
        0 <= at < n <= keys.len(),
        keys[at] == key,
        forall|a: int, b: int| 0 <= a < b < n ==> keys[a] != keys[b],
    ensures
        key_count(keys, key, n) == 1,
    decreases n,
{
    if at == n - 1 {
        assert forall|i: int| 0 <= i < n - 1 implies keys[i] != key by {
            assert(keys[i] != keys[n - 1]);
        }
        lemma_key_count_absent(keys, key, n - 1);
    } else {
        lemma_key_count_once(keys, key, n - 1, at);
        assert(keys[at] != keys[n - 1]);
    }
}

/// `key` is one of `keys`.
spec fn key_listed(keys: Seq<Seq<char>>, key: Seq<char>) -> bool {
    exists|e: int| 0 <= e < keys.len() && keys[e] == key
}

proof fn lemma_group_total_covers(keys: Seq<Seq<char>>, packets: Seq<UsbPacket>)
    requires
        forall|a: int, b: int| 0 <= a < b < keys.len() ==> keys[a] != keys[b],
        forall|k: int| 0 <= k < packets.len() ==> key_listed(keys, key_of(#[trigger] packets[k])),
    ensures
        group_total(keys, packets, keys.len() as int) == packets.len(),
    decreases packets.len(),
{
    if packets.len() == 0 {
        lemma_group_total_empty(keys, keys.len() as int);
        assert(packets =~= Seq::<UsbPacket>::empty());
    } else {
        let rest = packets.drop_last();
        let last = packets.last();
        assert forall|k: int| 0 <= k < rest.len() implies key_listed(keys, key_of(#[trigger] rest[k])) by {
            assert(rest[k] == packets[k]);
        }
        lemma_group_total_covers(keys, rest);
        assert(rest.push(last) =~= packets);
        lemma_group_total_push(keys, rest, last, keys.len() as int);
        assert(key_listed(keys, key_of(packets[packets.len() - 1])));
        let e = choose|e: int| 0 <= e < keys.len() && keys[e] == key_of(last);
        lemma_key_count_once(keys, key_of(last), keys.len() as int, e);
    }
}

proof fn lemma_counted_is_group_total(result: Seq<(String, EndpointStats)>, packets: Seq<UsbPacket>, n: int)
    requires
        0 <= n <= result.len(),
        forall|k: int| 0 <= k < result.len() ==> #[trigger] result[k].1.packet_count == endpoint_group(packets, result[k].0@).len(),
    ensures
        counted_packets(result, n) == group_total(result.map_values(|entry: (String, EndpointStats)| entry.0@), packets, n),
    decreases n,
{
    if n > 0 {
        lemma_counted_is_group_total(result, packets, n - 1);
        assert(result[n - 1].1.packet_count == endpoint_group(packets, result[n - 1].0@).len());
    }
}

/// Every packet is counted exactly once: the packet counts of the
/// endpoints add up to the number of packets.
pub proof fn law_every_packet_counted_once(result: Seq<(String, EndpointStats)>, packets: Seq<UsbPacket>)
    requires
        statistics_of(result, packets, true),
    ensures
        counted_packets(result, result.len() as int) == packets.len(),
{
    let keys = result.map_values(|entry: (String, EndpointStats)| entry.0@);
    assert forall|a: int, b: int| 0 <= a < b < keys.len() implies keys[a] != keys[b] by {
        assert(chars_less(result[a].0@, result[b].0@));
        lemma_chars_less_irreflexive(result[a].0@);
    }
    assert forall|k: int| 0 <= k < packets.len() implies key_listed(keys, key_of(#[trigger] packets[k])) by {
        let e = choose|e: int| 0 <= e < result.len() && #[trigger] result[e].0@ == key_of(#[trigger] packets[k]);
        assert(keys[e] == result[e].0@);
    }
    lemma_group_total_covers(keys, packets);
    assert forall|k: int| 0 <= k < result.len() implies #[trigger] result[k].1.packet_count == endpoint_group(packets, result[k].0@).len() by {
        assert(stats_of(result[k].1, endpoint_group(packets, result[k].0@), true));
    }
    lemma_counted_is_group_total(result, packets, result.len() as int);
}

} // verus!
