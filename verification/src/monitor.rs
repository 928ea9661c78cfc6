//! Integer side of the system monitor: which network interfaces count and
//! how their byte counters add up.
use vstd::prelude::*;

use crate::text::{chars_equal, chars_of};

verus! {

/// The byte counters of one network interface since the last refresh.
#[derive(Debug)]
pub struct InterfaceCounters {
    pub name: String,
    pub transmitted: u64,
    pub received: u64,
}

/// The loopback interface carries no real traffic.
pub open spec fn is_ignored_interface(name: Seq<char>) -> bool {
    name == "lo"@
}

/// Whether an interface is left out of the network totals.
pub fn should_ignore_interface(name: &str) -> (ignored: bool)
    ensures
        ignored == is_ignored_interface(name@),
{
    let a = chars_of(name);
    let b = chars_of("lo");
    chars_equal(a.as_slice(), b.as_slice())
}

/// The exact sums of the transmitted and received bytes of the interfaces
/// that count.
pub open spec fn counted_sums(interfaces: Seq<InterfaceCounters>) -> (int, int)
    decreases interfaces.len(),
{
    if interfaces.len() == 0 {
        (0, 0)
    } else {
        let rest = counted_sums(interfaces.drop_last());
        let last = interfaces.last();
        if is_ignored_interface(last.name@) {
            rest
        } else {
            (rest.0 + last.transmitted, rest.1 + last.received)
        }
    }
}

/// A sum that stops at `u64::MAX`.
pub open spec fn saturated(total: int) -> u64 {
    if total > u64::MAX {
        u64::MAX
    } else {
        total as u64
    }
}

proof fn lemma_counted_sums_nonnegative(interfaces: Seq<InterfaceCounters>)
    ensures
        counted_sums(interfaces).0 >= 0,
        counted_sums(interfaces).1 >= 0,
    decreases interfaces.len(),
{
    if interfaces.len() > 0 {
        lemma_counted_sums_nonnegative(interfaces.drop_last());
    }
}

/// The transmitted and received bytes of all interfaces but the ignored
/// ones, each sum saturating at `u64::MAX`.
pub fn network_totals(interfaces: &[InterfaceCounters]) -> (totals: (u64, u64))
    ensures
        totals.0 == saturated(counted_sums(interfaces@).0),
        totals.1 == saturated(counted_sums(interfaces@).1),
{
    let mut transmitted: u64 = 0;
    let mut received: u64 = 0;
    let mut i: usize = 0;
    while i < interfaces.len()
        invariant
            i <= interfaces@.len(),
            transmitted == saturated(counted_sums(interfaces@.take(i as int)).0),
            received == saturated(counted_sums(interfaces@.take(i as int)).1),
        decreases interfaces.len() - i,
    {
        proof {
            lemma_counted_sums_nonnegative(interfaces@.take(i as int));
            assert(interfaces@.take(i + 1).drop_last() =~= interfaces@.take(i as int));
            assert(interfaces@.take(i + 1).last() == interfaces@[i as int]);
        }
        let interface = &interfaces[i];
        if !should_ignore_interface(interface.name.as_str()) {
            transmitted = transmitted.saturating_add(interface.transmitted);
            received = received.saturating_add(interface.received);
        }
        i = i + 1;
    }
    assert(interfaces@.take(interfaces@.len() as int) =~= interfaces@);
    (transmitted, received)
}

} // verus!
