use openlcd::monitor::{network_totals, should_ignore_interface, InterfaceCounters};

fn counters(name: &str, transmitted: u64, received: u64) -> InterfaceCounters {
    InterfaceCounters { name: name.to_owned(), transmitted, received }
}

#[test]
fn loopback_is_ignored() {
    assert!(should_ignore_interface("lo"));
    assert!(!should_ignore_interface("lo0"));
    assert!(!should_ignore_interface("eth0"));
}

#[test]
fn sums_counted_interfaces() {
    let interfaces = vec![counters("eth0", 10, 20), counters("lo", 1000, 1000), counters("wlan0", 5, 7)];
    assert_eq!(network_totals(&interfaces), (15, 27));
    assert_eq!(network_totals(&[]), (0, 0));
}

#[test]
fn sums_saturate() {
    let interfaces = vec![counters("a", u64::MAX - 1, 1), counters("b", 5, 2)];
    assert_eq!(network_totals(&interfaces), (u64::MAX, 3));
}
