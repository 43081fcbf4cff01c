use system_monitor::models::network::{InterfaceStats, NetData};

const NETDEV: &str = "Inter-|   Receive                                                |  Transmit\n\
 face |bytes    packets errs drop fifo frame compressed multicast|bytes    packets errs drop fifo colls carrier compressed\n\
    lo: 1000      10    0    0    0     0          0         0     1000      10    0    0    0     0       0          0\n\
  eth0: 5000      50    1    2    3     4          5         6     7000      70    7    8    9    10      11         12\n";

#[test]
fn new_interface_has_zero_counters() {
    let s = InterfaceStats::new("eth0".to_string());
    assert_eq!(s.name, "eth0");
    assert!(s.ipv4.is_none());
    assert_eq!(s.rx.bytes, 0);
    assert_eq!(s.tx.multicast_or_carrier, 0);
    let d = NetData::default();
    assert_eq!(d.packets, 0);
}

#[test]
fn reads_counters_of_the_interface() {
    let mut s = InterfaceStats::new("eth0".to_string());
    s.update(NETDEV);
    assert_eq!(s.rx.bytes, 5000);
    assert_eq!(s.rx.packets, 50);
    assert_eq!(s.rx.errs, 1);
    assert_eq!(s.rx.multicast_or_carrier, 6);
    assert_eq!(s.tx.bytes, 7000);
    assert_eq!(s.tx.frame_or_colls, 10);
    assert_eq!(s.tx.multicast_or_carrier, 12);
}

#[test]
fn first_line_holding_the_name_decides() {
    let mut s = InterfaceStats::new("e".to_string());
    s.update(NETDEV);
    // "Receive" holds an "e": that header line has too few words, so nothing changes.
    assert_eq!(s.rx.bytes, 0);
    let mut lo = InterfaceStats::new("lo".to_string());
    lo.update(NETDEV);
    assert_eq!(lo.rx.bytes, 1000);
    assert_eq!(lo.tx.packets, 10);
}

#[test]
fn unknown_interface_changes_nothing() {
    let mut s = InterfaceStats::new("wlan9".to_string());
    s.update(NETDEV);
    assert_eq!(s.rx.bytes, 0);
    assert_eq!(s.tx.bytes, 0);
}

#[test]
fn counters_that_are_not_numbers_count_zero() {
    let mut s = InterfaceStats::new("x0".to_string());
    s.update("x0: 1 2 3 4 5 6 7 z 9 10 11 12 13 14 15 16\n");
    assert_eq!(s.rx.bytes, 1);
    assert_eq!(s.rx.multicast_or_carrier, 0);
    assert_eq!(s.tx.bytes, 9);
    assert_eq!(s.tx.multicast_or_carrier, 16);
}
