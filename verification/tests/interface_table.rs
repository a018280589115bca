//! The interface table.

use netflector::capture::Capture;
use netflector::dispatch::interface_table::{
    CaptureRebind, InterfaceTable, NameLookup, Opened, SentFrame, StaleInterface,
};
use netflector::dispatch::keys::{CaptureKey, InterfaceKey};
use netflector::interface::{InterfaceAddresses, Resolution, ResolveFailed, Resolved};
use netflector::net::{IpAddr, Ipv4Addr, Ipv6Addr};

const LO: &str = "lo";
const LO_INDEX: u32 = 1;

fn table() -> InterfaceTable<()> {
    InterfaceTable::new()
}

fn lo_addrs() -> InterfaceAddresses {
    InterfaceAddresses::new(None, Some(Ipv4Addr::localhost()), Some(Ipv6Addr { bits: 1 }), None)
}

fn found() -> Resolution {
    Resolution::Found(Resolved { addrs: lo_addrs(), mtu: Some(65536) })
}

fn gone() -> Resolution {
    Resolution::Found(Resolved { addrs: InterfaceAddresses::default(), mtu: None })
}

fn opened(ifindex: u32) -> Result<Opened, ResolveFailed> {
    Ok(Opened { ifindex, resolved: Resolved { addrs: lo_addrs(), mtu: Some(65536) } })
}

fn capture(fd: i32) -> Capture<()> {
    Capture::new((), fd, LO.to_owned(), vec![0; 64])
}

/// A row whose capture is out, as while it is drained.
fn add_taken(table: &mut InterfaceTable<()>) -> CaptureKey {
    let key = table.add_capture(capture(9), InterfaceKey(0));
    assert!(table.take(key).is_some());
    key
}

fn mdns_v4() -> IpAddr {
    IpAddr::V4(Ipv4Addr::new(224, 0, 0, 251))
}

fn mdns_v6() -> IpAddr {
    IpAddr::V6(Ipv6Addr { bits: 0xff02_0000_0000_0000_0000_0000_0000_00fb })
}

#[test]
fn is_last_sent_matches_only_the_set_frame_for_the_same_packet() {
    let mut table = table();
    let egress = add_taken(&mut table);
    let other = add_taken(&mut table);
    let frame = SentFrame { packet: 1, len: 60, checksum: 0x1234 };
    // Nothing set yet: a failed send leaves it that way, so a retry goes out.
    assert!(!table.is_last_sent(egress, frame));
    table.set_last_sent(egress, frame);
    assert!(table.is_last_sent(egress, frame));
    // Another egress, another length or checksum, or the next packet: not the same frame.
    assert!(!table.is_last_sent(other, frame));
    assert!(!table.is_last_sent(egress, SentFrame { len: 61, ..frame }));
    assert!(!table.is_last_sent(egress, SentFrame { checksum: 0x1235, ..frame }));
    assert!(!table.is_last_sent(egress, SentFrame { packet: 2, ..frame }));
    assert!(!table.is_last_sent(CaptureKey::from_u64(999), frame));
    table.set_last_sent(CaptureKey::from_u64(999), frame); // an unknown key is a no-op
    assert!(!table.is_last_sent(CaptureKey::from_u64(999), frame));
}

#[test]
fn refresh_by_ifindex_targets_the_matching_interface() {
    let mut table = table();
    let key = table.find_or_add_interface(LO, opened(LO_INDEX)).unwrap();
    let refreshed = table
        .refresh_by_ifindex(LO_INDEX, found())
        .unwrap()
        .expect("the loopback interface matches its ifindex and re-resolves");
    assert_eq!(refreshed.interface, key);
    assert!(!refreshed.change.v4, "re-resolving the unchanged loopback reports no v4 move");
    assert!(!refreshed.change.v6);
    assert!(refreshed.rejoin);
    assert_eq!(
        table.refresh_by_ifindex(u32::MAX, found()),
        Ok(None),
        "an ifindex we don't watch should refresh nothing",
    );
}

#[test]
fn a_refresh_reports_what_moved_and_a_failed_one_keeps_the_last_known() {
    let mut table = table();
    let key = table.find_or_add_interface(LO, opened(LO_INDEX)).unwrap();
    let row = table.add_capture(capture(4), key);
    let moved = InterfaceAddresses { v4: Some(Ipv4Addr::new(10, 0, 0, 7)), ..lo_addrs() };
    let resolution = Resolution::Found(Resolved { addrs: moved, mtu: Some(1500) });
    let refreshed = table.refresh_by_ifindex(LO_INDEX, resolution).unwrap().unwrap();
    assert!(refreshed.change.v4 && !refreshed.change.v6);
    assert_eq!(table.egress_addrs(row), Some(moved));
    assert_eq!(table.mtu_of(row), Some(1500));
    assert_eq!(table.refresh_by_ifindex(LO_INDEX, Resolution::Failed), Err(ResolveFailed));
    assert_eq!(table.egress_addrs(row), Some(moved));
    let no_v6 = InterfaceAddresses { v6_link_local: None, ..moved };
    let resolution = Resolution::Found(Resolved { addrs: no_v6, mtu: None });
    let refreshed = table.refresh_by_ifindex(LO_INDEX, resolution).unwrap().unwrap();
    assert!(!refreshed.change.v4 && refreshed.change.v6);
    assert_eq!(table.mtu_of(row), None);
}

#[test]
fn join_on_records_a_membership_and_refresh_re_attempts_it() {
    let mut table = table();
    let iface = table.find_or_add_interface(LO, opened(LO_INDEX)).unwrap();
    for group in [mdns_v4(), mdns_v6()] {
        assert_eq!(table.join_on(iface, group), Some(LO_INDEX));
    }
    // Asking again joins again, but records nothing twice.
    assert_eq!(table.join_on(iface, mdns_v4()), Some(LO_INDEX));
    assert_eq!(table.groups(iface).unwrap(), &[mdns_v4(), mdns_v6()]);
    // The recorded memberships survive a refresh, re-attempted idempotently (each interface
    // resolves cleanly).
    let results = table.refresh_all(&vec![found()]);
    assert!(
        results.iter().all(|(_, r)| r.is_ok()),
        "re-resolving every interface succeeds",
    );
    assert_eq!(table.present_interfaces(), vec![iface]);
    assert_eq!(table.groups(iface).unwrap(), &[mdns_v4(), mdns_v6()]);
}

#[test]
fn a_table_without_group_joins_records_and_joins_nothing() {
    let mut table: InterfaceTable<()> = InterfaceTable::without_group_joins();
    let iface = table.find_or_add_interface(LO, opened(LO_INDEX)).unwrap();
    assert_eq!(table.join_on(iface, mdns_v4()), None);
    assert!(table.groups(iface).unwrap().is_empty());
    assert!(table.groups(InterfaceKey(7)).is_none());
}

#[test]
fn stale_interfaces_flags_and_rebind_repairs_a_moved_index() {
    // Healthy while the name resolves to the cached index.
    let mut healthy = table();
    healthy.find_or_add_interface(LO, opened(LO_INDEX)).unwrap();
    assert!(
        healthy.stale_interfaces(&vec![NameLookup::Present(LO_INDEX)], &vec![]).is_empty(),
        "a fresh entry is healthy"
    );
    // A recreation: the kernel identity moved while the cache kept the old index.
    let mut table = table();
    let key = table.find_or_add_interface(LO, opened(LO_INDEX + 1000)).unwrap();
    let lookups = vec![NameLookup::Present(LO_INDEX)];
    assert_eq!(
        table.stale_interfaces(&lookups, &vec![]),
        [StaleInterface { key, cached: LO_INDEX + 1000, cur: LO_INDEX }]
    );
    let rebound = table.rebind_interface(key, LO_INDEX, found());
    assert!(rebound.resolved);
    assert_eq!(rebound.rejoin_at, Some(LO_INDEX));
    assert!(
        table.stale_interfaces(&lookups, &vec![]).is_empty(),
        "the rebuild repaired the identity"
    );
    assert_eq!(table.interface_index(key), Some(LO_INDEX));
}

#[test]
fn rebind_to_absent_parks_the_entry() {
    let mut table = table();
    let key = table.find_or_add_interface(LO, opened(LO_INDEX)).unwrap();
    let row = add_taken(&mut table);
    let lookups = vec![NameLookup::Absent];
    assert_eq!(
        table.stale_interfaces(&lookups, &vec![None]),
        [StaleInterface { key, cached: LO_INDEX, cur: 0 }]
    );
    let rebound = table.rebind_interface(key, 0, gone());
    assert_eq!(rebound.rejoin_at, None, "nothing is joined while absent");
    assert!(
        !table.egress_addrs(row).unwrap().has_v4(),
        "a parked entry's addresses clear, closing the egress gate"
    );
    assert!(
        table.stale_interfaces(&lookups, &vec![None]).is_empty(),
        "a parked entry matches its (absent) identity"
    );
    assert!(table.any_absent());
}

#[test]
fn refresh_all_does_not_rejoin_a_parked_interface() {
    let mut table = table();
    let key = table.find_or_add_interface(LO, opened(LO_INDEX)).unwrap();
    assert_eq!(table.join_on(key, mdns_v4()), Some(LO_INDEX));
    table.rebind_interface(key, 0, gone()); // park: no rejoin
    table.refresh_all(&vec![gone()]);
    assert!(
        table.present_interfaces().is_empty(),
        "a parked interface has nothing to re-join through the overflow refresh"
    );
    // Its groups stay recorded for its return, and asking for one more joins nothing yet.
    assert_eq!(table.join_on(key, mdns_v6()), None);
    assert_eq!(table.groups(key).unwrap(), &[mdns_v4(), mdns_v6()]);
}

#[test]
fn captures_of_maps_the_reverse_link_and_empty_slots_rebind_as_noops() {
    let mut table = table();
    let a = add_taken(&mut table); // both link InterfaceKey(0)
    let b = add_taken(&mut table);
    assert_eq!(table.captures_of(InterfaceKey(0)), [a, b]);
    assert!(table.captures_of(InterfaceKey(1)).is_empty());
    // Slots without a capture and out-of-range keys are neither a failure nor a success.
    assert_eq!(table.rebind_capture(a, true), CaptureRebind::Missing);
    assert_eq!(table.rebind_capture(CaptureKey(99), true), CaptureRebind::Missing);
    let c = table.add_capture(capture(5), InterfaceKey(0));
    assert_eq!(table.rebind_capture(c, true), CaptureRebind::Rebound);
    assert_eq!(table.rebind_capture(c, false), CaptureRebind::Failed);
}

#[test]
fn find_or_add_interface_dedups_by_name() {
    let mut table = table();
    let first = table.find_or_add_interface(LO, opened(LO_INDEX)).unwrap();
    let second = table.find_or_add_interface(LO, opened(LO_INDEX + 5)).unwrap();
    assert_eq!(first, second, "the same name resolves to one interface key");
    assert_eq!(table.interface_index(first), Some(LO_INDEX));
    assert_eq!(table.interface_count(), 1);
    let third = table.find_or_add_interface("eth0", opened(2)).unwrap();
    assert_eq!(third, InterfaceKey(1));
    assert_eq!(table.find_interface("eth0"), Some(third));
    assert_eq!(table.find_interface("eth1"), None);
    assert_eq!(table.find_or_add_interface("eth1", Err(ResolveFailed)), Err(ResolveFailed));
    assert_eq!(table.interface_count(), 2);
}

#[test]
fn capture_accessors_reject_an_out_of_range_key() {
    let mut table = table();
    let forged = CaptureKey(0); // nothing added yet
    assert!(!table.contains(forged));
    assert!(table.interface_of(forged).is_none());
    assert!(table.ifindex_of(forged).is_none());
    assert!(table.capture(forged).is_none());
    assert!(table.egress_addrs(forged).is_none());
    assert!(table.take(forged).is_none());
    assert!(table.counters(forged).is_none());
    assert!(!table.restore(forged, capture(3)));
}

#[test]
fn a_taken_capture_leaves_its_interface_known() {
    let mut table = table();
    let lo = table.find_or_add_interface(LO, opened(LO_INDEX)).unwrap();
    let key = table.add_capture(capture(11), lo);
    assert_eq!(table.capture_watches(), vec![(11, 0)]);
    let taken = table.take(key).unwrap();
    assert!(table.contains(key));
    assert!(table.capture(key).is_none());
    assert!(table.take(key).is_none());
    assert_eq!(table.interface_of(key), Some(lo));
    assert_eq!(table.egress_addrs(key), Some(lo_addrs()));
    assert!(table.capture_watches().is_empty());
    assert!(table.restore(key, taken));
    assert_eq!(table.capture(key).unwrap().fd, 11);
}

#[test]
fn a_dead_capture_behind_an_unchanged_index_is_stale() {
    let mut table = table();
    let lo = table.find_or_add_interface(LO, opened(LO_INDEX)).unwrap();
    let eth = table.find_or_add_interface("eth0", opened(2)).unwrap();
    table.add_capture(capture(3), lo);
    let on_eth = table.add_capture(capture(4), eth);
    let lookups = vec![NameLookup::Present(LO_INDEX), NameLookup::Present(2)];
    assert!(table.stale_interfaces(&lookups, &vec![Some(LO_INDEX), Some(2)]).is_empty());
    assert_eq!(
        table.stale_interfaces(&lookups, &vec![Some(LO_INDEX), None]),
        [StaleInterface { key: eth, cached: 2, cur: 2 }]
    );
    assert!(table.probe_by_ifindex(LO_INDEX, &vec![Some(LO_INDEX), None]));
    assert!(!table.probe_by_ifindex(2, &vec![Some(LO_INDEX), None]));
    assert!(!table.probe_by_ifindex(2, &vec![Some(LO_INDEX), Some(7)]));
    assert!(table.probe_by_ifindex(99, &vec![None, None]));
    // A lookup that could not run says nothing.
    let unknown = vec![NameLookup::Unavailable, NameLookup::Unavailable];
    assert!(table.stale_interfaces(&unknown, &vec![None, None]).is_empty());
    // A capture taken out is not probed.
    table.take(on_eth);
    assert!(table.stale_interfaces(&lookups, &vec![Some(LO_INDEX), None]).is_empty());
    assert_eq!(table.captures_at_ifindex(2), vec![on_eth]);
    assert!(table.captures_at_ifindex(9).is_empty());
}

#[test]
fn a_failed_resolution_keeps_the_old_identity_and_stays_stale() {
    let mut table = table();
    let key = table.find_or_add_interface(LO, opened(5)).unwrap();
    let lookups = vec![NameLookup::Present(6)];
    let rebound = table.rebind_interface(key, 6, Resolution::Failed);
    assert!(!rebound.resolved);
    assert_eq!(rebound.rejoin_at, Some(6), "the joins are replayed all the same");
    assert_eq!(table.interface_index(key), Some(5));
    assert_eq!(table.stale_interfaces(&lookups, &vec![]).len(), 1);
}

#[test]
fn counts_stay_on_their_row_and_are_reported_by_name() {
    let mut table = table();
    let lo = table.find_or_add_interface(LO, opened(LO_INDEX)).unwrap();
    let a = table.add_capture(capture(3), lo);
    let b = table.add_capture(capture(4), lo);
    table.record_echo(a);
    table.record_oversized(b, 5);
    table.record_recovery(b);
    let rows = table.counter_rows();
    assert_eq!(rows.len(), 2);
    assert_eq!(rows[0].0, LO);
    assert_eq!((rows[0].1.echoed(), rows[0].1.oversized(), rows[0].1.recoveries()), (1, 0, 0));
    assert_eq!((rows[1].1.echoed(), rows[1].1.oversized(), rows[1].1.recoveries()), (0, 5, 1));
    // A row on an interface that is not known has no name to report under.
    let mut nameless: InterfaceTable<()> = InterfaceTable::new();
    nameless.add_capture(capture(3), InterfaceKey(0));
    assert!(nameless.counter_rows().is_empty());
    assert_eq!(nameless.capture_count(), 1);
}
