//! Addresses, counters, the registration store, and texts.

use netflector::arena::Arena;
use netflector::counters::{CaptureCounters, MessageType, Outcome, TypedCounts};
use netflector::errno::Errnos;
use netflector::net::{
    ethernet_dst, DatagramError, IpAddr, Ipv4Addr, Ipv6Addr, MacAddr,
};
use netflector::text::decimal;

#[test]
fn error_numbers_are_the_targets() {
    let errnos = Errnos::of_target();
    assert_eq!(errnos.enetdown, libc::ENETDOWN);
    assert_eq!(errnos.enxio, libc::ENXIO);
    assert_eq!(errnos.emsgsize, libc::EMSGSIZE);
    assert!(errnos.lost_interface(Some(libc::ENETDOWN)));
    assert!(errnos.lost_interface(Some(libc::ENXIO)));
    assert!(!errnos.lost_interface(Some(libc::EMSGSIZE)));
    assert!(!errnos.lost_interface(None));
}

#[test]
fn a_mac_keeps_its_octets() {
    let octets = [0x02, 0x13, 0x24, 0x35, 0x46, 0xf7];
    assert_eq!(MacAddr::from(octets).octets(), octets);
    assert_eq!(MacAddr::new(octets), MacAddr::from(octets));
    assert_ne!(MacAddr::from(octets), MacAddr::from([0x02, 0x13, 0x24, 0x35, 0x46, 0xf8]));
    assert_eq!(MacAddr::broadcast().octets(), [0xff; 6]);
    assert!(MacAddr::broadcast().is_broadcast());
    assert!(MacAddr::from([0; 6]).is_unspecified());
    assert!(!MacAddr::from(octets).is_broadcast() && !MacAddr::from(octets).is_unspecified());
}

#[test]
fn hardware_destinations_follow_the_address_class() {
    let v4 = |a, b, c, d| IpAddr::V4(Ipv4Addr::new(a, b, c, d));
    let octets = |ip, directed| ethernet_dst(ip, directed).map(|mac| mac.octets());
    assert_eq!(octets(v4(255, 255, 255, 255), None), Ok([0xff; 6]));
    // Only the low 23 bits of an IPv4 group reach its hardware address.
    assert_eq!(octets(v4(239, 255, 255, 250), None), Ok([0x01, 0x00, 0x5e, 0x7f, 0xff, 0xfa]));
    assert_eq!(octets(v4(224, 128, 0, 1), None), Ok([0x01, 0x00, 0x5e, 0x00, 0x00, 0x01]));
    let all_nodes = IpAddr::V6(Ipv6Addr { bits: 0xff02_0000_0000_0000_0000_0001_ff12_3456 });
    assert_eq!(octets(all_nodes, None), Ok([0x33, 0x33, 0xff, 0x12, 0x34, 0x56]));
    let own = Some(Ipv4Addr::new(10, 0, 0, 255));
    assert_eq!(octets(v4(10, 0, 0, 255), own), Ok([0xff; 6]));
    assert_eq!(octets(v4(10, 0, 0, 255), None), Err(DatagramError::UnicastDestination));
    let unicast6 = IpAddr::V6(Ipv6Addr { bits: 0xfe80 << 112 });
    assert_eq!(octets(unicast6, own), Err(DatagramError::UnicastDestination));
    assert!(Ipv4Addr::new(224, 0, 0, 0).is_multicast());
    assert!(Ipv4Addr::new(239, 255, 255, 255).is_multicast());
    assert!(!Ipv4Addr::new(223, 255, 255, 255).is_multicast());
    assert!(!Ipv4Addr::new(240, 0, 0, 0).is_multicast());
    assert_eq!(Ipv4Addr::localhost(), Ipv4Addr::new(127, 0, 0, 1));
}

#[test]
fn the_higher_disposition_wins() {
    let ty = MessageType::MdnsQuery;
    let ranked = [
        Outcome::Filtered,
        Outcome::Skipped(ty),
        Outcome::Stalled(ty),
        Outcome::Dropped(ty),
        Outcome::Reflected(ty),
    ];
    for (i, low) in ranked.iter().enumerate() {
        for high in &ranked[i..] {
            assert_eq!(low.combine(*high).0, *high);
            assert_eq!(high.combine(*low).0, *high);
            assert!(!low.combine(*high).1.type_mismatch);
        }
    }
    let other = Outcome::Skipped(MessageType::SsdpSearch);
    assert!(Outcome::Reflected(ty).combine(other).1.type_mismatch);
    assert!(!Outcome::Filtered.combine(other).1.type_mismatch);
    assert_eq!(other.message_type(), Some(MessageType::SsdpSearch));
    assert_eq!(Outcome::Filtered.message_type(), None);
}

#[test]
fn each_disposition_has_its_count() {
    let mut counters = CaptureCounters::new();
    let ty = MessageType::Other(7);
    counters.record(Outcome::Reflected(ty));
    counters.record(Outcome::Reflected(ty));
    counters.record(Outcome::Skipped(ty));
    counters.record(Outcome::Dropped(ty));
    counters.record(Outcome::Stalled(ty));
    counters.record(Outcome::Reflected(MessageType::MdnsQuery));
    counters.record(Outcome::Filtered);
    counters.record_recovery();
    counters.record_oversized(u64::MAX);
    counters.record_oversized(2);
    counters.record_echo();
    assert_eq!(
        counters.typed(ty),
        TypedCounts { reflected: 2, skipped: 1, dropped: 1, stalled: 1 }
    );
    assert_eq!(counters.typed(MessageType::MdnsQuery).reflected, 1);
    assert_eq!(counters.typed(MessageType::SsdpSearch).reflected, 0);
    assert_eq!(counters.filtered(), 1);
    assert_eq!(counters.recoveries(), 1);
    assert_eq!(counters.oversized(), u64::MAX, "a count stays at the largest number");
    assert_eq!(counters.echoed(), 1);
}

#[test]
fn a_removed_key_never_answers_again() {
    let mut arena = Arena::new();
    let a = arena.insert("a");
    let b = arena.insert("b");
    assert_eq!(arena.keys(), vec![a, b]);
    assert_eq!(arena.remove(a), Some("a"));
    assert_eq!(arena.remove(a), None);
    assert_eq!(arena.get(a), None);
    let c = arena.insert("c");
    assert_eq!(c.index, a.index, "the slot is reused");
    assert_ne!(c, a, "under a new generation");
    assert_eq!(arena.get(a), None);
    assert_eq!(arena.get(c), Some(&"c"));
    *arena.get_mut(b).unwrap() = "d";
    assert_eq!(arena.get(b), Some(&"d"));
    assert!(arena.get_mut(a).is_none());
    assert_eq!(arena.slot_count(), 2);
}

#[test]
fn numbers_are_written_in_decimal() {
    assert_eq!(decimal(0), "0");
    assert_eq!(decimal(9), "9");
    assert_eq!(decimal(10), "10");
    assert_eq!(decimal(1_234_567_890), "1234567890");
    assert_eq!(decimal(u64::MAX), "18446744073709551615");
}
