//! Packet filters.

use netflector::dispatch::filter::{Filter, FilterSet, IpSet, MacSet, PortSet};
use netflector::net::{IpAddr, Ipv4Addr, Ipv6Addr, MacAddr, Packet, SocketAddr};

fn v4(a: u8, b: u8, c: u8, d: u8) -> IpAddr {
    IpAddr::V4(Ipv4Addr::new(a, b, c, d))
}

fn v6(segments: [u16; 8]) -> IpAddr {
    let mut bits: u128 = 0;
    for segment in segments {
        bits = (bits << 16) | u128::from(segment);
    }
    IpAddr::V6(Ipv6Addr { bits })
}

fn packet(
    source: (IpAddr, u16),
    dest: (IpAddr, u16),
    dst_mac: Option<MacAddr>,
    src_mac: Option<MacAddr>,
) -> Packet<'static> {
    Packet {
        source: SocketAddr { ip: source.0, port: source.1 },
        dest: SocketAddr { ip: dest.0, port: dest.1 },
        ttl: 64,
        dst_mac,
        src_mac,
        payload: b"",
    }
}

fn mdns_v4() -> IpAddr {
    v4(224, 0, 0, 251)
}

fn mdns_v6() -> IpAddr {
    v6([0xff02, 0, 0, 0, 0, 0, 0, 0xfb])
}

fn link_local() -> IpAddr {
    v6([0xfe80, 0, 0, 0, 0, 0, 0, 1])
}

#[test]
fn wildcard_filter_matches_anything() {
    let p = packet((v4(10, 0, 0, 1), 1), (v4(10, 0, 0, 2), 2), None, None);
    assert!(Filter::default().matches(&p, None));
}

#[test]
fn filter_matches_destination_group_and_port() {
    let f = Filter {
        dst_ip: Some(IpSet::from(mdns_v4())),
        dst_port: Some(PortSet::from(5353)),
        ..Filter::default()
    };
    let from = (v4(10, 0, 0, 1), 5353);
    assert!(f.matches(&packet(from, (mdns_v4(), 5353), None, None), None));
    // Wrong group, and wrong port, each miss.
    assert!(!f.matches(&packet(from, (v4(224, 0, 0, 252), 5353), None, None), None));
    assert!(!f.matches(&packet(from, (mdns_v4(), 1900), None, None), None));
}

#[test]
fn filter_broadcast_takes_the_all_ones_mac_or_the_limited_broadcast() {
    let f = Filter { broadcast: true, ..Filter::default() };
    let all_ones = Some(MacAddr::broadcast());
    let unicast = Some(MacAddr::from([0x02, 0, 0, 0, 0, 1]));
    let own = Some(Ipv4Addr::new(10, 0, 0, 255));
    let near = (v4(10, 0, 0, 1), 1);
    let far = (v4(10, 0, 1, 1), 1);
    let near_broadcast = (v4(10, 0, 0, 255), 9);
    let far_broadcast = (v4(10, 0, 1, 255), 9);
    let limited = (v4(255, 255, 255, 255), 9);
    // On the all-ones MAC every subnet's directed broadcast qualifies, the limited one too.
    assert!(f.matches(&packet(near, near_broadcast, all_ones, None), own));
    assert!(f.matches(&packet(far, far_broadcast, all_ones, None), own));
    assert!(f.matches(&packet(near, limited, all_ones, None), own));
    // Without MACs (DLT_NULL) the address decides: the limited broadcast, or the link's own.
    assert!(f.matches(&packet(near, limited, None, None), own));
    assert!(f.matches(&packet(near, near_broadcast, None, None), own));
    assert!(!f.matches(&packet(far, far_broadcast, None, None), own));
    assert!(!f.matches(&packet(near, near_broadcast, None, None), None));
    // The frame decides, not the address's shape: a broadcast-looking address on a unicast
    // frame is unicast, a unicast-looking one on the all-ones MAC is a broadcast of a subnet
    // the sender knows.
    assert!(!f.matches(&packet(near, near_broadcast, unicast, None), own));
    assert!(f.matches(&packet(near, (v4(10, 0, 0, 2), 9), all_ones, None), own));
    assert!(!f.matches(&packet(near, (mdns_v4(), 9), None, None), own));
    // A group on the all-ones MAC is still a group: the group handler's, not this one's.
    assert!(!f.matches(&packet(near, (mdns_v4(), 9), all_ones, None), own));
    let all_nodes = v6([0xff02, 0, 0, 0, 0, 0, 0, 1]);
    assert!(!f.matches(&packet((link_local(), 1), (all_nodes, 9), all_ones, None), own));
}

#[test]
fn filter_dst_ip_set_matches_any_group() {
    // One handler spanning the v4 and v6 mDNS groups: either destination matches.
    let f = Filter {
        dst_ip: Some(FilterSet::from_values(vec![mdns_v4(), mdns_v6()]).unwrap()),
        dst_port: Some(PortSet::from(5353)),
        ..Filter::default()
    };
    let from = (v4(10, 0, 0, 1), 5353);
    assert!(f.matches(&packet(from, (mdns_v4(), 5353), None, None), None));
    assert!(f.matches(&packet((link_local(), 5353), (mdns_v6(), 5353), None, None), None));
    // A group outside the set, and a member on the wrong port, each miss.
    assert!(!f.matches(&packet(from, (v4(239, 255, 255, 250), 5353), None, None), None));
    assert!(!f.matches(&packet(from, (mdns_v4(), 1900), None, None), None));
}

#[test]
fn filter_dst_port_set_matches_any_port() {
    // One handler spanning WoL ports 7 and 9: either destination port matches.
    let f = Filter {
        dst_port: Some(FilterSet::from_values(vec![7u16, 9]).unwrap()),
        ..Filter::default()
    };
    let from = (v4(10, 0, 0, 1), 1);
    let limited = v4(255, 255, 255, 255);
    assert!(f.matches(&packet(from, (limited, 7), None, None), None));
    assert!(f.matches(&packet(from, (limited, 9), None, None), None));
    // A port outside the set misses.
    assert!(!f.matches(&packet(from, (limited, 8), None, None), None));
}

#[test]
fn filter_matches_source_mac_and_excludes_others() {
    let device = MacAddr::from([0x02, 0, 0, 0, 0, 0x01]);
    let f = Filter { src_mac: Some(MacSet::from(device)), ..Filter::default() };
    let from = (v4(10, 0, 0, 1), 5353);
    let to = (v4(10, 0, 0, 2), 5353);
    assert!(f.matches(&packet(from, to, None, Some(device)), None));
    // A different device, and a MAC-less (DLT_NULL) packet, both miss.
    let other = MacAddr::from([0x02, 0, 0, 0, 0, 0x02]);
    assert!(!f.matches(&packet(from, to, None, Some(other)), None));
    assert!(!f.matches(&packet(from, to, None, None), None));
}

#[test]
fn filter_source_mac_set_matches_any_member() {
    let a = MacAddr::from([0x02, 0, 0, 0, 0, 0x01]);
    let b = MacAddr::from([0x02, 0, 0, 0, 0, 0x02]);
    let f = Filter { src_mac: Some(MacSet::from_values(vec![a, b]).unwrap()), ..Filter::default() };
    let from = (v4(10, 0, 0, 1), 5353);
    let to = (v4(10, 0, 0, 2), 5353);
    assert!(f.matches(&packet(from, to, None, Some(a)), None));
    assert!(f.matches(&packet(from, to, None, Some(b)), None));
    // A device outside the set misses.
    let other = MacAddr::from([0x02, 0, 0, 0, 0, 0x03]);
    assert!(!f.matches(&packet(from, to, None, Some(other)), None));
}

#[test]
fn filter_matches_destination_mac_and_excludes_others() {
    let device = MacAddr::from([0x02, 0, 0, 0, 0, 0x0a]);
    let f = Filter { dst_mac: Some(device), ..Filter::default() };
    let from = (v4(10, 0, 0, 1), 5353);
    let to = (v4(10, 0, 0, 2), 5353);
    assert!(f.matches(&packet(from, to, Some(device), None), None));
    let other = MacAddr::from([0x02, 0, 0, 0, 0, 0x0b]);
    assert!(!f.matches(&packet(from, to, Some(other), None), None));
    assert!(!f.matches(&packet(from, to, None, None), None));
}

// An IP filter is family-specific: a v4 criterion can't match a v6 packet, or vice versa.
#[test]
fn filter_ip_does_not_match_across_families() {
    let only_v4 = Filter { dst_ip: Some(IpSet::from(mdns_v4())), ..Filter::default() };
    let p6 = packet((link_local(), 5353), (mdns_v6(), 5353), None, None);
    assert!(!only_v4.matches(&p6, None));
    let only_v6 = Filter { dst_ip: Some(IpSet::from(mdns_v6())), ..Filter::default() };
    let p4 = packet((v4(10, 0, 0, 1), 5353), (mdns_v4(), 5353), None, None);
    assert!(!only_v6.matches(&p4, None));
}

#[test]
fn source_fields_pin_the_sender() {
    let f = Filter {
        src_ip: Some(v4(10, 0, 0, 1)),
        src_port: Some(1900),
        ..Filter::default()
    };
    let to = (v4(10, 0, 0, 2), 2);
    assert!(f.matches(&packet((v4(10, 0, 0, 1), 1900), to, None, None), None));
    assert!(!f.matches(&packet((v4(10, 0, 0, 3), 1900), to, None, None), None));
    assert!(!f.matches(&packet((v4(10, 0, 0, 1), 1901), to, None, None), None));
    assert!(!f.matches(&packet((link_local(), 1900), to, None, None), None));
}

#[test]
fn a_set_is_never_empty() {
    assert!(PortSet::from_values(Vec::new()).is_none());
    assert!(MacSet::from_values(Vec::new()).is_none());
    let set = PortSet::from_values(vec![7, 9]).unwrap();
    assert_eq!(set.as_slice(), &[7, 9]);
    assert!(set.contains(9));
    assert!(!set.contains(8));
    assert_eq!(PortSet::from(7).as_slice(), &[7]);
}

#[test]
fn unsetting_a_field_only_widens_a_filter() {
    let device = MacAddr::from([0x02, 0, 0, 0, 0, 0x01]);
    let p = packet((v4(10, 0, 0, 1), 7), (mdns_v4(), 9), None, Some(device));
    let full = Filter {
        src_ip: Some(v4(10, 0, 0, 1)),
        dst_ip: Some(IpSet::from(mdns_v4())),
        src_port: Some(7),
        dst_port: Some(PortSet::from(9)),
        src_mac: Some(MacSet::from(device)),
        dst_mac: None,
        broadcast: false,
    };
    assert!(full.matches(&p, None));
    assert!(Filter { dst_ip: None, ..full.clone() }.matches(&p, None));
    assert!(Filter { src_mac: None, ..full }.matches(&p, None));
}
