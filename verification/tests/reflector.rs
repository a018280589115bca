//! What reflectors require, and the errors they are refused with.

use netflector::capture::Capture;
use netflector::counters::{MessageType, Outcome};
use netflector::dispatch::filter::MacSet;
use netflector::dispatch::handler::PacketHandler;
use netflector::dispatch::interface_table::Opened;
use netflector::dispatch::keys::CaptureKey;
use netflector::dispatch::PacketDispatcher;
use netflector::interface::{InterfaceAddresses, Resolved};
use netflector::net::{IpAddr, Ipv4Addr, Ipv6Addr, LinkType, MacAddr, Packet, SocketAddr};
use netflector::reflector::{
    egress_sources, missing_required_family, require_bidirectional_families, require_group_join,
    require_macs_matchable, AddressFamily, BuildError, InterfaceMap, IpFamily, JoinFailure,
    NoRewrite, ReplyRewrite, Verdict,
};

const LOOPBACK_IFACE: &str = "lo";

struct Nothing;

impl PacketHandler<(), ()> for Nothing {
    fn on_packet(&mut self, _: &Packet, _: &mut Dispatcher, _: &mut ()) -> Outcome {
        Outcome::Filtered
    }
}

type Dispatcher = PacketDispatcher<(), Nothing>;

fn v4_only() -> InterfaceAddresses {
    InterfaceAddresses::new(None, Some(Ipv4Addr::localhost()), None, None)
}

fn v6_only() -> InterfaceAddresses {
    InterfaceAddresses::new(None, None, Some(Ipv6Addr { bits: 1 }), None)
}

fn dual() -> InterfaceAddresses {
    InterfaceAddresses::new(None, Some(Ipv4Addr::localhost()), None, Some(Ipv6Addr { bits: 1 }))
}

fn add(d: &mut Dispatcher, name: &str, addrs: InterfaceAddresses, link: LinkType) -> CaptureKey {
    let mut capture = Capture::new((), 3, name.to_owned(), Vec::new());
    capture.link = link;
    d.add_capture(capture, Ok(Opened { ifindex: 1, resolved: Resolved { addrs, mtu: None } }))
        .unwrap()
}

#[test]
fn macs_matchability_follows_the_target_link_framing() {
    let mut d: Dispatcher = PacketDispatcher::new(None, 0);
    let ethernet = add(&mut d, LOOPBACK_IFACE, v4_only(), LinkType::Ethernet);
    let null = add(&mut d, "lo0", v4_only(), LinkType::Null);
    // No filter configured: nothing to refuse, whatever the framing.
    assert_eq!(require_macs_matchable(&d, None, ethernet, LOOPBACK_IFACE), Ok(()));
    assert_eq!(require_macs_matchable(&d, None, null, "lo0"), Ok(()));
    let macs = MacSet::from(MacAddr::from([2, 0, 0, 0, 0, 1]));
    // Linux frames loopback as Ethernet, so MACs match there; the BSDs' loopback is `DLT_NULL`,
    // the framing that is refused.
    assert_eq!(require_macs_matchable(&d, Some(&macs), ethernet, LOOPBACK_IFACE), Ok(()));
    assert_eq!(
        require_macs_matchable(&d, Some(&macs), null, "lo0"),
        Err(BuildError::MacsUnmatchable("lo0".to_owned()))
    );
    // A target that is not there has no framing to refuse.
    assert_eq!(require_macs_matchable(&d, Some(&macs), CaptureKey(9), "eth9"), Ok(()));
}

#[test]
fn a_join_failure_no_event_clears_fails_the_build() {
    // A unicast address is no group: the join is refused outright, whatever the platform.
    let not_a_group = IpAddr::V4(Ipv4Addr::new(10, 0, 0, 1));
    let refused = JoinFailure {
        deferrable: false,
        capped: false,
        text: "Invalid argument (os error 22)".to_owned(),
    };
    let result = require_group_join(not_a_group, LOOPBACK_IFACE, Err(refused));
    assert!(matches!(
        result,
        Err(BuildError::GroupJoin { group, ref interface, .. })
            if group == not_a_group && interface == LOOPBACK_IFACE
    ));
    assert_eq!(
        result.unwrap_err().message("10.0.0.1"),
        "cannot join 10.0.0.1 on interface \"lo\": Invalid argument (os error 22)"
    );
}

#[test]
fn a_join_that_went_or_can_wait_passes() {
    let group = IpAddr::V4(Ipv4Addr::new(224, 0, 0, 251));
    assert_eq!(require_group_join(group, "lo", Ok(())), Ok(()));
    let later = JoinFailure { deferrable: true, capped: false, text: "no device".to_owned() };
    assert_eq!(require_group_join(group, "lo", Err(later)), Ok(()));
}

#[test]
fn a_capped_join_names_the_cap() {
    let group = IpAddr::V4(Ipv4Addr::new(224, 0, 0, 251));
    let capped = JoinFailure { deferrable: false, capped: true, text: "No buffers".to_owned() };
    let reason = "No buffers; the interface holds as many memberships as the system allows \
                  (net.ipv4.igmp_max_memberships on Linux)";
    assert_eq!(
        require_group_join(group, "eth0", Err(capped)),
        Err(BuildError::GroupJoin {
            group,
            interface: "eth0".to_owned(),
            reason: reason.to_owned(),
        })
    );
}

#[test]
fn missing_required_family_enforces_the_requires_policy() {
    let none = InterfaceAddresses::default();
    // Default requires v4 only: a v4-less egress fails on v4, a v6-less one passes.
    assert_eq!(
        missing_required_family(AddressFamily::Default, &none),
        Some(IpFamily::V4)
    );
    assert_eq!(missing_required_family(AddressFamily::Default, &v4_only()), None);
    // Dual requires both: a v4-only egress still misses v6.
    assert_eq!(
        missing_required_family(AddressFamily::Dual, &v4_only()),
        Some(IpFamily::V6)
    );
    // Ipv6 requires v6.
    assert_eq!(
        missing_required_family(AddressFamily::Ipv6, &v4_only()),
        Some(IpFamily::V6)
    );
    assert_eq!(missing_required_family(AddressFamily::Ipv6, &v6_only()), None);
    assert_eq!(missing_required_family(AddressFamily::Ipv4, &v6_only()), Some(IpFamily::V4));
    assert_eq!(missing_required_family(AddressFamily::Dual, &none), Some(IpFamily::V4));
    assert_eq!(missing_required_family(AddressFamily::Dual, &dual()), None);
}

#[test]
fn both_sides_must_source_every_required_family() {
    let mut d: Dispatcher = PacketDispatcher::new(None, 0);
    let four = add(&mut d, "four", v4_only(), LinkType::Ethernet);
    let six = add(&mut d, "six", v6_only(), LinkType::Ethernet);
    let both = add(&mut d, "both", dual(), LinkType::Ethernet);
    let lacking = |interface: &str, family| {
        Err(BuildError::RequiredFamilyUnavailable { interface: interface.to_owned(), family })
    };
    let require = |family, a, a_if: &str, b, b_if: &str| {
        require_bidirectional_families(&d, family, a, a_if, b, b_if)
    };
    assert_eq!(require(AddressFamily::Dual, both, "both", both, "both"), Ok(()));
    assert_eq!(require(AddressFamily::Default, four, "four", both, "both"), Ok(()));
    // The side that lacks the family is blamed, the source first, and v4 before v6.
    assert_eq!(
        require(AddressFamily::Default, six, "six", four, "four"),
        lacking("six", IpFamily::V4)
    );
    assert_eq!(
        require(AddressFamily::Default, four, "four", six, "six"),
        lacking("six", IpFamily::V4)
    );
    assert_eq!(
        require(AddressFamily::Dual, both, "both", four, "four"),
        lacking("four", IpFamily::V6)
    );
    assert_eq!(
        require(AddressFamily::Dual, four, "four", six, "six"),
        lacking("six", IpFamily::V4)
    );
    assert_eq!(
        require(AddressFamily::Ipv6, four, "four", four, "target"),
        lacking("four", IpFamily::V6)
    );
    // An unknown capture has no address at all.
    assert_eq!(
        require(AddressFamily::Ipv4, four, "four", CaptureKey(9), "eth9"),
        lacking("eth9", IpFamily::V4)
    );
}

#[test]
fn an_egress_sources_only_the_families_it_has() {
    let mut d: Dispatcher = PacketDispatcher::new(None, 0);
    let four = add(&mut d, "four", v4_only(), LinkType::Ethernet);
    let six = add(&mut d, "six", v6_only(), LinkType::Ethernet);
    let to4 = SocketAddr { ip: IpAddr::V4(Ipv4Addr::new(224, 0, 0, 251)), port: 1 };
    let to6 = SocketAddr { ip: IpAddr::V6(Ipv6Addr { bits: 0xff << 120 }), port: 1 };
    assert!(egress_sources(&d, four, to4) && !egress_sources(&d, four, to6));
    assert!(!egress_sources(&d, six, to4) && egress_sources(&d, six, to6));
    assert!(!egress_sources(&d, CaptureKey(9), to4));
}

#[test]
fn an_interface_map_finds_what_was_recorded_last() {
    let mut map = InterfaceMap::default();
    assert_eq!(map.key_for("lo"), None);
    map.insert("lo".to_owned(), CaptureKey(0));
    map.insert("eth0".to_owned(), CaptureKey(1));
    map.insert("lo".to_owned(), CaptureKey(2));
    assert_eq!(map.key_for("lo"), Some(CaptureKey(2)));
    assert_eq!(map.require("eth0"), Ok(CaptureKey(1)));
    let unknown = map.require("eth1").unwrap_err();
    assert_eq!(unknown, BuildError::UnknownInterface("eth1".to_owned()));
    assert_eq!(unknown.message(""), "no capture for interface \"eth1\"");
}

#[test]
fn build_errors_read_as_sentences() {
    let unavailable = BuildError::RequiredFamilyUnavailable {
        interface: "eth0".to_owned(),
        family: IpFamily::V6,
    };
    assert_eq!(
        unavailable.message(""),
        "interface \"eth0\" cannot send IPv6, required by the reflector"
    );
    assert_eq!(IpFamily::V4.name(), "IPv4");
    assert_eq!(
        BuildError::MacsUnmatchable("lo0".to_owned()).message(""),
        "macs can never match on interface \"lo0\": its link carries no MAC addresses"
    );
}

#[test]
fn the_identity_rewrite_forwards_verbatim() {
    let mut d: Dispatcher = PacketDispatcher::new(None, 0);
    let mut rewrite = NoRewrite;
    assert!(rewrite.rewrite(b"NOTIFY", CaptureKey(0), &mut d, &mut ()).is_none());
    assert_ne!(Verdict::Reflect(MessageType::MdnsQuery), Verdict::Skip(MessageType::MdnsQuery));
}
