//! The dispatcher's own state: keys, sending, draining, deadlines, and groups.

use std::cell::Cell;
use std::rc::Rc;

use netflector::capture::{Capture, SendFailure};
use netflector::counters::{MessageType, Outcome};
use netflector::dispatch::deadlines::{is_due, DeadlineWork};
use netflector::dispatch::drain::{
    on_readable, Drain, DrainRead, DrainStart, DrainStep, Ready, MAX_FRAMES_PER_EVENT,
};
use netflector::dispatch::filter::Filter;
use netflector::dispatch::handler::PacketHandler;
use netflector::dispatch::interface_table::{Opened, SentFrame};
use netflector::dispatch::keys::{CaptureKey, InterfaceKey, MONITOR_TAG};
use netflector::dispatch::routing::RouteStart;
use netflector::dispatch::sending::{oversize_context, Built, SendPlan};
use netflector::dispatch::{PacketDispatcher, RECONCILE_TICK};
use netflector::errno::Errnos;
use netflector::interface::{InterfaceAddresses, ResolveFailed, Resolved};
use netflector::net::{
    DatagramError, IpAddr, Ipv4Addr, Ipv6Addr, LinkType, MacAddr, Packet, SocketAddr,
};

type Dispatcher = PacketDispatcher<(), Ticker>;

const SECOND: u64 = 1_000_000_000;

/// A handler carrying only a timer.
struct Ticker {
    deadline: Option<u64>,
    fired: Rc<Cell<u32>>,
}

impl PacketHandler<(), ()> for Ticker {
    fn on_packet(&mut self, _: &Packet, _: &mut Dispatcher, _: &mut ()) -> Outcome {
        Outcome::Filtered
    }

    fn next_deadline(&self) -> Option<u64> {
        self.deadline
    }

    fn on_deadline(&mut self, _now: u64, _: &mut Dispatcher, _: &mut ()) {
        self.fired.set(self.fired.get() + 1);
    }
}

fn dispatcher() -> Dispatcher {
    PacketDispatcher::new(None, 0)
}

fn addrs() -> InterfaceAddresses {
    InterfaceAddresses::new(None, Some(Ipv4Addr::localhost()), None, None)
}

fn opened(ifindex: u32, mtu: Option<u32>) -> Result<Opened, ResolveFailed> {
    Ok(Opened { ifindex, resolved: Resolved { addrs: addrs(), mtu } })
}

fn capture(name: &str, fd: i32) -> Capture<()> {
    Capture::new((), fd, name.to_owned(), vec![0; 64])
}

fn packet() -> Packet<'static> {
    Packet {
        source: SocketAddr { ip: IpAddr::V4(Ipv4Addr::new(10, 0, 0, 1)), port: 5 },
        dest: SocketAddr { ip: IpAddr::V4(Ipv4Addr::new(10, 0, 0, 2)), port: 9 },
        ttl: 64,
        dst_mac: None,
        src_mac: None,
        payload: b"",
    }
}

#[test]
fn capture_keys_survive_the_trip_through_a_tag() {
    for raw in [0, 1, 999, u32::MAX] {
        let key = CaptureKey(raw);
        assert_eq!(key.to_u64(), u64::from(raw));
        assert_eq!(CaptureKey::from_u64(key.to_u64()), key);
        assert_ne!(key.to_u64(), MONITOR_TAG);
        assert_eq!(on_readable(key.to_u64()), Ready::Capture(key));
    }
    assert_eq!(on_readable(MONITOR_TAG), Ready::Monitor);
    // A tag too large for a key loses its high half.
    assert_eq!(CaptureKey::from_u64(0x5_0000_0007), CaptureKey(7));
}

#[test]
fn captures_on_one_name_share_an_interface() {
    let mut d = dispatcher();
    let a = d.add_capture(capture("lo", 3), opened(1, None)).unwrap();
    let b = d.add_capture(capture("lo", 4), opened(9, None)).unwrap();
    let c = d.add_capture(capture("eth0", 5), opened(6, Some(1500))).unwrap();
    assert_eq!((a, b, c), (CaptureKey(0), CaptureKey(1), CaptureKey(2)));
    assert_eq!(d.interface_count(), 2);
    assert_eq!(d.capture_count(), 3);
    assert_eq!(d.capture_ifindex(b), Some(1), "the name was known, so nothing was opened");
    assert_eq!(d.interface_mtu(c), Some(1500));
    assert_eq!(d.interface_behind(c), Some("eth0"));
    assert_eq!(d.interface_name(InterfaceKey(0)), Some("lo"));
    assert_eq!(d.interface_index(InterfaceKey(1)), Some(6));
    assert_eq!(d.captures_of(InterfaceKey(0)), vec![a, b]);
    assert_eq!(d.interface_of(b), Some(InterfaceKey(0)));
    assert_eq!(d.interface_of(CaptureKey(9)), None);
    assert_eq!(d.interface_at(6), Some(InterfaceKey(1)));
    assert_eq!(d.interface_at(9), None);
    assert_eq!(d.find_interface("eth0"), Some(InterfaceKey(1)));
    assert_eq!(d.find_interface("eth1"), None);
    assert_eq!(d.add_capture(capture("eth1", 6), Err(ResolveFailed)), Err(ResolveFailed));
    assert_eq!(d.capture_count(), 3);
}

#[test]
fn unknown_capture_key_is_a_safe_no_op() {
    let mut d = dispatcher();
    let bogus = CaptureKey::from_u64(999);
    assert!(matches!(d.begin_drain(bogus), DrainStart::OutOfRange));
    assert!(d.egress_addrs(bogus).is_none());
    assert!(d.link_type(bogus).is_none());
    assert!(d.send(bogus, 1, Err(SendFailure::Short)).is_ok());
    // A datagram on an unknown egress is the same drop, not a build attempt.
    let dst = SocketAddr { ip: IpAddr::V4(Ipv4Addr::new(255, 255, 255, 255)), port: 9 };
    assert_eq!(d.group_mac(bogus, dst), Ok(MacAddr::broadcast()));
    assert!(d.datagram_parts(bogus).is_none());
    assert!(d.complete_send(bogus, None, 1, Ok(())).is_ok());
    assert_eq!(d.interface_mtu(bogus), None);
    assert_eq!(d.capture_ifindex(bogus), None);
    assert_eq!(d.interface_behind(bogus), None);
}

#[test]
fn ingress_resolves_and_drops_while_taken_out() {
    let mut d = dispatcher();
    let ingress = d.add_capture(capture("lo", 3), opened(1, None)).unwrap();
    let DrainStart::Draining(taken) = d.begin_drain(ingress) else {
        panic!("the capture is there");
    };
    assert_eq!(
        d.egress_addrs(ingress).unwrap().v4,
        Some(Ipv4Addr::localhost()),
        "ingress addresses must resolve while the capture is taken out"
    );
    assert!(
        d.send(ingress, 1, Err(SendFailure::Short)).is_ok(),
        "send to the taken-out ingress must drop (Ok), not fail"
    );
    assert!(d.datagram_parts(ingress).is_none());
    assert!(d.finish_drain(ingress, taken));
    assert_eq!(d.datagram_parts(ingress), Some((addrs(), LinkType::Ethernet)));
    assert_eq!(d.capture(ingress).unwrap().if_name(), "lo");
}

#[test]
fn monitor_fd_is_watched_under_the_sentinel_tag() {
    let d: Dispatcher = PacketDispatcher::new(Some(12), 0);
    let watches = d.capture_watches();
    // No captures were added, so the monitor fd is the sole watch, under MONITOR_TAG.
    assert_eq!(watches.len(), 1, "only the monitor fd should be watched");
    assert_eq!(watches[0].1, MONITOR_TAG, "the monitor fd must carry MONITOR_TAG");
    assert_eq!(watches[0].0, 12);
    assert!(dispatcher().capture_watches().is_empty());
}

#[test]
fn join_group_ignores_an_unknown_capture() {
    let mut d = dispatcher();
    let group = IpAddr::V4(Ipv4Addr::new(224, 0, 0, 251));
    assert_eq!(d.join_group(CaptureKey(9999), group), None);
}

#[test]
fn join_group_records_the_group_and_names_the_index() {
    let group = IpAddr::V4(Ipv4Addr::new(224, 0, 0, 251));
    let mut d = dispatcher();
    let key = d.add_capture(capture("lo", 3), opened(4, None)).unwrap();
    assert_eq!(d.join_group(key, group), Some(4));
    assert_eq!(d.join_group(key, group), Some(4));
    assert_eq!(d.groups(InterfaceKey(0)).unwrap(), &[group]);
    let mut inert: Dispatcher = PacketDispatcher::without_group_joins(None, 0);
    let key = inert.add_capture(capture("lo", 3), opened(4, None)).unwrap();
    assert_eq!(inert.join_group(key, group), None);
    assert!(inert.groups(InterfaceKey(0)).unwrap().is_empty());
}

#[test]
fn oversize_context_rewords_only_emsgsize() {
    let errnos = Errnos::of_target();
    // The reworded message is the feature: it must name the frame length, the interface, and
    // the MTU when known.
    let e = oversize_context(
        &errnos,
        SendFailure::Os(libc::EMSGSIZE),
        "vxlan0",
        1500,
        Some(1370),
    );
    let SendFailure::Described(text) = e else {
        panic!("the words replace the error number");
    };
    assert!(text.contains("1500") && text.contains("vxlan0") && text.contains("1370"), "{text}");
    assert_eq!(text, "a frame of 1500 bytes exceeds what vxlan0 (MTU 1370) can carry");
    let e = oversize_context(&errnos, SendFailure::Os(libc::EMSGSIZE), "vxlan0", 0, None);
    let words = "a frame of 0 bytes exceeds what vxlan0 can carry";
    assert_eq!(e, SendFailure::Described(words.to_owned()));
    // Any other error passes through untouched, and keeps its errno.
    let other = oversize_context(&errnos, SendFailure::Os(libc::ENETDOWN), "x0", 9, None);
    assert_eq!(other, SendFailure::Os(libc::ENETDOWN));
    assert_eq!(oversize_context(&errnos, SendFailure::Short, "x0", 9, None), SendFailure::Short);
}

#[test]
fn a_send_names_its_own_interface_and_mtu() {
    let mut d = dispatcher();
    let key = d.add_capture(capture("vxlan0", 3), opened(1, Some(1370))).unwrap();
    assert_eq!(d.send(key, 60, Ok(())), Ok(()));
    assert_eq!(d.send(key, 60, Err(SendFailure::Short)), Err(SendFailure::Short));
    let words = "a frame of 1500 bytes exceeds what vxlan0 (MTU 1370) can carry";
    assert_eq!(
        d.send(key, 1500, Err(SendFailure::Os(libc::EMSGSIZE))),
        Err(SendFailure::Described(words.to_owned()))
    );
}

#[test]
fn an_equal_frame_goes_out_once_per_packet() {
    let mut d = dispatcher();
    let ingress = d.add_capture(capture("lo", 3), opened(1, None)).unwrap();
    let egress = d.add_capture(capture("eth0", 4), opened(2, None)).unwrap();
    let other = d.add_capture(capture("eth1", 5), opened(3, None)).unwrap();
    let built = Built { len: 60, checksum: 0x1234 };
    // Outside routing nothing is marked, and nothing is a duplicate.
    assert_eq!(d.plan_send(egress, built), SendPlan::Send(None));
    let RouteStart::Pass(mut pass) = d.begin_route(ingress, &packet()) else {
        panic!("no echo");
    };
    let frame = Some(SentFrame { packet: 1, len: 60, checksum: 0x1234 });
    assert_eq!(d.plan_send(egress, built), SendPlan::Send(frame));
    // A failed send leaves the second handler to try.
    let failed = d.complete_send(egress, frame, 60, Err(SendFailure::Os(1)));
    assert_eq!(failed, Err(SendFailure::Os(1)));
    assert_eq!(d.plan_send(egress, built), SendPlan::Send(frame));
    assert_eq!(d.complete_send(egress, frame, 60, Ok(())), Ok(()));
    assert_eq!(d.plan_send(egress, built), SendPlan::Duplicate);
    assert_eq!(d.plan_send(other, built), SendPlan::Send(frame));
    assert!(d.plan_send(egress, Built { len: 61, ..built }) != SendPlan::Duplicate);
    assert!(d.plan_send(egress, Built { checksum: 1, ..built }) != SendPlan::Duplicate);
    assert!(d.next_match(&mut pass).is_none());
    assert_eq!(d.end_route(pass), None);
    assert_eq!(d.plan_send(egress, built), SendPlan::Send(None));
    // The next packet's equal frame goes out.
    let RouteStart::Pass(_pass) = d.begin_route(ingress, &packet()) else {
        panic!("no echo");
    };
    assert!(d.plan_send(egress, built) != SendPlan::Duplicate);
}

#[test]
fn group_macs_follow_the_destination() {
    let mut d = dispatcher();
    let with_directed = InterfaceAddresses {
        v4_directed_broadcast: Some(Ipv4Addr::new(10, 0, 0, 255)),
        ..addrs()
    };
    let opened = Opened { ifindex: 1, resolved: Resolved { addrs: with_directed, mtu: None } };
    let key = d.add_capture(capture("lo", 3), Ok(opened)).unwrap();
    let to = |ip| SocketAddr { ip, port: 9 };
    let mdns = IpAddr::V4(Ipv4Addr::new(224, 0, 0, 251));
    assert_eq!(
        d.group_mac(key, to(mdns)).unwrap().octets(),
        [0x01, 0x00, 0x5e, 0x00, 0x00, 0xfb]
    );
    let mdns6 = IpAddr::V6(Ipv6Addr { bits: 0xff02_0000_0000_0000_0000_0000_0000_00fb });
    assert_eq!(
        d.group_mac(key, to(mdns6)).unwrap().octets(),
        [0x33, 0x33, 0x00, 0x00, 0x00, 0xfb]
    );
    let directed = IpAddr::V4(Ipv4Addr::new(10, 0, 0, 255));
    assert_eq!(d.group_mac(key, to(directed)), Ok(MacAddr::broadcast()));
    let foreign = IpAddr::V4(Ipv4Addr::new(10, 0, 1, 255));
    assert_eq!(d.group_mac(key, to(foreign)), Err(DatagramError::UnicastDestination));
}

#[test]
fn a_drain_yields_after_its_budget() {
    let mut d = dispatcher();
    let ingress = d.add_capture(capture("lo", 3), opened(1, None)).unwrap();
    let DrainStart::Draining(mut taken) = d.begin_drain(ingress) else {
        panic!("the capture is there");
    };
    let mut drain = Drain::start();
    let mut reads = 0;
    while drain.wants_more(taken.has_buffered()) {
        // Dropped frames count against the budget like any other.
        let read = if reads % 2 == 0 { DrainRead::Frame } else { DrainRead::Oversized };
        if read == DrainRead::Oversized {
            taken.next_frame(Some(65));
        }
        let step = d.drain_read(&mut drain, read, 0);
        assert_eq!(step, if reads % 2 == 0 { DrainStep::Route } else { DrainStep::Continue });
        reads += 1;
    }
    assert_eq!(reads, MAX_FRAMES_PER_EVENT);
    assert!(drain.wants_more(true), "locally buffered frames are read past the budget");
    assert!(d.finish_drain(ingress, taken));
    assert_eq!(d.counters(ingress).unwrap().oversized(), 32);
    assert_eq!(d.capture(ingress).unwrap().oversized, 0);
}

#[test]
fn only_a_lost_interface_pulls_the_reconcile_forward() {
    let mut d = dispatcher();
    let mut drain = Drain::start();
    assert_eq!(d.next_deadline::<()>(None), Some(RECONCILE_TICK));
    for read in [
        DrainRead::WouldBlock,
        DrainRead::Failed(None),
        DrainRead::Failed(Some(libc::EIO)),
        DrainRead::Failed(Some(libc::EMSGSIZE)),
    ] {
        assert_eq!(d.drain_read(&mut drain, read, 5), DrainStep::Stop);
        assert_eq!(d.next_deadline::<()>(None), Some(RECONCILE_TICK));
    }
    assert_eq!(d.drain_read(&mut drain, DrainRead::Failed(Some(libc::ENETDOWN)), 5), DrainStep::Stop);
    assert_eq!(d.next_deadline::<()>(None), Some(5));
    let mut d = dispatcher();
    assert_eq!(d.drain_read(&mut drain, DrainRead::Failed(Some(libc::ENXIO)), 6), DrainStep::Stop);
    assert_eq!(d.next_deadline::<()>(None), Some(6));
    assert_eq!(drain.drained, 0);
}

#[test]
fn counter_report_fires_on_its_interval() {
    let now = 1_000;
    let mut d: Dispatcher = PacketDispatcher::new(None, now);
    assert_eq!(
        d.next_deadline::<()>(None),
        Some(now + RECONCILE_TICK),
        "until enabled, the only standing deadline is the reconcile tick"
    );

    // Shorter than RECONCILE_TICK, so the report deadline is the soonest at each assert.
    let interval = 5 * SECOND;
    d.enable_counter_report(interval, now);
    assert_eq!(d.next_deadline::<()>(None), Some(now + interval));

    // Firing the report at its deadline reschedules it exactly one interval out.
    let work = d.on_deadline(now + interval, &mut ());
    assert_eq!(work, DeadlineWork { report: true, reconcile: false });
    assert_eq!(d.next_deadline::<()>(None), Some(now + interval + interval));
    assert!(!d.on_deadline(now + interval + 1, &mut ()).report);
}

#[test]
fn reports_the_soonest_deadline_and_sweeps_only_the_due_one() {
    let mut d = dispatcher();
    let ingress = CaptureKey::from_u64(0);
    let base = 7 * SECOND;
    let due = Rc::new(Cell::new(0u32));
    let future = Rc::new(Cell::new(0u32));
    d.register(
        ingress,
        Filter::default(),
        Ticker { deadline: Some(base), fired: due.clone() },
    );
    d.register(
        ingress,
        Filter::default(),
        Ticker { deadline: Some(base + 10 * SECOND), fired: future.clone() },
    );
    d.register(ingress, Filter::default(), Ticker { deadline: None, fired: future.clone() });

    // The dispatcher hands the reactor the soonest registration deadline.
    assert_eq!(d.next_deadline::<()>(None), Some(base));
    assert_eq!(d.next_deadline::<()>(Some(3)), Some(3), "a proxy's grace may come sooner");
    assert_eq!(d.soonest(&vec![None, Some(4)], Some(6)), 4);

    // A sweep fires only the registration whose deadline has come due.
    assert_eq!(d.due_handlers::<()>(base + SECOND).len(), 1);
    d.on_deadline(base + SECOND, &mut ());
    assert_eq!(due.get(), 1, "the due handler is swept");
    assert_eq!(future.get(), 0, "the future handler is not");
    assert!(d.handlers_home());
}

#[test]
fn a_sweep_calls_each_due_handler_once_and_keeps_it() {
    let mut d = dispatcher();
    d.enable_counter_report(9 * SECOND, 0);
    let ingress = CaptureKey::from_u64(0);
    let fired = [Rc::new(Cell::new(0u32)), Rc::new(Cell::new(0u32))];
    for counter in &fired {
        d.register(
            ingress,
            Filter::default(),
            Ticker { deadline: Some(SECOND), fired: counter.clone() },
        );
    }
    let work = d.on_deadline(2 * SECOND, &mut ());
    assert_eq!(work, DeadlineWork { report: false, reconcile: false });
    assert_eq!((fired[0].get(), fired[1].get()), (1, 1));
    // Each is still there, with its own deadline.
    assert_eq!(d.due_handlers::<()>(2 * SECOND).len(), 2);
    d.on_deadline(2 * SECOND, &mut ());
    assert_eq!((fired[0].get(), fired[1].get()), (2, 2));
}

#[test]
fn unregistering_frees_the_slot() {
    let mut d = dispatcher();
    let ingress = CaptureKey::from_u64(0);
    let ticker = || Ticker { deadline: None, fired: Rc::new(Cell::new(0)) };
    let kept = d.register(ingress, Filter::default(), ticker());
    let first = d.register(ingress, Filter::default(), ticker());
    assert_eq!(d.slot_count(), 2);
    d.unregister(first);
    let mut last = first;
    for _ in 0..100 {
        let key = d.register(ingress, Filter::default(), ticker());
        assert!(key != last && key != first && key != kept, "a key is handed out once");
        assert_eq!(d.slot_count(), 2);
        d.unregister(key);
        last = key;
    }
    // Only a registration that finds no free slot takes a new one.
    d.register(ingress, Filter::default(), ticker());
    assert_eq!(d.slot_count(), 2);
    d.register(ingress, Filter::default(), ticker());
    assert_eq!(d.slot_count(), 3);
}

#[test]
fn a_deadline_is_due_from_its_instant_on() {
    assert!(!is_due(None, u64::MAX));
    assert!(!is_due(Some(6), 5));
    assert!(is_due(Some(5), 5));
    assert!(is_due(Some(4), 5));
}

#[test]
fn times_past_the_end_of_the_clock_stay_at_it() {
    let mut d: Dispatcher = PacketDispatcher::new(None, u64::MAX - 1);
    assert_eq!(d.next_deadline::<()>(None), Some(u64::MAX));
    d.enable_counter_report(u64::MAX, 3);
    assert_eq!(d.next_deadline::<()>(None), Some(u64::MAX));
    assert!(!d.on_deadline(u64::MAX - 1, &mut ()).reconcile);
}

#[test]
fn counter_rows_name_the_interfaces() {
    let mut d = dispatcher();
    let key = d.add_capture(capture("lo", 3), opened(1, None)).unwrap();
    d.register(key, Filter::default(), Ticker { deadline: None, fired: Rc::new(Cell::new(0)) });
    d.route(key, &packet(), &mut ());
    let rows = d.counter_rows();
    assert_eq!(rows.len(), 1);
    assert_eq!(rows[0].0, "lo");
    assert_eq!(rows[0].1.filtered(), 1);
    assert_eq!(rows[0].1.typed(MessageType::MdnsQuery).reflected, 0);
}
