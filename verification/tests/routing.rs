//! Routing packets to the registrations they match.

use std::cell::RefCell;
use std::rc::Rc;

use netflector::capture::Capture;
use netflector::counters::{MessageType, Outcome, TypedCounts};
use netflector::dispatch::drain::{on_readable, Drain, DrainRead, DrainStart, DrainStep, Ready};
use netflector::dispatch::filter::{Filter, PortSet};
use netflector::dispatch::handler::PacketHandler;
use netflector::dispatch::interface_table::Opened;
use netflector::dispatch::keys::{CaptureKey, MONITOR_TAG};
use netflector::dispatch::routing::{is_own_echo, RouteStart};
use netflector::dispatch::sending::SendPlan;
use netflector::dispatch::sending::Built;
use netflector::dispatch::PacketDispatcher;
use netflector::interface::{InterfaceAddresses, Resolved};
use netflector::net::{IpAddr, Ipv4Addr, MacAddr, Packet, SocketAddr};

type Dispatcher = PacketDispatcher<(), Probe>;

/// A handler made of a closure.
struct Probe(Box<dyn FnMut(&Packet, &mut Dispatcher) -> Outcome>);

impl PacketHandler<(), ()> for Probe {
    fn on_packet(
        &mut self,
        packet: &Packet,
        dispatcher: &mut Dispatcher,
        _reactor: &mut (),
    ) -> Outcome {
        (self.0)(packet, dispatcher)
    }
}

type Seen = Rc<RefCell<Vec<Vec<u8>>>>;

fn recorder(seen: &Seen) -> Probe {
    let seen = seen.clone();
    Probe(Box::new(move |packet, _| {
        seen.borrow_mut().push(packet.payload.to_vec());
        Outcome::Reflected(MessageType::MdnsQuery)
    }))
}

fn outcomer(outcome: Outcome) -> Probe {
    Probe(Box::new(move |_, _| outcome))
}

fn addrs(mac: Option<MacAddr>) -> InterfaceAddresses {
    InterfaceAddresses::new(mac, Some(Ipv4Addr::localhost()), None, None)
}

/// Add a capture on `name`, whose interface has the given hardware address.
fn add(dispatcher: &mut Dispatcher, name: &str, fd: i32, mac: Option<MacAddr>) -> CaptureKey {
    let capture = Capture::new((), fd, name.to_owned(), vec![0; 2048]);
    let resolved = Resolved { addrs: addrs(mac), mtu: Some(1500) };
    dispatcher.add_capture(capture, Ok(Opened { ifindex: 7, resolved })).unwrap()
}

/// A dispatcher with one capture.
fn dispatcher() -> (Dispatcher, CaptureKey) {
    let mut dispatcher = PacketDispatcher::new(None, 0);
    let ingress = add(&mut dispatcher, "lo", 3, None);
    (dispatcher, ingress)
}

fn probe_packet(payload: &[u8]) -> Packet<'_> {
    Packet {
        source: SocketAddr { ip: IpAddr::V4(Ipv4Addr::new(10, 0, 0, 1)), port: 5 },
        dest: SocketAddr { ip: IpAddr::V4(Ipv4Addr::new(10, 0, 0, 2)), port: 9 },
        ttl: 64,
        dst_mac: None,
        src_mac: None,
        payload,
    }
}

fn counts(dispatcher: &Dispatcher, key: CaptureKey, ty: MessageType) -> (u64, u64, u64, u64) {
    let TypedCounts { reflected, skipped, dropped, stalled } =
        dispatcher.counters(key).unwrap().typed(ty);
    (reflected, skipped, dropped, stalled)
}

/// Drain `ingress`, each of whose frames is a packet's payload, and route what was read.
fn drain_and_route(
    dispatcher: &mut Dispatcher,
    ingress: CaptureKey,
    frames: &mut Vec<Vec<u8>>,
) -> bool {
    let capture = match dispatcher.begin_drain(ingress) {
        DrainStart::Draining(capture) => capture,
        DrainStart::AlreadyDraining => return false,
        DrainStart::OutOfRange => return false,
    };
    let mut drain = Drain::start();
    while drain.wants_more(capture.has_buffered()) {
        let (read, frame) = if frames.is_empty() {
            (DrainRead::WouldBlock, Vec::new())
        } else {
            (DrainRead::Frame, frames.remove(0))
        };
        match dispatcher.drain_read(&mut drain, read, 0) {
            DrainStep::Route => {
                dispatcher.route(ingress, &probe_packet(&frame), &mut ());
            }
            DrainStep::Continue => {}
            DrainStep::Stop => break,
        }
    }
    assert!(dispatcher.finish_drain(ingress, capture));
    true
}

#[test]
fn is_own_echo_matches_the_ingress_mac_except_all_zeros() {
    let own = MacAddr::from([0x02, 0, 0, 0, 0, 1]);
    let other = MacAddr::from([0x02, 0, 0, 0, 0, 2]);
    assert!(is_own_echo(Some(own), Some(own)));
    assert!(!is_own_echo(Some(other), Some(own)));
    // A DLT_NULL frame carries no MAC; an interface without one owns nothing.
    assert!(!is_own_echo(None, Some(own)));
    assert!(!is_own_echo(Some(own), None));
    // Linux loopback: zeros on both sides identify nothing.
    let zero = MacAddr::from([0; 6]);
    assert!(!is_own_echo(Some(zero), Some(zero)));
}

#[test]
fn unregister_stops_routing_to_a_handler() {
    let (mut dispatcher, ingress) = dispatcher();
    let seen: Seen = Rc::new(RefCell::new(Vec::new()));
    let key = dispatcher.register(ingress, Filter::default(), recorder(&seen));
    dispatcher.route(ingress, &probe_packet(b"a"), &mut ());
    assert_eq!(seen.borrow().len(), 1, "the registration should route once");

    dispatcher.unregister(key);
    dispatcher.route(ingress, &probe_packet(b"b"), &mut ());
    assert_eq!(seen.borrow().len(), 1, "an unregistered handler is no longer routed to");
    dispatcher.unregister(key); // the now-stale key removes nothing
}

#[test]
fn route_folds_matched_outcomes_and_records_once() {
    let (mut dispatcher, ingress) = dispatcher();
    // Mirrored a->b / b->a reflectors both match here: one reflects the query, its mirror skips it.
    dispatcher.register(
        ingress,
        Filter::default(),
        outcomer(Outcome::Reflected(MessageType::MdnsQuery)),
    );
    dispatcher.register(
        ingress,
        Filter::default(),
        outcomer(Outcome::Skipped(MessageType::MdnsQuery)),
    );
    // A third handler whose filter never matches (wrong dst port) must not reach the count.
    dispatcher.register(
        ingress,
        Filter { dst_port: Some(PortSet::from(4242)), ..Filter::default() },
        outcomer(Outcome::Reflected(MessageType::SsdpSearch)),
    );

    let routed = dispatcher.route(ingress, &probe_packet(b"q"), &mut ());
    assert_eq!(routed.outcome, Some(Outcome::Reflected(MessageType::MdnsQuery)));
    assert!(!routed.type_mismatch && !routed.echoed);

    // The reflect wins the fold and is counted once; the skip is shadowed, not a second count.
    assert_eq!(counts(&dispatcher, ingress, MessageType::MdnsQuery), (1, 0, 0, 0));
    // The unmatched handler contributed nothing.
    assert_eq!(counts(&dispatcher, ingress, MessageType::SsdpSearch), (0, 0, 0, 0));
}

#[test]
fn route_drops_our_own_echoed_frames_before_any_handler() {
    let mut dispatcher: Dispatcher = PacketDispatcher::new(None, 0);
    let own = MacAddr::from([0x02, 0, 0, 0, 0, 1]);
    let ingress = add(&mut dispatcher, "lo", 3, Some(own));
    dispatcher.register(
        ingress,
        Filter::default(),
        outcomer(Outcome::Reflected(MessageType::MdnsQuery)),
    );

    let mut echo = probe_packet(b"ours");
    echo.src_mac = Some(own);
    assert!(dispatcher.route(ingress, &echo, &mut ()).echoed);
    assert_eq!(dispatcher.counters(ingress).unwrap().echoed(), 1);
    assert_eq!(
        counts(&dispatcher, ingress, MessageType::MdnsQuery),
        (0, 0, 0, 0),
        "the handler never ran"
    );

    let mut peer = probe_packet(b"theirs");
    peer.src_mac = Some(MacAddr::from([0x02, 0, 0, 0, 0, 2]));
    dispatcher.route(ingress, &peer, &mut ());
    assert_eq!(counts(&dispatcher, ingress, MessageType::MdnsQuery), (1, 0, 0, 0));
    assert_eq!(dispatcher.counters(ingress).unwrap().echoed(), 1);
}

#[test]
fn route_folds_fan_out_reflects_and_records_once() {
    let (mut dispatcher, ingress) = dispatcher();
    // A source fanned out to two targets (a->b, a->c) puts two reflecting handlers on the shared
    // ingress; both reflect the same query.
    for _ in 0..2 {
        dispatcher.register(
            ingress,
            Filter::default(),
            outcomer(Outcome::Reflected(MessageType::MdnsQuery)),
        );
    }
    dispatcher.route(ingress, &probe_packet(b"q"), &mut ());
    // One packet, one count per ingress: the two reflects fold to a single reflected count.
    assert_eq!(counts(&dispatcher, ingress, MessageType::MdnsQuery), (1, 0, 0, 0));
}

#[test]
fn a_mid_route_registration_is_not_fed_the_in_flight_frame() {
    let (mut dispatcher, ingress) = dispatcher();
    let late: Seen = Rc::new(RefCell::new(Vec::new()));
    let mut done = false;
    let born = late.clone();
    let registrar = Probe(Box::new(move |_, dispatcher| {
        if !std::mem::replace(&mut done, true) {
            dispatcher.register(ingress, Filter::default(), recorder(&born));
        }
        Outcome::Filtered
    }));
    dispatcher.register(ingress, Filter::default(), registrar);

    dispatcher.route(ingress, &probe_packet(b"x"), &mut ());
    assert!(
        late.borrow().is_empty(),
        "a registration born this route must not see the in-flight frame",
    );
    // It does receive the next frame.
    dispatcher.route(ingress, &probe_packet(b"y"), &mut ());
    assert_eq!(late.borrow().as_slice(), [b"y".to_vec()]);
}

#[test]
fn a_mid_route_registration_in_a_freed_slot_is_not_fed_either() {
    let (mut dispatcher, ingress) = dispatcher();
    let late: Seen = Rc::new(RefCell::new(Vec::new()));
    let victim: Seen = Rc::new(RefCell::new(Vec::new()));
    let key = Rc::new(RefCell::new(None));
    let slot = key.clone();
    let born = late.clone();
    let swapper = Probe(Box::new(move |_, dispatcher| {
        if let Some(key) = slot.borrow_mut().take() {
            dispatcher.unregister(key);
            dispatcher.register(ingress, Filter::default(), recorder(&born));
        }
        Outcome::Filtered
    }));
    dispatcher.register(ingress, Filter::default(), swapper);
    let removed = dispatcher.register(ingress, Filter::default(), recorder(&victim));
    *key.borrow_mut() = Some(removed);
    dispatcher.route(ingress, &probe_packet(b"x"), &mut ());
    assert!(victim.borrow().is_empty(), "removed before its turn");
    assert!(late.borrow().is_empty(), "born in its slot");
    assert_eq!(dispatcher.slot_count(), 2, "the slot was reused");
    dispatcher.route(ingress, &probe_packet(b"y"), &mut ());
    assert_eq!(late.borrow().as_slice(), [b"y".to_vec()]);
}

#[test]
fn a_handler_that_unregisters_itself_is_not_revived() {
    let (mut dispatcher, ingress) = dispatcher();
    let calls = Rc::new(RefCell::new(0u32));
    let key = Rc::new(RefCell::new(None));
    let (count, own) = (calls.clone(), key.clone());
    let once = Probe(Box::new(move |_, dispatcher| {
        *count.borrow_mut() += 1;
        dispatcher.unregister(own.borrow().unwrap());
        Outcome::Filtered
    }));
    let registered = dispatcher.register(ingress, Filter::default(), once);
    *key.borrow_mut() = Some(registered);
    dispatcher.route(ingress, &probe_packet(b"x"), &mut ());
    dispatcher.route(ingress, &probe_packet(b"y"), &mut ());
    assert_eq!(*calls.borrow(), 1);
    assert_eq!(dispatcher.counters(ingress).unwrap().filtered(), 1);
}

#[test]
fn reentrant_drain_on_the_same_ingress_hits_the_guard() {
    let (mut dispatcher, ingress) = dispatcher();
    let calls = Rc::new(RefCell::new(0u32));
    let count = calls.clone();
    let reentrant = Probe(Box::new(move |_, dispatcher| {
        *count.borrow_mut() += 1;
        assert!(matches!(dispatcher.begin_drain(ingress), DrainStart::AlreadyDraining));
        Outcome::Filtered
    }));
    dispatcher.register(ingress, Filter::default(), reentrant);
    let mut frames = vec![b"one".to_vec(), b"two".to_vec()];
    assert!(drain_and_route(&mut dispatcher, ingress, &mut frames));
    assert_eq!(
        *calls.borrow(),
        2,
        "both probes should route via the outer drain; the re-entrant call must no-op"
    );
}

#[test]
fn a_handler_out_for_its_call_is_not_home() {
    let (mut dispatcher, ingress) = dispatcher();
    let home = Rc::new(RefCell::new(true));
    let inside = home.clone();
    dispatcher.register(
        ingress,
        Filter::default(),
        Probe(Box::new(move |_, dispatcher| {
            *inside.borrow_mut() = dispatcher.handlers_home();
            Outcome::Filtered
        })),
    );
    assert!(dispatcher.handlers_home());
    dispatcher.route(ingress, &probe_packet(b"x"), &mut ());
    assert!(!*home.borrow(), "routing must not be entered from inside a handler call");
    assert!(dispatcher.handlers_home());
}

#[test]
fn reactor_drives_the_dispatcher_to_route_a_packet() {
    let mut dispatcher: Dispatcher = PacketDispatcher::new(Some(40), 0);
    let ingress = add(&mut dispatcher, "lo", 31, None);
    let egress = add(&mut dispatcher, "lo", 32, None);
    let seen: Rc<RefCell<Vec<(Vec<u8>, bool)>>> = Rc::new(RefCell::new(Vec::new()));
    let saw = seen.clone();
    let echo = Probe(Box::new(move |packet, dispatcher| {
        let plan = dispatcher.plan_send(egress, Built { len: 60, checksum: 1 });
        let sent = match plan {
            SendPlan::Send(frame) => dispatcher.complete_send(egress, frame, 60, Ok(())).is_ok(),
            SendPlan::Duplicate => false,
        };
        saw.borrow_mut().push((packet.payload.to_vec(), sent));
        Outcome::Reflected(MessageType::MdnsQuery)
    }));
    dispatcher.register(
        ingress,
        Filter { dst_port: Some(PortSet::from(9)), ..Filter::default() },
        echo,
    );
    let watches = dispatcher.capture_watches();
    assert_eq!(watches, vec![(31, 0), (32, 1), (40, MONITOR_TAG)]);
    // The readable descriptor's tag leads straight back to the capture.
    let Ready::Capture(key) = on_readable(watches[0].1) else {
        panic!("a capture's tag names a capture");
    };
    assert_eq!(key, ingress);
    let mut frames = vec![b"netflector-dispatch-probe".to_vec()];
    assert!(drain_and_route(&mut dispatcher, key, &mut frames));
    let records = seen.borrow();
    assert_eq!(records[0].0, b"netflector-dispatch-probe", "reflector saw the wrong payload");
    assert!(records[0].1, "the keyed egress send failed");
}

#[test]
fn routes_a_captured_packet_to_a_matching_reflector() {
    let mut dispatcher: Dispatcher = PacketDispatcher::new(None, 0);
    let ingress = add(&mut dispatcher, "lo", 31, None);
    let egress = add(&mut dispatcher, "lo", 32, None);
    // The egress capture resolves to its interface's address, the seam reflectors read.
    assert_eq!(dispatcher.egress_addrs(egress).unwrap().v4, Some(Ipv4Addr::localhost()));
    let seen: Seen = Rc::new(RefCell::new(Vec::new()));
    dispatcher.register(
        ingress,
        Filter { dst_port: Some(PortSet::from(9)), ..Filter::default() },
        recorder(&seen),
    );
    let mut frames = vec![b"netflector-dispatch-probe".to_vec()];
    assert!(drain_and_route(&mut dispatcher, ingress, &mut frames));
    assert_eq!(
        seen.borrow().as_slice(),
        [b"netflector-dispatch-probe".to_vec()],
        "the reflector saw the payload once"
    );
}

#[test]
fn handlers_that_disagree_on_the_type_are_reported() {
    let (mut dispatcher, ingress) = dispatcher();
    dispatcher.register(
        ingress,
        Filter::default(),
        outcomer(Outcome::Skipped(MessageType::MdnsQuery)),
    );
    dispatcher.register(
        ingress,
        Filter::default(),
        outcomer(Outcome::Reflected(MessageType::SsdpSearch)),
    );
    let routed = dispatcher.route(ingress, &probe_packet(b"q"), &mut ());
    assert!(routed.type_mismatch);
    assert_eq!(routed.outcome, Some(Outcome::Reflected(MessageType::SsdpSearch)));
    assert_eq!(counts(&dispatcher, ingress, MessageType::SsdpSearch), (1, 0, 0, 0));
    assert_eq!(counts(&dispatcher, ingress, MessageType::MdnsQuery), (0, 0, 0, 0));
}

#[test]
fn a_packet_that_matches_nothing_is_counted_nowhere() {
    let (mut dispatcher, ingress) = dispatcher();
    let elsewhere = add(&mut dispatcher, "eth0", 4, None);
    dispatcher.register(
        elsewhere,
        Filter::default(),
        outcomer(Outcome::Reflected(MessageType::MdnsQuery)),
    );
    let routed = dispatcher.route(ingress, &probe_packet(b"q"), &mut ());
    assert_eq!(routed.outcome, None);
    assert!(!routed.echoed);
    assert_eq!(counts(&dispatcher, ingress, MessageType::MdnsQuery), (0, 0, 0, 0));
    assert_eq!(counts(&dispatcher, elsewhere, MessageType::MdnsQuery), (0, 0, 0, 0));
}

#[test]
fn a_pass_taken_by_hand_goes_through_its_registrations_in_order() {
    let (mut dispatcher, ingress) = dispatcher();
    for outcome in [
        Outcome::Filtered,
        Outcome::Dropped(MessageType::Other(3)),
        Outcome::Stalled(MessageType::Other(3)),
    ] {
        dispatcher.register(ingress, Filter::default(), outcomer(outcome));
    }
    let RouteStart::Pass(mut pass) = dispatcher.begin_route(ingress, &probe_packet(b"q")) else {
        panic!("no echo");
    };
    let mut reported = Vec::new();
    while let Some(mut handler) = dispatcher.next_match(&mut pass) {
        assert!(!dispatcher.handlers_home());
        let outcome = handler.on_packet(&probe_packet(b"q"), &mut dispatcher, &mut ());
        reported.push(outcome);
        assert!(!dispatcher.finish_call(&mut pass, handler, outcome).type_mismatch);
    }
    assert_eq!(reported.len(), 3);
    assert_eq!(pass.outcome(), Some(Outcome::Dropped(MessageType::Other(3))));
    assert_eq!(dispatcher.end_route(pass), Some(Outcome::Dropped(MessageType::Other(3))));
    assert_eq!(counts(&dispatcher, ingress, MessageType::Other(3)), (0, 0, 1, 0));
}

#[test]
fn each_match_is_called_once_per_packet_and_stays_registered() {
    let (mut dispatcher, ingress) = dispatcher();
    let other = add(&mut dispatcher, "eth0", 4, None);
    let first: Seen = Rc::new(RefCell::new(Vec::new()));
    let second: Seen = Rc::new(RefCell::new(Vec::new()));
    let elsewhere: Seen = Rc::new(RefCell::new(Vec::new()));
    let key = dispatcher.register(ingress, Filter::default(), recorder(&first));
    dispatcher.register(other, Filter::default(), recorder(&elsewhere));
    dispatcher.register(ingress, Filter::default(), recorder(&second));
    dispatcher.route(ingress, &probe_packet(b"a"), &mut ());
    dispatcher.route(ingress, &probe_packet(b"b"), &mut ());
    assert_eq!(dispatcher.packet_number(), 2);
    assert_eq!(*first.borrow(), vec![b"a".to_vec(), b"b".to_vec()]);
    assert_eq!(*second.borrow(), vec![b"a".to_vec(), b"b".to_vec()]);
    assert!(elsewhere.borrow().is_empty());
    assert!(dispatcher.handlers_home());
    // The handler in the slot is the one that was registered there.
    let mut handler = dispatcher.take_handler(key).unwrap();
    (handler.0)(&probe_packet(b"c"), &mut dispatcher);
    assert_eq!(first.borrow().len(), 3);
    assert_eq!(second.borrow().len(), 2);
}

#[test]
fn equal_frames_of_a_routing_go_out_once_per_egress() {
    let (mut dispatcher, ingress) = dispatcher();
    let egress = add(&mut dispatcher, "eth0", 4, None);
    let plans: Rc<RefCell<Vec<bool>>> = Rc::new(RefCell::new(Vec::new()));
    for _ in 0..3 {
        let plans = plans.clone();
        let relay = Probe(Box::new(move |_, dispatcher: &mut Dispatcher| {
            let built = Built { len: 60, checksum: 0x1234 };
            let plan = dispatcher.plan_send(egress, built);
            plans.borrow_mut().push(plan == SendPlan::Duplicate);
            if let SendPlan::Send(frame) = plan {
                dispatcher.complete_send(egress, frame, built.len, Ok(())).unwrap();
            }
            Outcome::Reflected(MessageType::MdnsQuery)
        }));
        dispatcher.register(ingress, Filter::default(), relay);
    }
    dispatcher.route(ingress, &probe_packet(b"a"), &mut ());
    assert_eq!(*plans.borrow(), vec![false, true, true]);
    plans.borrow_mut().clear();
    dispatcher.route(ingress, &probe_packet(b"b"), &mut ());
    assert_eq!(*plans.borrow(), vec![false, true, true], "the next packet sends its own frame");
}

#[test]
fn handlers_leave_other_counts_and_the_deadlines_alone() {
    let (mut dispatcher, ingress) = dispatcher();
    let other = add(&mut dispatcher, "eth0", 4, None);
    dispatcher.enable_counter_report(50, 0);
    for _ in 0..4 {
        dispatcher.register(
            ingress,
            Filter::default(),
            outcomer(Outcome::Reflected(MessageType::MdnsQuery)),
        );
    }
    dispatcher.route(ingress, &probe_packet(b"a"), &mut ());
    assert_eq!(counts(&dispatcher, ingress, MessageType::MdnsQuery), (1, 0, 0, 0));
    assert_eq!(counts(&dispatcher, other, MessageType::MdnsQuery), (0, 0, 0, 0));
    assert_eq!(dispatcher.next_deadline::<()>(None), Some(50));
}
