//! Following interface changes and repairing what moved.

use std::cell::RefCell;
use std::rc::Rc;

use netflector::capture::Capture;
use netflector::counters::Outcome;
use netflector::dispatch::filter::Filter;
use netflector::dispatch::handler::PacketHandler;
use netflector::dispatch::interface_table::{CaptureRebind, NameLookup, Opened, StaleInterface};
use netflector::dispatch::keys::{CaptureKey, InterfaceKey};
use netflector::dispatch::reconcile::RepairFacts;
use netflector::dispatch::refresh::{EventBatch, InterfaceEvent, Platform};
use netflector::dispatch::{PacketDispatcher, RECONCILE_RETRY, RECONCILE_TICK};
use netflector::interface::{InterfaceAddresses, Resolution, Resolved};
use netflector::net::{Ipv4Addr, Ipv6Addr, Packet};

type Dispatcher = PacketDispatcher<(), Listener>;
type Told = Rc<RefCell<Vec<Vec<CaptureKey>>>>;

const LINUX: Platform = Platform { indexes_monotonic: true, lifecycle_events: true };
const LO_INDEX: u32 = 1;
const NOW: u64 = 1_000;

/// A handler that notes which captures it was told of.
struct Listener(Told);

impl PacketHandler<(), ()> for Listener {
    fn on_packet(&mut self, _: &Packet, _: &mut Dispatcher, _: &mut ()) -> Outcome {
        Outcome::Filtered
    }

    fn on_iface_change(&mut self, captures: &Vec<CaptureKey>, _: &mut Dispatcher, _: &mut ()) {
        self.0.borrow_mut().push(captures.clone());
    }
}

fn addrs() -> InterfaceAddresses {
    InterfaceAddresses::new(None, Some(Ipv4Addr::localhost()), None, None)
}

fn found() -> Resolution {
    Resolution::Found(Resolved { addrs: addrs(), mtu: None })
}

fn moved_v4() -> Resolution {
    let moved = InterfaceAddresses { v4: Some(Ipv4Addr::new(10, 0, 0, 9)), ..addrs() };
    Resolution::Found(Resolved { addrs: moved, mtu: None })
}

fn moved_v6() -> Resolution {
    let moved = InterfaceAddresses { v6_routable: Some(Ipv6Addr { bits: 9 }), ..addrs() };
    Resolution::Found(Resolved { addrs: moved, mtu: None })
}

fn gone() -> Resolution {
    Resolution::Found(Resolved { addrs: InterfaceAddresses::default(), mtu: None })
}

fn add(d: &mut Dispatcher, name: &str, ifindex: u32) -> CaptureKey {
    let capture = Capture::new((), 3, name.to_owned(), Vec::new());
    let resolved = Resolved { addrs: addrs(), mtu: None };
    d.add_capture(capture, Ok(Opened { ifindex, resolved })).unwrap()
}

/// A dispatcher whose one interface is cached at `ifindex`, its capture out of its slot.
fn without_a_capture(ifindex: u32) -> (Dispatcher, CaptureKey) {
    let mut d: Dispatcher = PacketDispatcher::new(None, 0);
    let key = add(&mut d, "lo", ifindex);
    d.begin_drain(key);
    (d, key)
}

fn batch(events: &[InterfaceEvent]) -> EventBatch {
    let mut batch = EventBatch::new();
    for event in events {
        batch.note(*event);
    }
    batch
}

/// Run a pass, every capture of which re-binds as told.
fn reconcile(
    d: &mut Dispatcher,
    lookups: Vec<NameLookup>,
    bound: Vec<Option<u32>>,
    resolution: Resolution,
    binds: bool,
) -> usize {
    let pass = d.begin_reconcile(&lookups, &bound);
    let facts: Vec<RepairFacts> = pass
        .stale
        .iter()
        .map(|stale| RepairFacts {
            resolution,
            bound: vec![binds; d.captures_of(stale.key).len()],
        })
        .collect();
    d.reconcile_interfaces(pass, &facts, NOW, &mut ()).len()
}

#[test]
fn reconcile_repairs_a_moved_identity_and_arms_the_slow_tick() {
    let (mut d, key) = without_a_capture(LO_INDEX + 1000);
    let lookups = vec![NameLookup::Present(LO_INDEX)];
    assert!(!d.stale_interfaces(&lookups, &vec![None]).is_empty());

    assert_eq!(reconcile(&mut d, lookups.clone(), vec![None], found(), true), 1);

    assert!(
        d.stale_interfaces(&lookups, &vec![None]).is_empty(),
        "the moved identity is repaired"
    );
    assert_eq!(d.capture_ifindex(key), Some(LO_INDEX));
    assert_eq!(
        d.next_deadline::<()>(None),
        Some(NOW + RECONCILE_TICK),
        "a healthy table re-arms the slow tick, not the retry"
    );
}

#[test]
fn reconcile_parks_a_vanished_interface_and_keeps_the_fast_retry() {
    let (mut d, _) = without_a_capture(LO_INDEX);
    let absent = vec![NameLookup::Absent];
    reconcile(&mut d, absent.clone(), vec![None], gone(), true);

    assert!(
        d.stale_interfaces(&absent, &vec![None]).is_empty(),
        "a parked entry is quiescent, not perpetually stale"
    );
    assert!(d.any_absent());
    assert_eq!(
        d.next_deadline::<()>(None),
        Some(NOW + RECONCILE_RETRY),
        "an absent interface keeps the fast retry cadence"
    );
    // The interface "returns" (the name resolves again): the next pass rebuilds it.
    reconcile(&mut d, vec![NameLookup::Present(LO_INDEX)], vec![None], found(), true);
    assert!(!d.any_absent(), "the returned interface is re-pointed");
    assert_eq!(
        d.next_deadline::<()>(None),
        Some(NOW + RECONCILE_TICK),
        "recovery re-arms the slow tick"
    );
}

#[test]
fn reconcile_counts_a_recovery_on_the_interface_captures() {
    let (mut d, capture) = without_a_capture(LO_INDEX + 1000);
    assert_eq!(d.counters(capture).unwrap().recoveries(), 0);
    reconcile(&mut d, vec![NameLookup::Present(LO_INDEX)], vec![None], found(), true);
    assert_eq!(
        d.counters(capture).unwrap().recoveries(),
        1,
        "the completed recovery is counted on the interface's capture row"
    );
}

#[test]
fn parking_counts_no_recovery_and_tells_the_handlers() {
    let mut d: Dispatcher = PacketDispatcher::new(None, 0);
    let key = add(&mut d, "lo", LO_INDEX);
    let told: Told = Rc::new(RefCell::new(Vec::new()));
    d.register(key, Filter::default(), Listener(told.clone()));
    reconcile(&mut d, vec![NameLookup::Absent], vec![None], gone(), true);
    assert_eq!(d.counters(key).unwrap().recoveries(), 0);
    assert_eq!(*told.borrow(), vec![vec![key]]);
    assert_eq!(d.egress_addrs(key), Some(InterfaceAddresses::default()));
}

#[test]
fn a_failed_re_bind_is_retried_until_it_holds() {
    let mut d: Dispatcher = PacketDispatcher::new(None, 0);
    let key = add(&mut d, "lo", 5);
    let lookups = vec![NameLookup::Present(6)];
    reconcile(&mut d, lookups.clone(), vec![None], found(), false);
    assert_eq!(d.counters(key).unwrap().recoveries(), 0);
    assert_eq!(d.next_deadline::<()>(None), Some(NOW + RECONCILE_RETRY));
    // The identity moved, but the unhooked capture keeps the interface stale.
    assert_eq!(
        d.stale_interfaces(&lookups, &vec![None]),
        vec![StaleInterface { key: InterfaceKey(0), cached: 6, cur: 6 }]
    );
    reconcile(&mut d, lookups.clone(), vec![None], found(), true);
    assert_eq!(d.counters(key).unwrap().recoveries(), 1);
    assert!(d.stale_interfaces(&lookups, &vec![Some(6)]).is_empty());
    assert_eq!(d.next_deadline::<()>(None), Some(NOW + RECONCILE_TICK));
}

#[test]
fn a_failed_resolution_is_retried() {
    let mut d: Dispatcher = PacketDispatcher::new(None, 0);
    let key = add(&mut d, "lo", 5);
    let lookups = vec![NameLookup::Present(6)];
    reconcile(&mut d, lookups.clone(), vec![None], Resolution::Failed, true);
    assert_eq!(d.capture_ifindex(key), Some(5), "the old identity stays, visibly stale");
    assert_eq!(d.stale_interfaces(&lookups, &vec![Some(6)]).len(), 1);
    assert_eq!(d.next_deadline::<()>(None), Some(NOW + RECONCILE_RETRY));
}

#[test]
fn a_repair_by_hand_says_what_is_left_to_do() {
    let mut d: Dispatcher = PacketDispatcher::new(None, 0);
    let a = add(&mut d, "lo", 5);
    let b = add(&mut d, "lo", 5);
    let c = add(&mut d, "eth0", 7);
    d.begin_drain(b);
    let lookups = vec![NameLookup::Present(6), NameLookup::Present(7)];
    let mut pass = d.begin_reconcile(&lookups, &vec![None, None, Some(7)]);
    assert_eq!(pass.current().unwrap().key, InterfaceKey(0));
    // Nothing is said of the second capture: it counts as not re-bound, but it is missing.
    let repair = d.repair(&pass, found(), &vec![true]);
    assert_eq!(repair.captures, vec![a, b]);
    assert_eq!(repair.rebinds, vec![CaptureRebind::Rebound, CaptureRebind::Missing]);
    assert_eq!(repair.rejoin_at, Some(6));
    assert!(!repair.failed);
    d.notify_iface_change(&repair.captures, &mut ());
    d.complete_repair(&mut pass, &repair);
    assert!(pass.current().is_none());
    assert_eq!(d.counters(a).unwrap().recoveries(), 1);
    assert_eq!(d.counters(b).unwrap().recoveries(), 1);
    assert_eq!(d.counters(c).unwrap().recoveries(), 0);
    d.finish_reconcile(pass, NOW);
    assert_eq!(d.next_deadline::<()>(None), Some(NOW + RECONCILE_TICK));
}

#[test]
fn notifications_coalesce_per_interface() {
    let b = batch(&[
        InterfaceEvent::Address(4),
        InterfaceEvent::Link(9),
        InterfaceEvent::Link(4),
        InterfaceEvent::Address(9),
    ]);
    assert_eq!(b.changed, vec![(4, true), (9, true)]);
    assert!(!b.overflow && !b.is_empty());
    assert!(batch(&[]).is_empty());
    assert!(batch(&[InterfaceEvent::Overflow]).overflow);
}

#[test]
fn a_moved_address_names_the_captures_behind_it() {
    let mut d: Dispatcher = PacketDispatcher::new(None, 0);
    let lo = add(&mut d, "lo", LO_INDEX);
    let eth = add(&mut d, "eth0", 2);
    let bound = vec![Some(LO_INDEX), Some(2)];
    // A v4 move concerns proxies and sessions alike.
    let b = batch(&[InterfaceEvent::Address(2)]);
    let plan = d.refresh_changed_interfaces(&b, &vec![moved_v4()], &bound, LINUX);
    assert_eq!(plan.v4_captures, vec![eth]);
    assert_eq!(plan.touched_captures, vec![eth]);
    assert_eq!(plan.rejoins, vec![InterfaceKey(1)]);
    assert!(!plan.reconcile);
    assert_eq!(d.egress_addrs(eth).unwrap().v4, Some(Ipv4Addr::new(10, 0, 0, 9)));
    // A v6 move leaves the proxies alone.
    let b = batch(&[InterfaceEvent::Address(LO_INDEX)]);
    let plan = d.refresh_changed_interfaces(&b, &vec![moved_v6()], &bound, LINUX);
    assert!(plan.v4_captures.is_empty());
    assert_eq!(plan.touched_captures, vec![lo]);
    // A benign event moves nothing.
    let plan = d.refresh_changed_interfaces(&b, &vec![moved_v6()], &bound, LINUX);
    assert!(plan.v4_captures.is_empty() && plan.touched_captures.is_empty() && !plan.reconcile);
}

#[test]
fn only_telling_notifications_reconcile() {
    let mut d: Dispatcher = PacketDispatcher::new(None, 0);
    add(&mut d, "lo", 5);
    let hooked = vec![Some(5)];
    let follow = |d: &mut Dispatcher, event, resolution, bound: &Vec<Option<u32>>, platform| {
        d.refresh_changed_interfaces(&batch(&[event]), &vec![resolution], bound, platform).reconcile
    };
    assert!(!follow(&mut d, InterfaceEvent::Address(5), found(), &hooked, LINUX));
    assert!(follow(&mut d, InterfaceEvent::Link(5), found(), &hooked, LINUX));
    assert!(follow(&mut d, InterfaceEvent::Address(5), found(), &vec![None], LINUX));
    assert!(follow(&mut d, InterfaceEvent::Address(5), Resolution::Failed, &hooked, LINUX));
    // Churn on an unwatched interface at or below the ceiling says nothing; above it, a creation.
    assert!(!follow(&mut d, InterfaceEvent::Link(4), found(), &hooked, LINUX));
    assert!(!follow(&mut d, InterfaceEvent::Address(8), found(), &hooked, LINUX));
    assert!(!follow(&mut d, InterfaceEvent::Link(8), found(), &hooked, LINUX));
    assert!(follow(&mut d, InterfaceEvent::Link(9), found(), &hooked, LINUX));
    assert!(!follow(&mut d, InterfaceEvent::Link(9), found(), &hooked, LINUX));
    // Where indexes are reused any link event may be a creation, and where creations are not
    // announced anything may be.
    let freebsd = Platform { indexes_monotonic: false, lifecycle_events: true };
    assert!(follow(&mut d, InterfaceEvent::Link(4), found(), &hooked, freebsd));
    assert!(!follow(&mut d, InterfaceEvent::Address(4), found(), &hooked, freebsd));
    let macos = Platform { indexes_monotonic: true, lifecycle_events: false };
    assert!(follow(&mut d, InterfaceEvent::Address(4), found(), &hooked, macos));
}

#[test]
fn an_overflow_re_resolves_everything_and_reconciles() {
    let mut d: Dispatcher = PacketDispatcher::new(None, 0);
    let lo = add(&mut d, "lo", LO_INDEX);
    let eth = add(&mut d, "eth0", 2);
    add(&mut d, "eth1", 0);
    let bound = vec![Some(LO_INDEX), Some(2), None];
    let b = batch(&[InterfaceEvent::Overflow]);
    let resolutions = vec![moved_v6(), Resolution::Failed, found()];
    let plan = d.refresh_changed_interfaces(&b, &resolutions, &bound, LINUX);
    // The failed one cannot be confirmed, so it counts as moved.
    assert_eq!(plan.v4_captures, vec![eth]);
    assert_eq!(plan.touched_captures, vec![lo, eth]);
    // The absent one has no index to re-join at.
    assert_eq!(plan.rejoins, vec![InterfaceKey(0), InterfaceKey(1)]);
    assert!(plan.reconcile);
    assert_eq!(d.captures_for(&vec![2, LO_INDEX, 77]), vec![eth, lo]);
}

#[test]
fn nobody_is_told_of_nothing() {
    let mut d: Dispatcher = PacketDispatcher::new(None, 0);
    let key = add(&mut d, "lo", LO_INDEX);
    let told: Told = Rc::new(RefCell::new(Vec::new()));
    d.register(key, Filter::default(), Listener(told.clone()));
    d.register(key, Filter::default(), Listener(told.clone()));
    d.notify_iface_change(&vec![], &mut ());
    assert!(told.borrow().is_empty());
    d.notify_iface_change(&vec![key], &mut ());
    assert_eq!(*told.borrow(), vec![vec![key], vec![key]]);
    assert!(d.handlers_home());
}

#[test]
fn a_pass_recovers_each_interface_once_and_counts_nowhere_else() {
    let mut d: Dispatcher = PacketDispatcher::new(None, 0);
    let lo = add(&mut d, "lo", LO_INDEX);
    let again = add(&mut d, "lo", LO_INDEX);
    let eth = add(&mut d, "eth0", 2);
    let wlan = add(&mut d, "wlan0", 3);
    let told: Told = Rc::new(RefCell::new(Vec::new()));
    d.register(lo, Filter::default(), Listener(told.clone()));
    let lookups =
        vec![NameLookup::Present(11), NameLookup::Present(2), NameLookup::Present(13)];
    let hooked = vec![Some(LO_INDEX), Some(LO_INDEX), Some(2), Some(3)];
    let pass = d.begin_reconcile(&lookups, &hooked);
    assert_eq!(pass.stale[0].rejoin_at(), Some(11));
    assert_eq!(StaleInterface { cur: 0, ..pass.stale[0] }.rejoin_at(), None);
    let keys: Vec<InterfaceKey> = pass.stale.iter().map(|stale| stale.key).collect();
    assert_eq!(keys, vec![InterfaceKey(0), InterfaceKey(2)]);
    let facts = vec![
        RepairFacts { resolution: found(), bound: vec![true, true] },
        RepairFacts { resolution: found(), bound: vec![false] },
    ];
    let repairs = d.reconcile_interfaces(pass, &facts, NOW, &mut ());
    assert_eq!(repairs.len(), 2);
    assert!(!repairs[0].failed && repairs[1].failed);
    let recoveries = |key: CaptureKey| d.counters(key).unwrap().recoveries();
    assert_eq!(
        (recoveries(lo), recoveries(again), recoveries(eth), recoveries(wlan)),
        (1, 1, 0, 0)
    );
    assert_eq!(*told.borrow(), vec![vec![lo, again], vec![wlan]], "each repair is told once");
    assert_eq!(d.capture_ifindex(lo), Some(11));
    assert_eq!(d.capture_ifindex(eth), Some(2));
    assert_eq!(d.capture_ifindex(wlan), Some(13));
}
