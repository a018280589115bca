//! Packet dispatch: the routing layer between captures and handlers.
//!
//! [`PacketDispatcher`] owns every capture, each linked to its interface and addressed by a
//! [`CaptureKey`], and every routing registration. A readable capture is taken out of the table for
//! its drain, and each packet read from it is offered to every registration whose filter matches. A
//! handler, taken out of its registration for the call, is free to change the dispatcher: to send on
//! the captures still in the table, or to register further work.

use vstd::prelude::*;

use crate::arena::{
    has_vacancy, law_every_slot_is_used_free_or_retired,
    law_storing_and_removing_in_turn_takes_one_slot, slots_after, takes_slot, vacant_without, Arena,
    Key,
};
use crate::capture::Capture;
use crate::errno::Errnos;
use crate::interface::{InterfaceAddresses, ResolveFailed};
use crate::net::{ethernet_dst, group_mac_bits, DatagramError, IpAddr, LinkType, MacAddr, SocketAddr};

use self::filter::Filter;
use self::interface_table::{
    position_at, position_named, watched, CaptureEntry, InterfaceEntry, InterfaceTable, Opened, SentFrame,
};
use self::keys::{CaptureKey, InterfaceKey, RegistrationKey, MONITOR_TAG};

pub mod deadlines;
pub mod drain;
pub mod filter;
pub mod handler;
pub mod interface_table;
pub mod keys;
pub mod reconcile;
pub mod refresh;
pub mod routing;
pub mod sending;

verus! {

/// How long a healthy table goes without a reconcile pass: the guarantee that a recreated interface
/// is found even if every event about it was lost.
pub const RECONCILE_TICK: u64 = 30_000_000_000;

/// How long until the next reconcile pass while an interface is absent or a repair failed.
pub const RECONCILE_RETRY: u64 = 1_000_000_000;

/// The time `by` after `now`, or the end of the clock if that comes first.
pub open spec fn later_spec(now: u64, by: u64) -> u64 {
    if now + by <= u64::MAX {
        (now + by) as u64
    } else {
        u64::MAX
    }
}

/// The time `by` after `now`, or the end of the clock if that comes first.
pub(crate) fn later(now: u64, by: u64) -> (r: u64)
    ensures
        r == later_spec(now, by),
{
    if now <= u64::MAX - by {
        now + by
    } else {
        u64::MAX
    }
}

/// One routing registration: the capture it is for, its filter, and the handler behind it. The
/// handler is out of its slot while it is called.
#[derive(Debug)]
pub struct Registration<H> {
    pub ingress: CaptureKey,
    pub filter: Filter,
    pub handler: Option<H>,
}

/// When the counters are reported.
#[derive(Clone, Copy, PartialEq, Eq, Structural, Debug)]
pub struct CounterReport {
    pub interval: u64,
    pub next: u64,
}

/// Everything a dispatcher holds, as mathematical values.
#[verifier::ext_equal]
pub struct DispatchState<S, H> {
    pub interfaces: Seq<InterfaceEntry>,
    pub rows: Seq<CaptureEntry<S>>,
    /// Whether added interfaces join groups.
    pub joins: bool,
    pub registrations: Map<Key, Registration<H>>,
    /// Every registration key ever handed out.
    pub issued: Set<Key>,
    /// The number of registration slots ever made.
    pub slots: nat,
    /// The registration slots freed for a further registration.
    pub vacant: Set<u32>,
    pub report: Option<CounterReport>,
    /// The largest kernel index seen.
    pub ceiling: u32,
    /// When the next reconcile pass is due.
    pub next_reconcile: u64,
    /// The number of the packet routed last, from 1.
    pub packet: u64,
    /// Whether a packet is being routed.
    pub routing: bool,
    /// The interface monitor's descriptor.
    pub monitor: Option<i32>,
    pub errnos: Errnos,
}

impl<S, H> DispatchState<S, H> {
    /// What a dispatcher starts with: nothing captured, nothing registered, and the first reconcile
    /// pass one tick away.
    pub open spec fn initial(joins: bool, monitor: Option<i32>, now: u64, errnos: Errnos) -> Self {
        DispatchState {
            interfaces: Seq::empty(),
            rows: Seq::empty(),
            joins,
            registrations: Map::empty(),
            issued: Set::empty(),
            slots: 0,
            vacant: Set::empty(),
            report: None,
            ceiling: 0,
            next_reconcile: later_spec(now, RECONCILE_TICK),
            packet: 0,
            routing: false,
            monitor,
            errnos,
        }
    }

    /// The record of the interface behind a capture.
    pub open spec fn entry_behind(self, capture: CaptureKey) -> Option<InterfaceEntry> {
        if capture.0 < self.rows.len() && self.rows[capture.0 as int].interface.0
            < self.interfaces.len() {
            Some(self.interfaces[self.rows[capture.0 as int].interface.0 as int])
        } else {
            None
        }
    }

    /// The source addresses behind a capture.
    pub open spec fn addrs_behind(self, capture: CaptureKey) -> Option<InterfaceAddresses> {
        match self.entry_behind(capture) {
            Some(entry) => Some(entry.interface.addrs),
            None => None,
        }
    }

    /// The capture a key addresses, unless it is out of range or taken out.
    pub open spec fn capture_at(self, capture: CaptureKey) -> Option<Capture<S>> {
        if capture.0 < self.rows.len() {
            self.rows[capture.0 as int].capture
        } else {
            None
        }
    }

    /// Whether no handler is out for a call.
    pub open spec fn handlers_home(self) -> bool {
        forall|key: Key| #[trigger]
            self.registrations.contains_key(key) ==> self.registrations[key].handler is Some
    }

    /// Whether every live registration's key was handed out.
    pub open spec fn live_were_issued(self) -> bool {
        forall|key: Key| #[trigger]
            self.registrations.contains_key(key) ==> self.issued.contains(key)
    }

    /// Whether `later` can come of this by any use of a dispatcher that leaves every handler where it
    /// found it: captures and interfaces are only added, a key is handed out once, and no further
    /// handler is out.
    pub open spec fn kept_by(self, later: Self) -> bool {
        &&& self.rows.len() <= later.rows.len()
        &&& self.interfaces.len() <= later.interfaces.len()
        &&& forall|i: int|
            0 <= i < self.rows.len() ==> (#[trigger] later.rows[i]).interface
                == self.rows[i].interface
        &&& self.issued.subset_of(later.issued)
        &&& forall|key: Key| #[trigger]
            later.registrations.contains_key(key) && self.issued.contains(key)
                ==> self.registrations.contains_key(key)
        &&& forall|key: Key| #[trigger]
            later.registrations.contains_key(key) && later.registrations[key].handler is None
                ==> self.registrations.contains_key(key) && self.registrations[key].handler is None
    }

    /// Whether `later` keeps everything this has, is set up the same, has the same packet under way, and
    /// has every registration that is still there for the same packets.
    pub open spec fn undisturbed_by(self, later: Self) -> bool {
        &&& self.kept_by(later)
        &&& later.joins == self.joins
        &&& later.report == self.report
        &&& later.packet == self.packet
        &&& later.routing == self.routing
        &&& later.monitor == self.monitor
        &&& later.errnos == self.errnos
        &&& forall|key: Key| #[trigger]
            later.registrations.contains_key(key) && self.registrations.contains_key(key) ==> {
                &&& later.registrations[key].ingress == self.registrations[key].ingress
                &&& later.registrations[key].filter == self.registrations[key].filter
            }
    }

    /// Whether `later` can come of this by calls of handlers alone. They may register and unregister,
    /// send, ask for groups, and add captures. They leave the routing of the packet under way, every
    /// count, the deadlines, and what is known of each interface as they were, and whatever
    /// registration is still there is for the same packets.
    pub open spec fn steady_by(self, later: Self) -> bool {
        &&& self.undisturbed_by(later)
        &&& later.next_reconcile == self.next_reconcile
        &&& forall|i: int|
            0 <= i < self.rows.len() ==> (#[trigger] later.rows[i]).counters
                == self.rows[i].counters
        &&& forall|i: int|
            0 <= i < self.interfaces.len() ==> {
                &&& (#[trigger] later.interfaces[i]).interface == self.interfaces[i].interface
                &&& later.interfaces[i].joiner.active == self.interfaces[i].joiner.active
            }
    }

    /// Whether `later` is how one call of a handler may leave this: steady, and every registration that
    /// is still there just as it was, its handler included.
    pub open spec fn left_by_a_call(self, later: Self) -> bool {
        &&& self.steady_by(later)
        &&& forall|key: Key| #[trigger]
            later.registrations.contains_key(key) && self.registrations.contains_key(key)
                ==> later.registrations[key] == self.registrations[key]
    }

    /// This with one more registration, under a key never handed out. The number of slots grows only where
    /// none is free.
    pub open spec fn registered(self, key: Key, registration: Registration<H>) -> Self {
        DispatchState {
            registrations: self.registrations.insert(key, registration),
            issued: self.issued.insert(key),
            slots: slots_after(self.slots, self.vacant),
            vacant: self.vacant.remove(key.index),
            ..self
        }
    }

    /// This without the registration of `key`, its slot free for a further one.
    pub open spec fn unregistered(self, key: Key) -> Self {
        DispatchState {
            registrations: self.registrations.remove(key),
            vacant: vacant_without(self.registrations, self.vacant, key),
            ..self
        }
    }

    /// This with `handler` in the slot of `key`.
    pub open spec fn with_handler(self, key: Key, handler: Option<H>) -> Self {
        DispatchState {
            registrations: self.registrations.insert(
                key,
                Registration { handler, ..self.registrations[key] },
            ),
            ..self
        }
    }

    /// This with `handler` put back in the slot of `key` after its call. Where the registration is gone
    /// the handler is dropped.
    pub open spec fn put_back(self, key: Key, handler: H) -> Self {
        if self.registrations.contains_key(key) {
            self.with_handler(key, Some(handler))
        } else {
            self
        }
    }
}

/// Owns the interface table and the routing registrations.
#[derive(Debug)]
pub struct PacketDispatcher<S, H> {
    table: InterfaceTable<S>,
    registrations: Arena<Registration<H>>,
    report: Option<CounterReport>,
    max_seen_ifindex: u32,
    next_reconcile: u64,
    packet: u64,
    routing: bool,
    monitor: Option<i32>,
    errnos: Errnos,
}

impl<S, H> PacketDispatcher<S, H> {
    /// Everything the dispatcher holds.
    pub closed spec fn view(&self) -> DispatchState<S, H> {
        DispatchState {
            interfaces: self.table.interfaces(),
            rows: self.table.rows(),
            joins: self.table.joins(),
            registrations: self.registrations@,
            issued: Set::new(|key: Key| self.registrations.issued(key)),
            slots: self.registrations.slots_spec(),
            vacant: self.registrations.vacant(),
            report: self.report,
            ceiling: self.max_seen_ifindex,
            next_reconcile: self.next_reconcile,
            packet: self.packet,
            routing: self.routing,
            monitor: self.monitor,
            errnos: self.errnos,
        }
    }

    /// What every dispatcher keeps: a sound table and store, and every capture on a known interface.
    pub closed spec fn wf(&self) -> bool {
        &&& self.table.wf()
        &&& self.registrations.wf()
        &&& forall|i: int|
            0 <= i < self.table.rows().len() ==> (#[trigger] self.table.rows()[i]).interface.0
                < self.table.interfaces().len()
    }

    fn with_table(table: InterfaceTable<S>, monitor: Option<i32>, now: u64) -> (r: Self)
        requires
            table.wf(),
            table.interfaces().len() == 0,
            table.rows().len() == 0,
        ensures
            r.wf(),
            r@.errnos.linux(),
            r@ == DispatchState::<S, H>::initial(table.joins(), monitor, now, r@.errnos),
    {
        let r = PacketDispatcher {
            table,
            registrations: Arena::new(),
            report: None,
            max_seen_ifindex: 0,
            next_reconcile: later(now, RECONCILE_TICK),
            packet: 0,
            routing: false,
            monitor,
            errnos: Errnos::of_target(),
        };
        assert(r@.issued =~= Set::<Key>::empty());
        r
    }

    /// A dispatcher with no captures yet. `monitor` is the descriptor of the interface monitor, where
    /// one could be opened.
    pub fn new(monitor: Option<i32>, now: u64) -> (r: Self)
        ensures
            r.wf(),
            r@.errnos.linux(),
            r@ == DispatchState::<S, H>::initial(true, monitor, now, r@.errnos),
    {
        Self::with_table(InterfaceTable::new(), monitor, now)
    }

    /// A dispatcher that joins no multicast group.
    pub fn without_group_joins(monitor: Option<i32>, now: u64) -> (r: Self)
        ensures
            r.wf(),
            r@.errnos.linux(),
            r@ == DispatchState::<S, H>::initial(false, monitor, now, r@.errnos),
    {
        Self::with_table(InterfaceTable::without_group_joins(), monitor, now)
    }

    /// Report the counters every `interval`, for the first time `interval` after `now`.
    pub fn enable_counter_report(&mut self, interval: u64, now: u64)
        requires
            old(self).wf(),
        ensures
            final(self).wf(),
            final(self)@ == (DispatchState {
                report: Some(CounterReport { interval, next: later_spec(now, interval) }),
                ..old(self)@
            }),
    {
        self.report = Some(CounterReport { interval, next: later(now, interval) });
    }

    /// The number of interfaces.
    pub fn interface_count(&self) -> (r: usize)
        ensures
            r == self@.interfaces.len(),
    {
        self.table.interface_count()
    }

    /// The number of captures.
    pub fn capture_count(&self) -> (r: usize)
        ensures
            r == self@.rows.len(),
    {
        self.table.capture_count()
    }

    /// The number of registration slots ever made.
    pub fn slot_count(&self) -> (r: usize)
        ensures
            r == self@.slots,
    {
        self.registrations.slot_count()
    }

    /// Hand a capture to the dispatcher; the key is how it is addressed from then on. Captures opened
    /// for the same name share one interface. `opened` is what opening the interface found, and counts
    /// only where the name is new.
    pub fn add_capture(&mut self, capture: Capture<S>, opened: Result<Opened, ResolveFailed>) -> (r:
        Result<CaptureKey, ResolveFailed>)
        requires
            old(self).wf(),
            old(self)@.interfaces.len() <= u32::MAX,
            old(self)@.rows.len() <= u32::MAX,
        ensures
            final(self).wf(),
            ({
                let known = position_named(old(self)@.interfaces, capture.name@, 0);
                let n = old(self)@.interfaces.len();
                let i = match known {
                    Some(i) => i,
                    None => n as int,
                };
                let entries = final(self)@.interfaces;
                let row = final(self)@.rows.last();
                if known is None && opened is Err {
                    &&& r == Err::<CaptureKey, ResolveFailed>(ResolveFailed)
                    &&& final(self)@ == old(self)@
                } else {
                    &&& r == Ok::<CaptureKey, ResolveFailed>(
                        CaptureKey(old(self)@.rows.len() as u32),
                    )
                    &&& 0 <= i < entries.len()
                    &&& if known is Some {
                        entries == old(self)@.interfaces
                    } else {
                        &&& entries == old(self)@.interfaces.push(entries[i])
                        &&& entries[i].is_opened(capture.name@, opened->Ok_0, old(self)@.joins)
                    }
                    &&& row.is_fresh(capture, InterfaceKey(i as u32))
                    &&& final(self)@ == (DispatchState {
                        interfaces: entries,
                        rows: old(self)@.rows.push(row),
                        ceiling: if entries[i].interface.ifindex > old(self)@.ceiling {
                            entries[i].interface.ifindex
                        } else {
                            old(self)@.ceiling
                        },
                        ..old(self)@
                    })
                }
            }),
    {
        let interface = match self.table.find_or_add_interface(capture.name.as_str(), opened) {
            Ok(interface) => interface,
            Err(e) => {
                return Err(e);
            },
        };
        let key = self.table.add_capture(capture, interface);
        if let Some(ifindex) = self.table.interface_index(interface) {
            if ifindex > self.max_seen_ifindex {
                self.max_seen_ifindex = ifindex;
            }
        }
        assert(self@.rows =~= old(self)@.rows.push(self@.rows.last()));
        Ok(key)
    }

    /// Each present capture's descriptor and tag, and the interface monitor's under its own tag.
    pub fn capture_watches(&self) -> (r: Vec<(i32, u64)>)
        requires
            self.wf(),
        ensures
            r@ == match self@.monitor {
                Some(fd) => watched(self@.rows, self@.rows.len() as int).push((fd, MONITOR_TAG)),
                None => watched(self@.rows, self@.rows.len() as int),
            },
    {
        let mut watches = self.table.capture_watches();
        if let Some(fd) = self.monitor {
            watches.push((fd, MONITOR_TAG));
        }
        watches
    }

    /// Register `handler` for the packets captured on `ingress` that `filter` matches. A slot freed by
    /// [`unregister`](Self::unregister) is used again where there is one.
    pub fn register(&mut self, ingress: CaptureKey, filter: Filter, handler: H) -> (key:
        RegistrationKey)
        requires
            old(self).wf(),
            has_vacancy(old(self)@.vacant) || old(self)@.slots <= u32::MAX,
        ensures
            final(self).wf(),
            !old(self)@.issued.contains(key.0),
            !old(self)@.registrations.contains_key(key.0),
            takes_slot(old(self)@.slots, old(self)@.vacant, key.0),
            final(self)@ == old(self)@.registered(
                key.0,
                Registration { ingress, filter, handler: Some(handler) },
            ),
    {
        let key = self.registrations.insert(
            Registration { ingress, filter, handler: Some(handler) },
        );
        assert(self@.issued =~= old(self)@.issued.insert(key));
        RegistrationKey(key)
    }

    /// Remove a registration, freeing its slot. A key that addresses none removes nothing.
    pub fn unregister(&mut self, key: RegistrationKey)
        requires
            old(self).wf(),
        ensures
            final(self).wf(),
            final(self)@ == old(self)@.unregistered(key.0),
    {
        self.registrations.remove(key.0);
        assert(self@.issued =~= old(self)@.issued);
    }

    /// Ask for `group` on the interface behind `capture`: it is recorded for every later re-attempt,
    /// and the result is the index to join it at now. An unknown capture asks for nothing.
    pub fn join_group(&mut self, capture: CaptureKey, group: IpAddr) -> (r: Option<u32>)
        requires
            old(self).wf(),
        ensures
            final(self).wf(),
            match old(self)@.entry_behind(capture) {
                None => r is None && final(self)@ == old(self)@,
                Some(was) => {
                    let i = old(self)@.rows[capture.0 as int].interface.0 as int;
                    let now = final(self)@.interfaces[i];
                    &&& final(self)@ == (DispatchState {
                        interfaces: old(self)@.interfaces.update(i, now),
                        ..old(self)@
                    })
                    &&& now.interface == was.interface
                    &&& now.joiner.active == was.joiner.active
                    &&& now.joiner.groups@ == was.joiner.recorded(group)
                    &&& r == if was.joiner.active && was.interface.ifindex != 0 {
                        Some(was.interface.ifindex)
                    } else {
                        None
                    }
                },
            },
    {
        match self.table.interface_of(capture) {
            Some(interface) => self.table.join_on(interface, group),
            None => None,
        }
    }

    /// The groups recorded on an interface, if it is known.
    pub fn groups(&self, interface: InterfaceKey) -> (r: Option<&[IpAddr]>)
        ensures
            match r {
                Some(groups) => {
                    &&& interface.0 < self@.interfaces.len()
                    &&& groups@ == self@.interfaces[interface.0 as int].joiner.groups@
                },
                None => interface.0 >= self@.interfaces.len(),
            },
    {
        self.table.groups(interface)
    }

    /// The capture a key addresses, unless it is out of range or taken out.
    pub fn capture(&self, capture: CaptureKey) -> (r: Option<&Capture<S>>)
        ensures
            match r {
                Some(c) => self@.capture_at(capture) == Some(*c),
                None => self@.capture_at(capture) is None,
            },
    {
        self.table.capture(capture)
    }

    /// The MTU of the interface behind a capture, as of its last resolution.
    pub fn interface_mtu(&self, capture: CaptureKey) -> (r: Option<u32>)
        ensures
            r == match self@.entry_behind(capture) {
                Some(entry) => entry.interface.mtu,
                None => None,
            },
    {
        self.table.mtu_of(capture)
    }

    /// The source addresses of the interface behind a capture.
    pub fn egress_addrs(&self, egress: CaptureKey) -> (r: Option<InterfaceAddresses>)
        ensures
            r == self@.addrs_behind(egress),
    {
        self.table.egress_addrs(egress)
    }

    /// The name of the interface behind a capture, which a proxy's egress is pinned to.
    pub fn interface_behind(&self, target: CaptureKey) -> (r: Option<&str>)
        ensures
            match r {
                Some(name) => {
                    &&& self@.entry_behind(target) matches Some(entry)
                    &&& name@ == entry.interface.name@
                },
                None => self@.entry_behind(target) is None,
            },
    {
        match self.table.interface_of(target) {
            Some(interface) => self.table.interface_name(interface),
            None => None,
        }
    }

    /// The name of an interface, if it is known.
    pub fn interface_name(&self, interface: InterfaceKey) -> (r: Option<&str>)
        ensures
            match r {
                Some(name) => {
                    &&& interface.0 < self@.interfaces.len()
                    &&& name@ == self@.interfaces[interface.0 as int].interface.name@
                },
                None => interface.0 >= self@.interfaces.len(),
            },
    {
        self.table.interface_name(interface)
    }

    /// The kernel index of an interface, 0 while it is parked absent.
    pub fn interface_index(&self, interface: InterfaceKey) -> (r: Option<u32>)
        ensures
            r == if interface.0 < self@.interfaces.len() {
                Some(self@.interfaces[interface.0 as int].interface.ifindex)
            } else {
                None
            },
    {
        self.table.interface_index(interface)
    }

    /// The interface a capture runs on, also while the capture is taken out.
    pub fn interface_of(&self, capture: CaptureKey) -> (r: Option<InterfaceKey>)
        ensures
            r == if capture.0 < self@.rows.len() {
                Some(self@.rows[capture.0 as int].interface)
            } else {
                None
            },
    {
        self.table.interface_of(capture)
    }

    /// The interface named `name`, if it is known.
    pub fn find_interface(&self, name: &str) -> (r: Option<InterfaceKey>)
        requires
            self.wf(),
        ensures
            match position_named(self@.interfaces, name@, 0) {
                Some(i) => r == Some(InterfaceKey(i as u32)) && 0 <= i < self@.interfaces.len(),
                None => r is None,
            },
    {
        self.table.find_interface(name)
    }

    /// The first interface with kernel index `ifindex`, if one has it.
    pub fn interface_at(&self, ifindex: u32) -> (r: Option<InterfaceKey>)
        requires
            self.wf(),
        ensures
            match position_at(self@.interfaces, ifindex, 0) {
                Some(i) => r == Some(InterfaceKey(i as u32)) && 0 <= i < self@.interfaces.len(),
                None => r is None,
            },
    {
        self.table.interface_at(ifindex)
    }

    /// The kernel index of the interface behind a capture, 0 while it is parked absent.
    pub fn capture_ifindex(&self, capture: CaptureKey) -> (r: Option<u32>)
        ensures
            r == match self@.entry_behind(capture) {
                Some(entry) => Some(entry.interface.ifindex),
                None => None,
            },
    {
        self.table.ifindex_of(capture)
    }

    /// The link framing of a capture, unless it is out of range or taken out.
    pub fn link_type(&self, egress: CaptureKey) -> (r: Option<LinkType>)
        ensures
            r == match self@.capture_at(egress) {
                Some(capture) => Some(capture.link),
                None => None,
            },
    {
        match self.table.capture(egress) {
            Some(capture) => Some(capture.link_type()),
            None => None,
        }
    }

    /// The hardware destination for a broadcast or multicast `dst` on `egress`, whose own directed
    /// broadcast counts as a broadcast.
    pub fn group_mac(&self, egress: CaptureKey, dst: SocketAddr) -> (r: Result<
        MacAddr,
        DatagramError,
    >)
        ensures
            ({
                let directed = match self@.addrs_behind(egress) {
                    Some(addrs) => addrs.v4_directed_broadcast,
                    None => None,
                };
                match group_mac_bits(dst.ip, directed) {
                    Some(bits) => r matches Ok(mac) && mac.bits() == bits,
                    None => r == Err::<MacAddr, DatagramError>(DatagramError::UnicastDestination),
                }
            }),
    {
        let directed = match self.egress_addrs(egress) {
            Some(addrs) => addrs.v4_directed_broadcast,
            None => None,
        };
        ethernet_dst(dst.ip, directed)
    }
}

/// Every live registration's key was handed out.
pub proof fn law_live_registrations_were_issued<S, H>(dispatcher: PacketDispatcher<S, H>)
    ensures
        dispatcher@.live_were_issued(),
{
    assert forall|key: Key| #[trigger] dispatcher@.registrations.contains_key(key) implies
        dispatcher@.issued.contains(key) by {
        crate::arena::law_live_keys_were_issued(dispatcher.registrations, key);
    }
}

/// Using a dispatcher twice in a row keeps what each use keeps, and not using it keeps everything.
pub proof fn law_keeping_composes<S, H>(
    a: DispatchState<S, H>,
    b: DispatchState<S, H>,
    c: DispatchState<S, H>,
)
    requires
        a.kept_by(b),
        b.kept_by(c),
    ensures
        a.kept_by(a),
        a.kept_by(c),
{
    assert forall|key: Key| #[trigger]
        c.registrations.contains_key(key) && a.issued.contains(key) implies
        a.registrations.contains_key(key) by {
        assert(b.issued.contains(key));
        assert(b.registrations.contains_key(key));
    }
    assert forall|key: Key| #[trigger]
        c.registrations.contains_key(key) && c.registrations[key].handler is None implies
        a.registrations.contains_key(key) && a.registrations[key].handler is None by {
        assert(b.registrations.contains_key(key));
    }
}

/// What two uses of a dispatcher in a row each leave undisturbed, they do together.
pub proof fn law_being_undisturbed_composes<S, H>(
    a: DispatchState<S, H>,
    b: DispatchState<S, H>,
    c: DispatchState<S, H>,
)
    requires
        a.live_were_issued(),
        a.undisturbed_by(b),
        b.undisturbed_by(c),
    ensures
        a.undisturbed_by(a),
        a.undisturbed_by(c),
{
    law_keeping_composes(a, b, c);
    assert forall|key: Key| #[trigger]
        c.registrations.contains_key(key) && a.registrations.contains_key(key) implies {
        &&& c.registrations[key].ingress == a.registrations[key].ingress
        &&& c.registrations[key].filter == a.registrations[key].filter
    } by {
        assert(b.issued.contains(key));
        assert(b.registrations.contains_key(key));
    }
}

/// Calls of handlers one after the other are as steady as each, and no call at all leaves everything as
/// it was.
pub proof fn law_steadiness_composes<S, H>(
    a: DispatchState<S, H>,
    b: DispatchState<S, H>,
    c: DispatchState<S, H>,
)
    requires
        a.live_were_issued(),
        a.steady_by(b),
        b.steady_by(c),
    ensures
        a.steady_by(a),
        a.steady_by(c),
{
    law_being_undisturbed_composes(a, b, c);
    assert forall|i: int| 0 <= i < a.rows.len() implies (#[trigger] c.rows[i]).counters
        == a.rows[i].counters by {
        assert(b.rows[i].counters == a.rows[i].counters);
    }
    assert forall|i: int| 0 <= i < a.interfaces.len() implies {
        &&& (#[trigger] c.interfaces[i]).interface == a.interfaces[i].interface
        &&& c.interfaces[i].joiner.active == a.interfaces[i].joiner.active
    } by {
        assert(b.interfaces[i].interface == a.interfaces[i].interface);
    }
}

/// Registering under a key never handed out, and unregistering any key, leave all else as a call of a
/// handler may: no old key comes back to life, no handler leaves its slot, and nothing is counted.
pub proof fn law_registration_changes_are_steady<S, H>(
    state: DispatchState<S, H>,
    key: Key,
    registration: Registration<H>,
)
    ensures
        state.left_by_a_call(state.unregistered(key)),
        !state.issued.contains(key) && !state.registrations.contains_key(key)
            && registration.handler is Some ==> state.left_by_a_call(
            state.registered(key, registration),
        ),
{
}

/// Every registration slot is in use, free for a further registration, or retired: its last key was handed
/// out, and addresses nothing any more.
pub proof fn law_every_registration_slot_is_used_free_or_retired<S, H>(
    dispatcher: PacketDispatcher<S, H>,
    index: u32,
)
    requires
        dispatcher.wf(),
        index < dispatcher@.slots,
    ensures
        ({
            ||| exists|generation: u32| #[trigger]
                dispatcher@.registrations.contains_key(Key { index, generation })
            ||| dispatcher@.vacant.contains(index)
            ||| dispatcher@.issued.contains(Key { index, generation: (u32::MAX - 1) as u32 })
        }),
{
    law_every_slot_is_used_free_or_retired(dispatcher.registrations, index);
    if exists|generation: u32| #[trigger]
        dispatcher.registrations@.contains_key(Key { index, generation }) {
        let generation = choose|generation: u32| #[trigger]
            dispatcher.registrations@.contains_key(Key { index, generation });
        assert(dispatcher@.registrations.contains_key(Key { index, generation }));
    }
}

/// Unregistering frees the slot: registering and unregistering in turn takes one slot for as long as its
/// keys last, so that the number of slots does not grow with the number of registrations ever made.
pub proof fn law_registering_in_turn_takes_one_slot<S, H>(
    state: DispatchState<S, H>,
    key: Key,
    registration: Registration<H>,
    next: Key,
    again: Registration<H>,
)
    requires
        key.generation + 1 < u32::MAX,
    ensures
        has_vacancy(state.registered(key, registration).unregistered(key).vacant),
        state.registered(key, registration).unregistered(key).registered(next, again).slots
            == state.registered(key, registration).slots,
{
    law_storing_and_removing_in_turn_takes_one_slot(
        state.registrations,
        state.slots,
        state.vacant,
        key,
        registration,
    );
}

/// Noting a frame as sent, recording a group on an interface, and adding a capture leave all else as a
/// call of a handler may.
pub proof fn law_a_handlers_use_of_the_table_is_steady<S, H>(
    state: DispatchState<S, H>,
    egress: CaptureKey,
    frame: Option<SentFrame>,
    at: int,
    entry: InterfaceEntry,
    row: CaptureEntry<S>,
    ceiling: u32,
)
    ensures
        state.left_by_a_call(state.noted(egress, frame)),
        0 <= at < state.interfaces.len() && entry.interface == state.interfaces[at].interface
            && entry.joiner.active == state.interfaces[at].joiner.active ==> state.left_by_a_call(
            DispatchState { interfaces: state.interfaces.update(at, entry), ..state },
        ),
        state.left_by_a_call(
            DispatchState { rows: state.rows.push(row), ceiling, ..state },
        ),
        state.left_by_a_call(
            DispatchState {
                interfaces: state.interfaces.push(entry),
                rows: state.rows.push(row),
                ceiling,
                ..state
            },
        ),
{
}

/// Whatever happens to the table, the clock, and the packet number, as long as captures and interfaces
/// are only added and no capture changes its interface, keeps everything.
pub proof fn law_table_changes_keep<S, H>(state: DispatchState<S, H>, after: DispatchState<S, H>)
    requires
        after.registrations == state.registrations,
        after.issued == state.issued,
        state.interfaces.len() <= after.interfaces.len(),
        state.rows.len() <= after.rows.len(),
        forall|i: int|
            0 <= i < state.rows.len() ==> (#[trigger] after.rows[i]).interface
                == state.rows[i].interface,
    ensures
        state.kept_by(after),
{
}

/// A capture's key is its identity for good: whatever a dispatcher is used for, the key stays in range
/// and on the same interface.
pub proof fn law_capture_keys_are_stable<S, H>(
    state: DispatchState<S, H>,
    later: DispatchState<S, H>,
    capture: CaptureKey,
)
    requires
        state.kept_by(later),
        capture.0 < state.rows.len(),
    ensures
        capture.0 < later.rows.len(),
        later.rows[capture.0 as int].interface == state.rows[capture.0 as int].interface,
{
}

/// An unregistered handler is never revived: its key was handed out once, so no later registration
/// answers to it.
pub proof fn law_an_unregistered_key_stays_dead<S, H>(
    dispatcher: PacketDispatcher<S, H>,
    later: DispatchState<S, H>,
    key: Key,
)
    requires
        dispatcher@.registrations.contains_key(key),
        dispatcher@.unregistered(key).kept_by(later),
    ensures
        !later.registrations.contains_key(key),
{
    law_live_registrations_were_issued(dispatcher);
    if later.registrations.contains_key(key) {
        assert(dispatcher@.registrations.remove(key).contains_key(key));
    }
}

/// A time in the future is exactly that far off, unless the clock ends before.
pub proof fn law_later_is_exactly_that_much_later(now: u64, by: u64)
    ensures
        now + by <= u64::MAX ==> later_spec(now, by) == now + by,
        now + by > u64::MAX ==> later_spec(now, by) == u64::MAX,
{
}

/// A new dispatcher watches nothing and routes nothing: no interface, capture or registration, no report, no
/// packet numbered, and the first reconcile pass thirty seconds off.
pub proof fn law_a_new_dispatcher_is_blank<S, H>(
    joins: bool,
    monitor: Option<i32>,
    now: u64,
    errnos: Errnos,
    key: Key,
)
    requires
        now + 30_000_000_000 <= u64::MAX,
    ensures
        ({
            let state = DispatchState::<S, H>::initial(joins, monitor, now, errnos);
            &&& state.interfaces.len() == 0
            &&& state.rows.len() == 0
            &&& state.joins == joins
            &&& !state.registrations.contains_key(key)
            &&& !state.issued.contains(key)
            &&& state.slots == 0
            &&& !state.vacant.contains(key.index)
            &&& state.report is None
            &&& state.ceiling == 0
            &&& state.next_reconcile == now + 30_000_000_000
            &&& state.packet == 0
            &&& !state.routing
            &&& state.monitor == monitor
            &&& state.errnos == errnos
        }),
{
}

/// What a capture's key leads to: the interface its row names, that interface's addresses, and the capture
/// unless it is taken out. A key out of range leads to nothing.
pub proof fn law_a_key_leads_to_its_interface<S, H>(state: DispatchState<S, H>, key: CaptureKey)
    ensures
        key.0 >= state.rows.len() ==> {
            &&& state.entry_behind(key) is None
            &&& state.addrs_behind(key) is None
            &&& state.capture_at(key) is None
        },
        key.0 < state.rows.len() ==> {
            let row = state.rows[key.0 as int];
            &&& state.capture_at(key) == row.capture
            &&& row.interface.0 < state.interfaces.len() ==> {
                &&& state.entry_behind(key) == Some(state.interfaces[row.interface.0 as int])
                &&& state.addrs_behind(key) == Some(
                    state.interfaces[row.interface.0 as int].interface.addrs,
                )
            }
            &&& row.interface.0 >= state.interfaces.len() ==> {
                &&& state.entry_behind(key) is None
                &&& state.addrs_behind(key) is None
            }
        },
{
}

/// Handlers are home exactly if every live registration has its own in its slot.
pub proof fn law_a_handler_out_is_not_home<S, H>(state: DispatchState<S, H>, key: Key)
    requires
        state.registrations.contains_key(key),
    ensures
        state.registrations[key].handler is None ==> !state.handlers_home(),
        state.handlers_home() ==> state.registrations[key].handler is Some,
        (forall|k: Key| #[trigger]
            state.registrations.contains_key(k) ==> !(state.registrations[k].handler is None))
            ==> state.handlers_home(),
{
}

/// What a call of a handler leaves alone, whatever it does: the number of the packet under way and that it is
/// being routed, every count, the report, the next reconcile pass, every capture's interface, what is known of
/// each interface, and every registration that it does not remove.
pub proof fn law_what_a_call_leaves_alone<S, H>(
    state: DispatchState<S, H>,
    left: DispatchState<S, H>,
    i: int,
    at: int,
    key: Key,
)
    requires
        state.left_by_a_call(left),
    ensures
        left.packet == state.packet,
        left.routing == state.routing,
        left.report == state.report,
        left.next_reconcile == state.next_reconcile,
        left.joins == state.joins,
        left.monitor == state.monitor,
        left.errnos == state.errnos,
        state.rows.len() <= left.rows.len(),
        state.interfaces.len() <= left.interfaces.len(),
        0 <= i < state.rows.len() ==> left.rows[i].counters == state.rows[i].counters
            && left.rows[i].interface == state.rows[i].interface,
        0 <= at < state.interfaces.len() ==> left.interfaces[at].interface
            == state.interfaces[at].interface,
        state.issued.contains(key) ==> left.issued.contains(key),
        left.registrations.contains_key(key) && state.registrations.contains_key(key)
            ==> left.registrations[key] == state.registrations[key],
        left.registrations.contains_key(key) && state.issued.contains(key)
            ==> state.registrations.contains_key(key),
{
}

/// Registering adds exactly one registration, with its handler in its slot, and unregistering takes exactly
/// one away; every other is as it was, and nothing is counted, routed or scheduled by either.
pub proof fn law_registering_and_unregistering_touch_one<S, H>(
    state: DispatchState<S, H>,
    key: Key,
    registration: Registration<H>,
    other: Key,
)
    requires
        other != key,
    ensures
        ({
            let after = state.registered(key, registration);
            &&& after.registrations.contains_key(key)
            &&& after.registrations[key] == registration
            &&& after.issued.contains(key)
            &&& after.registrations.contains_key(other) == state.registrations.contains_key(other)
            &&& state.registrations.contains_key(other) ==> after.registrations[other]
                == state.registrations[other]
            &&& after.rows == state.rows
            &&& after.interfaces == state.interfaces
            &&& after.packet == state.packet
            &&& after.routing == state.routing
            &&& after.report == state.report
            &&& after.next_reconcile == state.next_reconcile
        }),
        ({
            let after = state.unregistered(key);
            &&& !after.registrations.contains_key(key)
            &&& after.issued == state.issued
            &&& after.registrations.contains_key(other) == state.registrations.contains_key(other)
            &&& state.registrations.contains_key(other) ==> after.registrations[other]
                == state.registrations[other]
            &&& after.slots == state.slots
            &&& after.rows == state.rows
            &&& after.interfaces == state.interfaces
            &&& after.packet == state.packet
            &&& after.routing == state.routing
            &&& after.report == state.report
            &&& after.next_reconcile == state.next_reconcile
        }),
{
}

/// A handler put back after its call is in its own slot, for the same packets as before; where its
/// registration is gone it is not brought back. No other registration is touched.
pub proof fn law_a_handler_goes_back_to_its_own_slot<S, H>(
    state: DispatchState<S, H>,
    key: Key,
    handler: H,
    other: Key,
)
    requires
        other != key,
    ensures
        !state.registrations.contains_key(key) ==> state.put_back(key, handler) == state,
        state.registrations.contains_key(key) ==> {
            let after = state.put_back(key, handler);
            &&& after.registrations.contains_key(key)
            &&& after.registrations[key].handler == Some(handler)
            &&& after.registrations[key].ingress == state.registrations[key].ingress
            &&& after.registrations[key].filter == state.registrations[key].filter
            &&& after.registrations.contains_key(other) == state.registrations.contains_key(other)
            &&& state.registrations.contains_key(other) ==> after.registrations[other]
                == state.registrations[other]
            &&& after.rows == state.rows
            &&& after.interfaces == state.interfaces
            &&& after.packet == state.packet
            &&& after.routing == state.routing
            &&& after.issued == state.issued
        },
{
}

/// A handler taken out for its call leaves its slot empty and everything else as it was, and putting the same
/// one back undoes that.
pub proof fn law_taking_a_handler_out_is_undone_by_putting_it_back<S, H>(
    state: DispatchState<S, H>,
    key: Key,
    handler: H,
)
    requires
        state.registrations.contains_key(key),
        state.registrations[key].handler == Some(handler),
    ensures
        state.with_handler(key, None).registrations[key].handler is None,
        state.with_handler(key, None).put_back(key, handler) == state,
{
    let out = state.with_handler(key, None);
    assert(out.put_back(key, handler).registrations =~= state.registrations);
}

/// A healthy table waits thirty seconds for its next reconcile pass, and one that is not waits one second.
pub proof fn law_the_cadences_of_reconciling()
    ensures
        RECONCILE_TICK == 30 * 1_000_000_000,
        RECONCILE_RETRY == 1_000_000_000,
{
}

/// What any number of calls of handlers leave alone together: the number of the packet under way and that it is
/// being routed, every count, the report, the next reconcile pass, every capture's interface, what is known of
/// each interface, and what each registration that is still there is for.
pub proof fn law_what_calls_together_leave_alone<S, H>(
    state: DispatchState<S, H>,
    later: DispatchState<S, H>,
    i: int,
    at: int,
    key: Key,
)
    requires
        state.steady_by(later),
    ensures
        later.packet == state.packet,
        later.routing == state.routing,
        later.report == state.report,
        later.next_reconcile == state.next_reconcile,
        later.joins == state.joins,
        later.monitor == state.monitor,
        later.errnos == state.errnos,
        state.rows.len() <= later.rows.len(),
        state.interfaces.len() <= later.interfaces.len(),
        0 <= i < state.rows.len() ==> later.rows[i].counters == state.rows[i].counters
            && later.rows[i].interface == state.rows[i].interface,
        0 <= at < state.interfaces.len() ==> later.interfaces[at].interface
            == state.interfaces[at].interface && later.interfaces[at].joiner.active
            == state.interfaces[at].joiner.active,
        state.issued.contains(key) ==> later.issued.contains(key),
        later.registrations.contains_key(key) && state.registrations.contains_key(key)
            ==> later.registrations[key].ingress == state.registrations[key].ingress
            && later.registrations[key].filter == state.registrations[key].filter,
        later.registrations.contains_key(key) && state.issued.contains(key)
            ==> state.registrations.contains_key(key),
        state.handlers_home() ==> later.handlers_home(),
{
}

/// What a reconcile pass leaves alone: how the dispatcher is set up, the packet under way, the report, every
/// capture's interface, and what each registration that is still there is for.
pub proof fn law_what_a_pass_leaves_alone<S, H>(
    state: DispatchState<S, H>,
    later: DispatchState<S, H>,
    i: int,
    key: Key,
)
    requires
        state.undisturbed_by(later),
    ensures
        later.packet == state.packet,
        later.routing == state.routing,
        later.report == state.report,
        later.joins == state.joins,
        later.monitor == state.monitor,
        later.errnos == state.errnos,
        state.interfaces.len() <= later.interfaces.len(),
        0 <= i < state.rows.len() ==> i < later.rows.len() && later.rows[i].interface
            == state.rows[i].interface,
        later.registrations.contains_key(key) && state.registrations.contains_key(key)
            ==> later.registrations[key].ingress == state.registrations[key].ingress
            && later.registrations[key].filter == state.registrations[key].filter,
        later.registrations.contains_key(key) && state.issued.contains(key)
            ==> state.registrations.contains_key(key),
        state.handlers_home() ==> later.handlers_home(),
{
}

}
