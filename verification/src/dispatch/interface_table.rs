//! Every interface with the groups joined on it, and every capture linked to its interface.

use vstd::prelude::*;

use crate::capture::{attached, Capture};
use crate::counters::{CaptureCounters, Outcome};
use crate::dispatch::keys::{CaptureKey, InterfaceKey, MONITOR_TAG};
use crate::interface::{
    address_change, AddressChange, Interface, InterfaceAddresses, Resolution, ResolveFailed, Resolved,
};
use crate::net::IpAddr;

verus! {

/// The last frame sent on a capture, tagged with the packet whose routing sent it. Packets count
/// from 1, so the default is no packet's frame.
#[derive(Clone, Copy, PartialEq, Eq, Structural, Debug)]
pub struct SentFrame {
    pub packet: u64,
    pub len: usize,
    pub checksum: u16,
}

impl SentFrame {
    /// Nothing sent yet.
    pub open spec fn none() -> Self {
        SentFrame { packet: 0, len: 0, checksum: 0 }
    }
}

impl Default for SentFrame {
    fn default() -> (r: Self)
        ensures
            r == SentFrame::none(),
    {
        SentFrame { packet: 0, len: 0, checksum: 0 }
    }
}

/// The multicast groups wanted on one interface. An inactive joiner wants none.
#[derive(Debug)]
pub struct Joiner {
    pub active: bool,
    /// The groups recorded for re-attempt whenever the interface's addresses change.
    pub groups: Vec<IpAddr>,
}

impl Joiner {
    /// The recorded groups once `group` was asked for.
    pub open spec fn recorded(self, group: IpAddr) -> Seq<IpAddr> {
        if self.active && !self.groups@.contains(group) {
            self.groups@.push(group)
        } else {
            self.groups@
        }
    }

    /// Record `group` for every later re-attempt.
    pub fn record(&mut self, group: IpAddr)
        ensures
            final(self).active == old(self).active,
            final(self).groups@ == old(self).recorded(group),
    {
        if !self.active {
            return;
        }
        let mut i: usize = 0;
        while i < self.groups.len()
            invariant
                i <= self.groups@.len(),
                *self == *old(self),
                self.active,
                forall|j: int| 0 <= j < i ==> self.groups@[j] != group,
            decreases self.groups@.len() - i,
        {
            if self.groups[i] == group {
                return;
            }
            i += 1;
        }
        self.groups.push(group);
    }
}

/// One interface and the groups joined on it.
#[derive(Debug)]
pub struct InterfaceEntry {
    pub interface: Interface,
    pub joiner: Joiner,
}

impl InterfaceEntry {
    /// The entry once re-pointed at kernel index `cur`. A failed resolution leaves the old identity,
    /// so that the entry stays visibly out of date.
    pub open spec fn rebound(self, cur: u32, resolution: Resolution) -> Self {
        match resolution {
            Resolution::Found(_) => InterfaceEntry {
                interface: Interface { ifindex: cur, ..self.interface.refreshed(resolution) },
                ..self
            },
            Resolution::Failed => self,
        }
    }

    /// Whether this is what opening the interface `name` gives: nothing recorded yet, and joining
    /// groups only if `joins`.
    pub open spec fn is_opened(self, name: Seq<char>, opened: Opened, joins: bool) -> bool {
        &&& self.interface.name@ == name
        &&& self.interface.ifindex == opened.ifindex
        &&& self.interface.addrs == opened.resolved.addrs
        &&& self.interface.mtu == opened.resolved.mtu
        &&& self.joiner.active == joins
        &&& self.joiner.groups@.len() == 0
    }

    /// What taking in a resolution reports of the entry's addresses.
    pub open spec fn refresh_result(self, resolution: Resolution) -> Result<
        AddressChange,
        ResolveFailed,
    > {
        match resolution {
            Resolution::Found(found) => Ok(address_change(self.interface.addrs, found.addrs)),
            Resolution::Failed => Err(ResolveFailed),
        }
    }

    /// The entry after a resolution of its interface.
    pub open spec fn refreshed(self, resolution: Resolution) -> Self {
        InterfaceEntry { interface: self.interface.refreshed(resolution), ..self }
    }
}

/// One capture, the interface it runs on, and its counts. The capture is taken out while it is
/// drained; the link and the counts stay.
#[derive(Debug)]
pub struct CaptureEntry<S> {
    pub capture: Option<Capture<S>>,
    pub interface: InterfaceKey,
    pub counters: CaptureCounters,
    pub last_sent: SentFrame,
}

impl<S> CaptureEntry<S> {
    /// Whether this is `capture` just added on `interface`: nothing counted, nothing sent.
    pub open spec fn is_fresh(self, capture: Capture<S>, interface: InterfaceKey) -> bool {
        &&& self.capture == Some(capture)
        &&& self.interface == interface
        &&& self.counters.zero()
        &&& self.last_sent == SentFrame::none()
    }
}

/// What opening an interface found.
#[derive(Clone, Copy, PartialEq, Eq, Structural, Debug)]
pub struct Opened {
    pub ifindex: u32,
    pub resolved: Resolved,
}

/// What became of a refreshed interface.
#[derive(Clone, Copy, PartialEq, Eq, Structural, Debug)]
pub struct Refreshed {
    pub interface: InterfaceKey,
    pub change: AddressChange,
    /// Whether its recorded groups are to be re-attempted.
    pub rejoin: bool,
}

/// What looking up an interface's name gave.
#[derive(Clone, Copy, PartialEq, Eq, Structural, Debug)]
pub enum NameLookup {
    /// The lookup could not run: it says nothing about the interface.
    Unavailable,
    /// No interface bears the name.
    Absent,
    Present(u32),
}

impl NameLookup {
    /// The index the name resolves to, 0 where it resolves to nothing, or `None` where that is not
    /// known.
    pub open spec fn index_spec(self) -> Option<u32> {
        match self {
            NameLookup::Unavailable => None,
            NameLookup::Absent => Some(0),
            NameLookup::Present(index) => Some(index),
        }
    }

    /// The index the name resolves to, 0 where it resolves to nothing, or `None` where that is not
    /// known.
    pub fn index(&self) -> (r: Option<u32>)
        ensures
            r == self.index_spec(),
    {
        match *self {
            NameLookup::Unavailable => None,
            NameLookup::Absent => Some(0),
            NameLookup::Present(index) => Some(index),
        }
    }
}

/// An interface whose kernel identity moved, or one of whose captures lost its binding.
#[derive(Clone, Copy, PartialEq, Eq, Structural, Debug)]
pub struct StaleInterface {
    pub key: InterfaceKey,
    /// The identity the table holds, 0 while parked absent.
    pub cached: u32,
    /// The index the name resolves to now, 0 where it resolves to nothing.
    pub cur: u32,
}

impl StaleInterface {
    /// The index to re-join the recorded groups at: none while the interface is absent, where the kernel
    /// would pick an arbitrary one.
    pub open spec fn rejoin_at_spec(self) -> Option<u32> {
        if self.cur != 0 {
            Some(self.cur)
        } else {
            None
        }
    }

    /// The index to re-join the recorded groups at: none while the interface is absent, where the kernel
    /// would pick an arbitrary one.
    pub fn rejoin_at(&self) -> (r: Option<u32>)
        ensures
            r == self.rejoin_at_spec(),
    {
        if self.cur != 0 {
            Some(self.cur)
        } else {
            None
        }
    }
}

/// How the re-binding of one capture went.
#[derive(Clone, Copy, PartialEq, Eq, Structural, Debug)]
pub enum CaptureRebind {
    Rebound,
    /// No capture sat in the slot.
    Missing,
    Failed,
}

/// What re-pointing an interface left to do.
#[derive(Clone, Copy, PartialEq, Eq, Structural, Debug)]
pub struct Rebound {
    /// The index to re-join the recorded groups at, on fresh sockets.
    pub rejoin_at: Option<u32>,
    /// Whether the addresses were resolved. Where they were not, the entry keeps its old identity.
    pub resolved: bool,
}

/// Whether no two interfaces share a name.
pub open spec fn distinct_names(entries: Seq<InterfaceEntry>) -> bool {
    forall|i: int, j: int|
        0 <= i < j < entries.len() ==> (#[trigger] entries[i]).interface.name@ != (
        #[trigger] entries[j]).interface.name@
}

/// The first interface named `name` at or after `from`.
pub open spec fn position_named(entries: Seq<InterfaceEntry>, name: Seq<char>, from: int) -> Option<
    int,
>
    decreases entries.len() - from,
{
    if from < 0 || from >= entries.len() {
        None
    } else if entries[from].interface.name@ == name {
        Some(from)
    } else {
        position_named(entries, name, from + 1)
    }
}

/// The first interface with kernel index `ifindex` at or after `from`.
pub open spec fn position_at(entries: Seq<InterfaceEntry>, ifindex: u32, from: int) -> Option<int>
    decreases entries.len() - from,
{
    if from < 0 || from >= entries.len() {
        None
    } else if entries[from].interface.ifindex == ifindex {
        Some(from)
    } else {
        position_at(entries, ifindex, from + 1)
    }
}

/// The keys of the first `n` captures that run on `interface`, in order.
pub open spec fn captures_on<S>(
    rows: Seq<CaptureEntry<S>>,
    interface: InterfaceKey,
    n: int,
) -> Seq<CaptureKey>
    decreases n,
{
    if n <= 0 {
        Seq::empty()
    } else {
        let before = captures_on(rows, interface, n - 1);
        if rows[n - 1].interface == interface {
            before.push(CaptureKey((n - 1) as u32))
        } else {
            before
        }
    }
}

/// Whether some present capture on `interface` is not hooked to the live interface `cur`. `bound`
/// gives the index each capture's socket is hooked to.
pub open spec fn has_dead_capture<S>(
    rows: Seq<CaptureEntry<S>>,
    bound: Seq<Option<u32>>,
    interface: InterfaceKey,
    cur: u32,
) -> bool {
    exists|i: int|
        0 <= i < rows.len() && #[trigger] rows[i].interface == interface && rows[i].capture is Some
            && bound[i] != Some(cur)
}

/// Whether interface number `i` no longer matches what the table holds of it, given what its name
/// resolves to and what every capture is hooked to. One parked absent whose name still resolves to
/// nothing is quiescent, not stale.
pub open spec fn is_stale<S>(
    entries: Seq<InterfaceEntry>,
    rows: Seq<CaptureEntry<S>>,
    lookups: Seq<NameLookup>,
    bound: Seq<Option<u32>>,
    i: int,
) -> bool {
    match lookups[i].index_spec() {
        None => false,
        Some(cur) => {
            ||| cur != entries[i].interface.ifindex
            ||| cur != 0 && has_dead_capture(rows, bound, InterfaceKey(i as u32), cur)
        },
    }
}

/// The stale ones among the first `n` interfaces, in order.
pub open spec fn stale_among<S>(
    entries: Seq<InterfaceEntry>,
    rows: Seq<CaptureEntry<S>>,
    lookups: Seq<NameLookup>,
    bound: Seq<Option<u32>>,
    n: int,
) -> Seq<StaleInterface>
    decreases n,
{
    if n <= 0 {
        Seq::empty()
    } else {
        let before = stale_among(entries, rows, lookups, bound, n - 1);
        if is_stale(entries, rows, lookups, bound, n - 1) {
            before.push(
                StaleInterface {
                    key: InterfaceKey((n - 1) as u32),
                    cached: entries[n - 1].interface.ifindex,
                    cur: lookups[n - 1].index_spec()->0,
                },
            )
        } else {
            before
        }
    }
}

/// The name and counts of each of the first `n` captures whose interface is known, in order.
pub open spec fn reported_rows<S>(
    entries: Seq<InterfaceEntry>,
    rows: Seq<CaptureEntry<S>>,
    n: int,
) -> Seq<(Seq<char>, CaptureCounters)>
    decreases n,
{
    if n <= 0 {
        Seq::empty()
    } else {
        let before = reported_rows(entries, rows, n - 1);
        let row = rows[n - 1];
        if row.interface.0 < entries.len() {
            before.push((entries[row.interface.0 as int].interface.name@, row.counters))
        } else {
            before
        }
    }
}

/// The descriptor and tag of each present capture among the first `n`, in order.
pub open spec fn watched<S>(rows: Seq<CaptureEntry<S>>, n: int) -> Seq<(i32, u64)>
    decreases n,
{
    if n <= 0 {
        Seq::empty()
    } else {
        let before = watched(rows, n - 1);
        match rows[n - 1].capture {
            Some(capture) => before.push((capture.fd, (n - 1) as u64)),
            None => before,
        }
    }
}

/// The interfaces among the first `n` that an interface currently backs, in order.
pub open spec fn present_among(entries: Seq<InterfaceEntry>, n: int) -> Seq<InterfaceKey>
    decreases n,
{
    if n <= 0 {
        Seq::empty()
    } else {
        let before = present_among(entries, n - 1);
        if entries[n - 1].interface.ifindex != 0 {
            before.push(InterfaceKey((n - 1) as u32))
        } else {
            before
        }
    }
}

/// The interfaces after a resolution of each.
pub open spec fn refreshed_each(
    entries: Seq<InterfaceEntry>,
    resolutions: Seq<Resolution>,
) -> Seq<InterfaceEntry> {
    Seq::new(entries.len(), |i: int| entries[i].refreshed(resolutions[i]))
}

/// What a resolution of each interface reports: its kernel index, and which addresses moved.
pub open spec fn refresh_results(
    entries: Seq<InterfaceEntry>,
    resolutions: Seq<Resolution>,
) -> Seq<(u32, Result<AddressChange, ResolveFailed>)> {
    Seq::new(
        entries.len(),
        |i: int| (entries[i].interface.ifindex, entries[i].refresh_result(resolutions[i])),
    )
}

/// Whether some interface is parked absent.
pub open spec fn some_absent(entries: Seq<InterfaceEntry>) -> bool {
    exists|i: int| 0 <= i < entries.len() && (#[trigger] entries[i]).interface.ifindex == 0
}

/// The keys of the captures on the interface with kernel index `ifindex`.
pub open spec fn captures_at<S>(
    entries: Seq<InterfaceEntry>,
    rows: Seq<CaptureEntry<S>>,
    ifindex: u32,
) -> Seq<CaptureKey> {
    match position_at(entries, ifindex, 0) {
        Some(i) => captures_on(rows, InterfaceKey(i as u32), rows.len() as int),
        None => Seq::empty(),
    }
}

/// Whether two sequences of captures agree everywhere but in the counts of capture `i`.
pub open spec fn only_counts_differ<S>(
    before: Seq<CaptureEntry<S>>,
    after: Seq<CaptureEntry<S>>,
    i: int,
) -> bool {
    after == before.update(i, CaptureEntry { counters: after[i].counters, ..before[i] })
}

/// Owns every interface and every capture. Both are only ever added, so an index is a stable
/// identity.
#[derive(Debug)]
pub struct InterfaceTable<S> {
    entries: Vec<InterfaceEntry>,
    captures: Vec<CaptureEntry<S>>,
    join_groups: bool,
}

impl<S> InterfaceTable<S> {
    /// The interfaces, in the order added.
    pub closed spec fn interfaces(&self) -> Seq<InterfaceEntry> {
        self.entries@
    }

    /// The captures, in the order added.
    pub closed spec fn rows(&self) -> Seq<CaptureEntry<S>> {
        self.captures@
    }

    /// Whether the interfaces added from now on join groups.
    pub closed spec fn joins(&self) -> bool {
        self.join_groups
    }

    /// What every table keeps: keys fit their width, and no two interfaces share a name.
    pub open spec fn wf(&self) -> bool {
        &&& self.interfaces().len() <= u32::MAX + 1
        &&& self.rows().len() <= u32::MAX + 1
        &&& distinct_names(self.interfaces())
    }

    /// The interface behind a capture.
    pub open spec fn interface_of_spec(&self, capture: CaptureKey) -> Option<InterfaceKey> {
        if capture.0 < self.rows().len() {
            Some(self.rows()[capture.0 as int].interface)
        } else {
            None
        }
    }

    /// The record of the interface behind a capture.
    pub open spec fn entry_behind(&self, capture: CaptureKey) -> Option<InterfaceEntry> {
        match self.interface_of_spec(capture) {
            Some(interface) => if interface.0 < self.interfaces().len() {
                Some(self.interfaces()[interface.0 as int])
            } else {
                None
            },
            None => None,
        }
    }

    /// The source addresses behind a capture.
    pub open spec fn addrs_behind(&self, capture: CaptureKey) -> Option<InterfaceAddresses> {
        match self.entry_behind(capture) {
            Some(entry) => Some(entry.interface.addrs),
            None => None,
        }
    }

    /// The capture a key addresses, unless it is out of range or taken out.
    pub open spec fn capture_spec(&self, capture: CaptureKey) -> Option<Capture<S>> {
        if capture.0 < self.rows().len() {
            self.rows()[capture.0 as int].capture
        } else {
            None
        }
    }

    /// A table whose interfaces join the groups asked for.
    pub fn new() -> (r: Self)
        ensures
            r.wf(),
            r.interfaces().len() == 0,
            r.rows().len() == 0,
            r.joins(),
    {
        InterfaceTable { entries: Vec::new(), captures: Vec::new(), join_groups: true }
    }

    /// A table whose interfaces join no group.
    pub fn without_group_joins() -> (r: Self)
        ensures
            r.wf(),
            r.interfaces().len() == 0,
            r.rows().len() == 0,
            !r.joins(),
    {
        InterfaceTable { entries: Vec::new(), captures: Vec::new(), join_groups: false }
    }

    /// The number of interfaces.
    pub fn interface_count(&self) -> (r: usize)
        ensures
            r == self.interfaces().len(),
    {
        self.entries.len()
    }

    /// The number of captures.
    pub fn capture_count(&self) -> (r: usize)
        ensures
            r == self.rows().len(),
    {
        self.captures.len()
    }

    fn add_interface(&mut self, interface: Interface) -> (key: InterfaceKey)
        requires
            old(self).wf(),
            old(self).interfaces().len() <= u32::MAX,
            position_named(old(self).interfaces(), interface.name@, 0) is None,
        ensures
            final(self).wf(),
            key.0 == old(self).interfaces().len(),
            final(self).interfaces() == old(self).interfaces().push(
                final(self).interfaces()[key.0 as int],
            ),
            final(self).interfaces()[key.0 as int].interface == interface,
            final(self).interfaces()[key.0 as int].joiner.active == old(self).joins(),
            final(self).interfaces()[key.0 as int].joiner.groups@.len() == 0,
            final(self).rows() == old(self).rows(),
            final(self).joins() == old(self).joins(),
    {
        let key = InterfaceKey(self.entries.len() as u32);
        let joiner = Joiner { active: self.join_groups, groups: Vec::new() };
        proof {
            lemma_no_position_named(self.interfaces(), interface.name@, 0);
        }
        self.entries.push(InterfaceEntry { interface, joiner });
        key
    }

    /// The key of the interface named `name`, if there is one.
    pub fn find_interface(&self, name: &str) -> (r: Option<InterfaceKey>)
        requires
            self.wf(),
        ensures
            match position_named(self.interfaces(), name@, 0) {
                Some(i) => r == Some(InterfaceKey(i as u32)) && 0 <= i < self.interfaces().len(),
                None => r is None,
            },
    {
        let wanted: String = name.to_owned();
        let mut i: usize = 0;
        while i < self.entries.len()
            invariant
                self.wf(),
                i <= self.entries@.len(),
                wanted@ == name@,
                position_named(self.interfaces(), name@, 0) == position_named(
                    self.interfaces(),
                    name@,
                    i as int,
                ),
            decreases self.entries@.len() - i,
        {
            if self.entries[i].interface.name == wanted {
                return Some(InterfaceKey(i as u32));
            }
            i += 1;
        }
        None
    }

    /// The key of the interface named `name`, added with what opening it found if it is not there
    /// yet, so that captures on the same interface share one record. `opened` counts only then.
    pub fn find_or_add_interface(
        &mut self,
        name: &str,
        opened: Result<Opened, ResolveFailed>,
    ) -> (r: Result<InterfaceKey, ResolveFailed>)
        requires
            old(self).wf(),
            old(self).interfaces().len() <= u32::MAX,
        ensures
            final(self).wf(),
            final(self).rows() == old(self).rows(),
            final(self).joins() == old(self).joins(),
            match position_named(old(self).interfaces(), name@, 0) {
                Some(i) => {
                    &&& 0 <= i < old(self).interfaces().len()
                    &&& r == Ok::<InterfaceKey, ResolveFailed>(InterfaceKey(i as u32))
                    &&& final(self).interfaces() == old(self).interfaces()
                },
                None => match opened {
                    Err(e) => {
                        &&& r == Err::<InterfaceKey, ResolveFailed>(e)
                        &&& final(self).interfaces() == old(self).interfaces()
                    },
                    Ok(opened) => {
                        let n = old(self).interfaces().len();
                        let added = final(self).interfaces()[n as int];
                        &&& r == Ok::<InterfaceKey, ResolveFailed>(InterfaceKey(n as u32))
                        &&& final(self).interfaces() == old(self).interfaces().push(added)
                        &&& added.is_opened(name@, opened, old(self).joins())
                    },
                },
            },
    {
        if let Some(key) = self.find_interface(name) {
            return Ok(key);
        }
        match opened {
            Err(e) => Err(e),
            Ok(opened) => {
                let interface = Interface {
                    name: name.to_owned(),
                    ifindex: opened.ifindex,
                    addrs: opened.resolved.addrs,
                    mtu: opened.resolved.mtu,
                };
                Ok(self.add_interface(interface))
            },
        }
    }

    /// Ask for `group` on `interface`: it is recorded for every later re-attempt, and the result is
    /// the index to join it at now. Nothing is joined while the interface is absent: the kernel
    /// would pick an arbitrary one for index 0.
    pub fn join_on(&mut self, interface: InterfaceKey, group: IpAddr) -> (r: Option<u32>)
        requires
            old(self).wf(),
            interface.0 < old(self).interfaces().len(),
        ensures
            final(self).wf(),
            final(self).rows() == old(self).rows(),
            final(self).joins() == old(self).joins(),
            ({
                let i = interface.0 as int;
                let was = old(self).interfaces()[i];
                let now = final(self).interfaces()[i];
                &&& final(self).interfaces() == old(self).interfaces().update(i, now)
                &&& now.interface == was.interface
                &&& now.joiner.active == was.joiner.active
                &&& now.joiner.groups@ == was.joiner.recorded(group)
                &&& r == if was.joiner.active && was.interface.ifindex != 0 {
                    Some(was.interface.ifindex)
                } else {
                    None
                }
            }),
    {
        let i = interface.0 as usize;
        self.entries[i].joiner.record(group);
        assert(self.entries@ =~= old(self).entries@.update(i as int, self.entries@[i as int]));
        proof {
            lemma_names_kept(old(self).interfaces(), self.interfaces());
        }
        if self.entries[i].joiner.active && self.entries[i].interface.ifindex != 0 {
            Some(self.entries[i].interface.ifindex)
        } else {
            None
        }
    }

    /// The groups recorded on `interface`, if it is known.
    pub fn groups(&self, interface: InterfaceKey) -> (r: Option<&[IpAddr]>)
        ensures
            match r {
                Some(groups) => {
                    &&& interface.0 < self.interfaces().len()
                    &&& groups@ == self.interfaces()[interface.0 as int].joiner.groups@
                },
                None => interface.0 >= self.interfaces().len(),
            },
    {
        let i = interface.0 as usize;
        if i < self.entries.len() {
            Some(self.entries[i].joiner.groups.as_slice())
        } else {
            None
        }
    }

    /// Whether `frame` is the last one sent on `egress`. An unknown key never sent anything.
    pub fn is_last_sent(&self, egress: CaptureKey, frame: SentFrame) -> (r: bool)
        ensures
            r == (egress.0 < self.rows().len() && self.rows()[egress.0 as int].last_sent == frame),
    {
        let i = egress.0 as usize;
        i < self.captures.len() && self.captures[i].last_sent == frame
    }

    /// Note `frame` as the last one sent on `egress`. An unknown key changes nothing.
    pub fn set_last_sent(&mut self, egress: CaptureKey, frame: SentFrame)
        requires
            old(self).wf(),
        ensures
            final(self).wf(),
            final(self).interfaces() == old(self).interfaces(),
            final(self).joins() == old(self).joins(),
            final(self).rows() == if egress.0 < old(self).rows().len() {
                old(self).rows().update(
                    egress.0 as int,
                    CaptureEntry { last_sent: frame, ..old(self).rows()[egress.0 as int] },
                )
            } else {
                old(self).rows()
            },
    {
        let i = egress.0 as usize;
        if i < self.captures.len() {
            self.captures[i].last_sent = frame;
        }
    }

    /// Add a capture that runs on `interface`.
    pub fn add_capture(&mut self, capture: Capture<S>, interface: InterfaceKey) -> (key: CaptureKey)
        requires
            old(self).wf(),
            old(self).rows().len() <= u32::MAX,
        ensures
            final(self).wf(),
            final(self).interfaces() == old(self).interfaces(),
            final(self).joins() == old(self).joins(),
            key.0 == old(self).rows().len(),
            ({
                let added = final(self).rows()[key.0 as int];
                &&& final(self).rows() == old(self).rows().push(added)
                &&& added.is_fresh(capture, interface)
            }),
    {
        let key = CaptureKey(self.captures.len() as u32);
        self.captures.push(
            CaptureEntry {
                capture: Some(capture),
                interface,
                counters: CaptureCounters::new(),
                last_sent: SentFrame::default(),
            },
        );
        key
    }

    /// The interface a capture runs on, also while the capture is taken out.
    pub fn interface_of(&self, capture: CaptureKey) -> (r: Option<InterfaceKey>)
        ensures
            r == self.interface_of_spec(capture),
    {
        let i = capture.0 as usize;
        if i < self.captures.len() {
            Some(self.captures[i].interface)
        } else {
            None
        }
    }

    fn entry(&self, interface: InterfaceKey) -> (r: Option<&InterfaceEntry>)
        ensures
            match r {
                Some(entry) => {
                    &&& interface.0 < self.interfaces().len()
                    &&& *entry == self.interfaces()[interface.0 as int]
                },
                None => interface.0 >= self.interfaces().len(),
            },
    {
        let i = interface.0 as usize;
        if i < self.entries.len() {
            Some(&self.entries[i])
        } else {
            None
        }
    }

    /// The kernel index of the interface behind a capture, 0 while it is parked absent.
    pub fn ifindex_of(&self, capture: CaptureKey) -> (r: Option<u32>)
        ensures
            r == match self.entry_behind(capture) {
                Some(entry) => Some(entry.interface.ifindex),
                None => None,
            },
    {
        match self.interface_of(capture) {
            Some(interface) => self.interface_index(interface),
            None => None,
        }
    }

    /// The name of an interface, if it is known.
    pub fn interface_name(&self, interface: InterfaceKey) -> (r: Option<&str>)
        ensures
            match r {
                Some(name) => {
                    &&& interface.0 < self.interfaces().len()
                    &&& name@ == self.interfaces()[interface.0 as int].interface.name@
                },
                None => interface.0 >= self.interfaces().len(),
            },
    {
        match self.entry(interface) {
            Some(entry) => Some(entry.interface.name.as_str()),
            None => None,
        }
    }

    /// The kernel index of an interface, if it is known.
    pub fn interface_index(&self, interface: InterfaceKey) -> (r: Option<u32>)
        ensures
            r == if interface.0 < self.interfaces().len() {
                Some(self.interfaces()[interface.0 as int].interface.ifindex)
            } else {
                None
            },
    {
        match self.entry(interface) {
            Some(entry) => Some(entry.interface.ifindex),
            None => None,
        }
    }

    /// The source addresses behind a capture.
    pub fn egress_addrs(&self, capture: CaptureKey) -> (r: Option<InterfaceAddresses>)
        ensures
            r == self.addrs_behind(capture),
    {
        match self.interface_of(capture) {
            Some(interface) => match self.entry(interface) {
                Some(entry) => Some(entry.interface.addrs),
                None => None,
            },
            None => None,
        }
    }

    /// The MTU of the interface behind a capture, as of its last resolution.
    pub fn mtu_of(&self, capture: CaptureKey) -> (r: Option<u32>)
        ensures
            r == match self.entry_behind(capture) {
                Some(entry) => entry.interface.mtu,
                None => None,
            },
    {
        match self.interface_of(capture) {
            Some(interface) => match self.entry(interface) {
                Some(entry) => entry.interface.mtu,
                None => None,
            },
            None => None,
        }
    }

    /// The capture a key addresses, unless it is out of range or taken out.
    pub fn capture(&self, capture: CaptureKey) -> (r: Option<&Capture<S>>)
        ensures
            match r {
                Some(c) => self.capture_spec(capture) == Some(*c),
                None => self.capture_spec(capture) is None,
            },
    {
        let i = capture.0 as usize;
        if i < self.captures.len() {
            self.captures[i].capture.as_ref()
        } else {
            None
        }
    }

    /// Whether a key is in range, whether or not its capture is taken out.
    pub fn contains(&self, capture: CaptureKey) -> (r: bool)
        ensures
            r == (capture.0 < self.rows().len()),
    {
        (capture.0 as usize) < self.captures.len()
    }

    /// Take a capture out for its drain. `None` means out of range, or taken out already.
    pub fn take(&mut self, capture: CaptureKey) -> (r: Option<Capture<S>>)
        requires
            old(self).wf(),
        ensures
            final(self).wf(),
            r == old(self).capture_spec(capture),
            final(self).interfaces() == old(self).interfaces(),
            final(self).joins() == old(self).joins(),
            final(self).rows() == if capture.0 < old(self).rows().len() {
                old(self).rows().update(
                    capture.0 as int,
                    CaptureEntry { capture: None, ..old(self).rows()[capture.0 as int] },
                )
            } else {
                old(self).rows()
            },
    {
        let i = capture.0 as usize;
        if i < self.captures.len() {
            self.captures[i].capture.take()
        } else {
            None
        }
    }

    /// Put a drained capture back, reporting whether its slot is there.
    pub fn restore(&mut self, capture: CaptureKey, value: Capture<S>) -> (r: bool)
        requires
            old(self).wf(),
        ensures
            final(self).wf(),
            r == (capture.0 < old(self).rows().len()),
            final(self).interfaces() == old(self).interfaces(),
            final(self).joins() == old(self).joins(),
            final(self).rows() == if capture.0 < old(self).rows().len() {
                old(self).rows().update(
                    capture.0 as int,
                    CaptureEntry { capture: Some(value), ..old(self).rows()[capture.0 as int] },
                )
            } else {
                old(self).rows()
            },
    {
        let i = capture.0 as usize;
        if i < self.captures.len() {
            self.captures[i].capture = Some(value);
            true
        } else {
            false
        }
    }

    /// Count a routed packet's outcome on a capture's row.
    pub fn record(&mut self, capture: CaptureKey, outcome: Outcome)
        requires
            old(self).wf(),
            capture.0 < old(self).rows().len(),
        ensures
            final(self).wf(),
            final(self).interfaces() == old(self).interfaces(),
            final(self).joins() == old(self).joins(),
            only_counts_differ(old(self).rows(), final(self).rows(), capture.0 as int),
            old(self).rows()[capture.0 as int].counters.after_outcome(
                final(self).rows()[capture.0 as int].counters,
                outcome,
            ),
    {
        let i = capture.0 as usize;
        self.captures[i].counters.record(outcome);
    }

    /// Count a completed recovery on a capture's row.
    pub fn record_recovery(&mut self, capture: CaptureKey)
        requires
            old(self).wf(),
            capture.0 < old(self).rows().len(),
        ensures
            final(self).wf(),
            final(self).interfaces() == old(self).interfaces(),
            final(self).joins() == old(self).joins(),
            only_counts_differ(old(self).rows(), final(self).rows(), capture.0 as int),
            old(self).rows()[capture.0 as int].counters.after_recovery(
                final(self).rows()[capture.0 as int].counters,
            ),
    {
        let i = capture.0 as usize;
        self.captures[i].counters.record_recovery();
    }

    /// Count `n` oversized frames on a capture's row.
    pub fn record_oversized(&mut self, capture: CaptureKey, n: u64)
        requires
            old(self).wf(),
            capture.0 < old(self).rows().len(),
        ensures
            final(self).wf(),
            final(self).interfaces() == old(self).interfaces(),
            final(self).joins() == old(self).joins(),
            only_counts_differ(old(self).rows(), final(self).rows(), capture.0 as int),
            old(self).rows()[capture.0 as int].counters.after_oversized(
                final(self).rows()[capture.0 as int].counters,
                n,
            ),
    {
        let i = capture.0 as usize;
        self.captures[i].counters.record_oversized(n);
    }

    /// Count a frame of our own that came back, on a capture's row.
    pub fn record_echo(&mut self, capture: CaptureKey)
        requires
            old(self).wf(),
            capture.0 < old(self).rows().len(),
        ensures
            final(self).wf(),
            final(self).interfaces() == old(self).interfaces(),
            final(self).joins() == old(self).joins(),
            only_counts_differ(old(self).rows(), final(self).rows(), capture.0 as int),
            old(self).rows()[capture.0 as int].counters.after_echo(
                final(self).rows()[capture.0 as int].counters,
            ),
    {
        let i = capture.0 as usize;
        self.captures[i].counters.record_echo();
    }

    /// A capture's counts, if it is known.
    pub fn counters(&self, capture: CaptureKey) -> (r: Option<&CaptureCounters>)
        ensures
            match r {
                Some(counters) => {
                    &&& capture.0 < self.rows().len()
                    &&& *counters == self.rows()[capture.0 as int].counters
                },
                None => capture.0 >= self.rows().len(),
            },
    {
        let i = capture.0 as usize;
        if i < self.captures.len() {
            Some(&self.captures[i].counters)
        } else {
            None
        }
    }

    /// Each capture's interface name and counts, for a report.
    pub fn counter_rows(&self) -> (r: Vec<(&str, &CaptureCounters)>)
        ensures
            ({
                let reported = reported_rows(self.interfaces(), self.rows(), self.rows().len() as int);
                &&& r@.len() == reported.len()
                &&& forall|i: int|
                    0 <= i < r@.len() ==> (#[trigger] r@[i]).0@ == reported[i].0 && *r@[i].1
                        == reported[i].1
            }),
    {
        let mut rows: Vec<(&str, &CaptureCounters)> = Vec::new();
        let mut i: usize = 0;
        while i < self.captures.len()
            invariant
                i <= self.captures@.len(),
                rows@.len() == reported_rows(self.interfaces(), self.rows(), i as int).len(),
                forall|j: int|
                    0 <= j < rows@.len() ==> (#[trigger] rows@[j]).0@ == reported_rows(
                        self.interfaces(),
                        self.rows(),
                        i as int,
                    )[j].0 && *rows@[j].1 == reported_rows(
                        self.interfaces(),
                        self.rows(),
                        i as int,
                    )[j].1,
            decreases self.captures@.len() - i,
        {
            if let Some(name) = self.interface_name(self.captures[i].interface) {
                rows.push((name, &self.captures[i].counters));
            }
            i += 1;
        }
        rows
    }

    /// The key of the interface with kernel index `ifindex`, if one has it.
    pub fn interface_at(&self, ifindex: u32) -> (r: Option<InterfaceKey>)
        requires
            self.wf(),
        ensures
            match position_at(self.interfaces(), ifindex, 0) {
                Some(i) => r == Some(InterfaceKey(i as u32)) && 0 <= i < self.interfaces().len(),
                None => r is None,
            },
    {
        let mut i: usize = 0;
        while i < self.entries.len()
            invariant
                self.wf(),
                i <= self.entries@.len(),
                position_at(self.interfaces(), ifindex, 0) == position_at(
                    self.interfaces(),
                    ifindex,
                    i as int,
                ),
            decreases self.entries@.len() - i,
        {
            if self.entries[i].interface.ifindex == ifindex {
                return Some(InterfaceKey(i as u32));
            }
            i += 1;
        }
        None
    }

    /// Take in a resolution of the interface with kernel index `ifindex`. `Ok(None)` means that none
    /// has that index; `resolution` counts only where one has. A resolved interface's recorded groups
    /// are to be re-attempted, unless it is absent: its new addresses may admit what was deferred.
    pub fn refresh_by_ifindex(&mut self, ifindex: u32, resolution: Resolution) -> (r: Result<
        Option<Refreshed>,
        ResolveFailed,
    >)
        requires
            old(self).wf(),
        ensures
            final(self).wf(),
            final(self).rows() == old(self).rows(),
            final(self).joins() == old(self).joins(),
            match position_at(old(self).interfaces(), ifindex, 0) {
                None => {
                    &&& r == Ok::<Option<Refreshed>, ResolveFailed>(None)
                    &&& final(self).interfaces() == old(self).interfaces()
                },
                Some(i) => {
                    let was = old(self).interfaces()[i];
                    &&& final(self).interfaces() == old(self).interfaces().update(
                        i,
                        was.refreshed(resolution),
                    )
                    &&& r == match was.refresh_result(resolution) {
                        Ok(change) => Ok::<Option<Refreshed>, ResolveFailed>(
                            Some(
                                Refreshed {
                                    interface: InterfaceKey(i as u32),
                                    change,
                                    rejoin: ifindex != 0,
                                },
                            ),
                        ),
                        Err(e) => Err(e),
                    }
                },
            },
    {
        match self.interface_at(ifindex) {
            None => Ok(None),
            Some(interface) => {
                let i = interface.0 as usize;
                proof {
                    lemma_position_at(self.interfaces(), ifindex, 0);
                }
                let refreshed = self.entries[i].interface.refresh(resolution);
                proof {
                    assert(self.entries@ =~= old(self).entries@.update(
                        i as int,
                        old(self).entries@[i as int].refreshed(resolution),
                    ));
                    lemma_names_kept(old(self).interfaces(), self.interfaces());
                }
                match refreshed {
                    Ok(change) => Ok(Some(Refreshed { interface, change, rejoin: ifindex != 0 })),
                    Err(e) => Err(e),
                }
            },
        }
    }

    /// Take in a resolution of every interface, in order, reporting each one's kernel index and which
    /// addresses moved. A failed resolution is reported and changes nothing.
    pub fn refresh_all(&mut self, resolutions: &Vec<Resolution>) -> (r: Vec<
        (u32, Result<AddressChange, ResolveFailed>),
    >)
        requires
            old(self).wf(),
            resolutions@.len() == old(self).interfaces().len(),
        ensures
            final(self).wf(),
            final(self).rows() == old(self).rows(),
            final(self).joins() == old(self).joins(),
            final(self).interfaces() == refreshed_each(old(self).interfaces(), resolutions@),
            r@ == refresh_results(old(self).interfaces(), resolutions@),
    {
        let mut results: Vec<(u32, Result<AddressChange, ResolveFailed>)> = Vec::new();
        let mut i: usize = 0;
        while i < self.entries.len()
            invariant
                i <= self.entries@.len(),
                self.wf(),
                old(self).wf(),
                self.rows() == old(self).rows(),
                self.joins() == old(self).joins(),
                resolutions@.len() == self.entries@.len(),
                self.entries@.len() == old(self).interfaces().len(),
                results@ == refresh_results(old(self).interfaces(), resolutions@).take(i as int),
                forall|j: int|
                    0 <= j < i ==> #[trigger] self.entries@[j] == old(self).interfaces()[j].refreshed(
                        resolutions@[j],
                    ),
                forall|j: int|
                    i <= j < self.entries@.len() ==> #[trigger] self.entries@[j] == old(
                        self,
                    ).interfaces()[j],
            decreases self.entries@.len() - i,
        {
            let ifindex: u32 = self.entries[i].interface.ifindex;
            let ghost before = self.interfaces();
            let result = self.entries[i].interface.refresh(resolutions[i]);
            results.push((ifindex, result));
            proof {
                assert(before[i as int] == old(self).interfaces()[i as int]);
                assert(self.entries@[i as int] == old(self).interfaces()[i as int].refreshed(
                    resolutions@[i as int],
                ));
                lemma_names_kept(before, self.interfaces());
                assert(results@ =~= refresh_results(old(self).interfaces(), resolutions@).take(
                    i + 1,
                ));
            }
            i += 1;
        }
        proof {
            assert(self.entries@ =~= refreshed_each(old(self).interfaces(), resolutions@));
            assert(results@ =~= refresh_results(old(self).interfaces(), resolutions@));
        }
        results
    }

    /// The interfaces that exist at the moment, in order: those whose recorded groups can be
    /// re-attempted. An absent one has no index to join at.
    pub fn present_interfaces(&self) -> (r: Vec<InterfaceKey>)
        requires
            self.wf(),
        ensures
            r@ == present_among(self.interfaces(), self.interfaces().len() as int),
    {
        let mut keys: Vec<InterfaceKey> = Vec::new();
        let mut i: usize = 0;
        while i < self.entries.len()
            invariant
                self.wf(),
                i <= self.entries@.len(),
                keys@ == present_among(self.interfaces(), i as int),
            decreases self.entries@.len() - i,
        {
            if self.entries[i].interface.ifindex != 0 {
                keys.push(InterfaceKey(i as u32));
            }
            i += 1;
        }
        keys
    }

    fn dead_capture_on(&self, interface: InterfaceKey, cur: u32, bound: &Vec<Option<u32>>) -> (r: bool)
        requires
            bound@.len() == self.rows().len(),
        ensures
            r == has_dead_capture(self.rows(), bound@, interface, cur),
    {
        let mut i: usize = 0;
        while i < self.captures.len()
            invariant
                bound@.len() == self.captures@.len(),
                i <= self.captures@.len(),
                forall|j: int|
                    0 <= j < i && #[trigger] self.rows()[j].interface == interface
                        && self.rows()[j].capture is Some ==> bound@[j] == Some(cur),
            decreases self.captures@.len() - i,
        {
            if self.captures[i].interface == interface && self.captures[i].capture.is_some()
                && !attached(bound[i], cur) {
                assert(self.rows()[i as int].interface == interface);
                return true;
            }
            i += 1;
        }
        false
    }

    /// Every interface whose kernel identity no longer matches the table, in order. `lookups` is what
    /// each interface's name resolves to now, `bound` the index each capture is hooked to. Either the
    /// identity moved, or a capture's binding died behind an unchanged one. A lookup that could not
    /// run leaves its interface out.
    pub fn stale_interfaces(&self, lookups: &Vec<NameLookup>, bound: &Vec<Option<u32>>) -> (r: Vec<
        StaleInterface,
    >)
        requires
            self.wf(),
            lookups@.len() == self.interfaces().len(),
            bound@.len() == self.rows().len(),
        ensures
            r@ == stale_among(
                self.interfaces(),
                self.rows(),
                lookups@,
                bound@,
                self.interfaces().len() as int,
            ),
    {
        let mut stale: Vec<StaleInterface> = Vec::new();
        let mut i: usize = 0;
        while i < self.entries.len()
            invariant
                self.wf(),
                lookups@.len() == self.interfaces().len(),
                bound@.len() == self.rows().len(),
                i <= self.entries@.len(),
                stale@ == stale_among(self.interfaces(), self.rows(), lookups@, bound@, i as int),
            decreases self.entries@.len() - i,
        {
            let key = InterfaceKey(i as u32);
            let cached: u32 = self.entries[i].interface.ifindex;
            if let Some(cur) = lookups[i].index() {
                if cur != cached || (cur != 0 && self.dead_capture_on(key, cur, bound)) {
                    stale.push(StaleInterface { key, cached, cur });
                }
            }
            i += 1;
        }
        stale
    }

    /// Whether every capture on the interface with kernel index `ifindex` is still hooked to it, given
    /// the index each capture is hooked to. True where no interface has that index.
    pub fn probe_by_ifindex(&self, ifindex: u32, bound: &Vec<Option<u32>>) -> (r: bool)
        requires
            self.wf(),
            bound@.len() == self.rows().len(),
        ensures
            r == match position_at(self.interfaces(), ifindex, 0) {
                Some(i) => !has_dead_capture(self.rows(), bound@, InterfaceKey(i as u32), ifindex),
                None => true,
            },
    {
        match self.interface_at(ifindex) {
            Some(interface) => !self.dead_capture_on(interface, ifindex, bound),
            None => true,
        }
    }

    /// Whether any interface is parked absent.
    pub fn any_absent(&self) -> (r: bool)
        ensures
            r == some_absent(self.interfaces()),
    {
        let mut i: usize = 0;
        while i < self.entries.len()
            invariant
                i <= self.entries@.len(),
                forall|j: int| 0 <= j < i ==> (#[trigger] self.interfaces()[j]).interface.ifindex != 0,
            decreases self.entries@.len() - i,
        {
            if self.entries[i].interface.ifindex == 0 {
                assert(self.interfaces()[i as int].interface.ifindex == 0);
                return true;
            }
            i += 1;
        }
        false
    }

    /// Re-point an interface at kernel index `cur`, 0 to park it absent, with what resolving it there
    /// gave. Its old membership sockets are to be dropped in any case. Its recorded groups are
    /// re-joined wherever it exists, also if its addresses could not be resolved; then it keeps its
    /// old identity, so that the next scan finds it again.
    pub fn rebind_interface(&mut self, key: InterfaceKey, cur: u32, resolution: Resolution) -> (r:
        Rebound)
        requires
            old(self).wf(),
            key.0 < old(self).interfaces().len(),
        ensures
            final(self).wf(),
            final(self).rows() == old(self).rows(),
            final(self).joins() == old(self).joins(),
            final(self).interfaces() == old(self).interfaces().update(
                key.0 as int,
                old(self).interfaces()[key.0 as int].rebound(cur, resolution),
            ),
            r.rejoin_at == if cur != 0 {
                Some(cur)
            } else {
                None
            },
            r.resolved == (resolution is Found),
    {
        let i = key.0 as usize;
        let previous: u32 = self.entries[i].interface.ifindex;
        self.entries[i].interface.ifindex = cur;
        let resolved = self.entries[i].interface.refresh(resolution).is_ok();
        if !resolved {
            self.entries[i].interface.ifindex = previous;
        }
        proof {
            assert(self.entries@ =~= old(self).entries@.update(
                i as int,
                old(self).entries@[i as int].rebound(cur, resolution),
            ));
            lemma_names_kept(old(self).interfaces(), self.interfaces());
        }
        Rebound {
            rejoin_at: if cur != 0 {
                Some(cur)
            } else {
                None
            },
            resolved,
        }
    }

    /// The keys of the captures on an interface, in order.
    pub fn captures_of(&self, interface: InterfaceKey) -> (r: Vec<CaptureKey>)
        requires
            self.wf(),
        ensures
            r@ == captures_on(self.rows(), interface, self.rows().len() as int),
    {
        let mut keys: Vec<CaptureKey> = Vec::new();
        let mut i: usize = 0;
        while i < self.captures.len()
            invariant
                self.wf(),
                i <= self.captures@.len(),
                keys@ == captures_on(self.rows(), interface, i as int),
            decreases self.captures@.len() - i,
        {
            if self.captures[i].interface == interface {
                keys.push(CaptureKey(i as u32));
            }
            i += 1;
        }
        keys
    }

    /// The keys of the captures on the interface with kernel index `ifindex`, in order; none where no
    /// interface has it.
    pub fn captures_at_ifindex(&self, ifindex: u32) -> (r: Vec<CaptureKey>)
        requires
            self.wf(),
        ensures
            r@ == captures_at(self.interfaces(), self.rows(), ifindex),
    {
        match self.interface_at(ifindex) {
            Some(interface) => self.captures_of(interface),
            None => Vec::new(),
        }
    }

    /// How the re-binding of a capture went, given whether the bind succeeded. A slot without a
    /// capture, or no slot at all, is neither a success nor a failure.
    pub fn rebind_capture(&self, key: CaptureKey, bound: bool) -> (r: CaptureRebind)
        ensures
            r == if self.capture_spec(key) is None {
                CaptureRebind::Missing
            } else if bound {
                CaptureRebind::Rebound
            } else {
                CaptureRebind::Failed
            },
    {
        match self.capture(key) {
            None => CaptureRebind::Missing,
            Some(_) => {
                if bound {
                    CaptureRebind::Rebound
                } else {
                    CaptureRebind::Failed
                }
            },
        }
    }

    /// Each present capture's descriptor and tag.
    pub fn capture_watches(&self) -> (r: Vec<(i32, u64)>)
        requires
            self.wf(),
        ensures
            r@ == watched(self.rows(), self.rows().len() as int),
    {
        let mut watches: Vec<(i32, u64)> = Vec::new();
        let mut i: usize = 0;
        while i < self.captures.len()
            invariant
                self.wf(),
                i <= self.captures@.len(),
                watches@ == watched(self.rows(), i as int),
            decreases self.captures@.len() - i,
        {
            if let Some(capture) = &self.captures[i].capture {
                watches.push((capture.fd, CaptureKey(i as u32).to_u64()));
            }
            i += 1;
        }
        watches
    }
}

proof fn lemma_names_kept(before: Seq<InterfaceEntry>, after: Seq<InterfaceEntry>)
    requires
        distinct_names(before),
        before.len() == after.len(),
        forall|i: int|
            0 <= i < before.len() ==> (#[trigger] after[i]).interface.name@
                == before[i].interface.name@,
    ensures
        distinct_names(after),
{
}

pub(crate) proof fn lemma_position_at(entries: Seq<InterfaceEntry>, ifindex: u32, from: int)
    requires
        0 <= from,
    ensures
        match position_at(entries, ifindex, from) {
            Some(i) => from <= i < entries.len() && entries[i].interface.ifindex == ifindex,
            None => forall|i: int|
                from <= i < entries.len() ==> (#[trigger] entries[i]).interface.ifindex != ifindex,
        },
    decreases entries.len() - from,
{
    if from < entries.len() {
        lemma_position_at(entries, ifindex, from + 1);
    }
}

proof fn lemma_no_position_named(entries: Seq<InterfaceEntry>, name: Seq<char>, from: int)
    requires
        0 <= from,
        position_named(entries, name, from) is None,
    ensures
        forall|i: int|
            from <= i < entries.len() ==> (#[trigger] entries[i]).interface.name@ != name,
    decreases entries.len() - from,
{
    if from < entries.len() {
        lemma_no_position_named(entries, name, from + 1);
    }
}

pub(crate) proof fn lemma_captures_on<S>(
    rows: Seq<CaptureEntry<S>>,
    interface: InterfaceKey,
    n: int,
    key: CaptureKey,
)
    requires
        0 <= n <= rows.len() <= u32::MAX + 1,
    ensures
        captures_on(rows, interface, n).contains(key) <==> key.0 < n && rows[key.0 as int].interface
            == interface,
    decreases n,
{
    if n > 0 {
        let before = captures_on(rows, interface, n - 1);
        let last = CaptureKey((n - 1) as u32);
        lemma_captures_on(rows, interface, n - 1, key);
        assert(before.push(last).contains(key) <==> before.contains(key) || key == last) by {
            assert(before.push(last)[before.len() as int] == last);
            if before.contains(key) {
                let i = before.index_of(key);
                assert(before.push(last)[i] == key);
            }
            if before.push(last).contains(key) {
                let i = before.push(last).index_of(key);
                if i < before.len() {
                    assert(before[i] == key);
                }
            }
        }
    }
}

/// A group asked for stays recorded, once, however often it is asked for; where groups are not joined
/// none is recorded.
pub proof fn law_a_group_is_recorded_once(joiner: Joiner, group: IpAddr, again: Joiner)
    requires
        again.active == joiner.active,
        again.groups@ == joiner.recorded(group),
    ensures
        joiner.active ==> again.groups@.contains(group),
        again.recorded(group) == again.groups@,
        !joiner.active ==> again.groups@ == joiner.groups@,
{
    if joiner.active && !joiner.groups@.contains(group) {
        assert(again.groups@[joiner.groups@.len() as int] == group);
    }
}

/// Listing an interface's captures is the reverse of looking up a capture's interface: a key is in
/// the list exactly if it is known and runs on that interface.
pub proof fn law_captures_of_inverts_interface_of<S>(
    table: InterfaceTable<S>,
    interface: InterfaceKey,
    key: CaptureKey,
)
    requires
        table.wf(),
    ensures
        captures_on(table.rows(), interface, table.rows().len() as int).contains(key) <==>
            table.interface_of_spec(key) == Some(interface),
{
    lemma_captures_on(table.rows(), interface, table.rows().len() as int, key);
}

/// The watched descriptors are exactly the present captures', each under its own key's tag, which is
/// never the interface monitor's.
pub proof fn law_each_present_capture_is_watched_under_its_key<S>(
    rows: Seq<CaptureEntry<S>>,
    n: int,
    fd: i32,
    tag: u64,
)
    requires
        0 <= n <= rows.len() <= u32::MAX + 1,
    ensures
        watched(rows, n).contains((fd, tag)) <==> tag < n && (rows[tag as int].capture matches Some(
            capture,
        ) && capture.fd == fd),
        watched(rows, n).contains((fd, tag)) ==> tag != MONITOR_TAG,
    decreases n,
{
    if n > 0 {
        law_each_present_capture_is_watched_under_its_key(rows, n - 1, fd, tag);
        let before = watched(rows, n - 1);
        if let Some(capture) = rows[n - 1].capture {
            let last = (capture.fd, (n - 1) as u64);
            let all = before.push(last);
            assert(all.contains((fd, tag)) <==> before.contains((fd, tag)) || (fd, tag) == last) by {
                assert(all[before.len() as int] == last);
                if before.contains((fd, tag)) {
                    let i = before.index_of((fd, tag));
                    assert(all[i] == (fd, tag));
                }
                if all.contains((fd, tag)) {
                    let i = all.index_of((fd, tag));
                    if i < before.len() {
                        assert(before[i] == (fd, tag));
                    }
                }
            }
        }
    }
}

/// The scan lists exactly the stale interfaces: number `i` is in it, with the identities the table
/// and the lookup give, if and only if it is stale.
pub proof fn law_the_scan_lists_exactly_the_stale<S>(
    entries: Seq<InterfaceEntry>,
    rows: Seq<CaptureEntry<S>>,
    lookups: Seq<NameLookup>,
    bound: Seq<Option<u32>>,
    n: int,
    stale: StaleInterface,
)
    requires
        0 <= n <= entries.len() <= u32::MAX + 1,
    ensures
        stale_among(entries, rows, lookups, bound, n).contains(stale) <==> {
            &&& stale.key.0 < n
            &&& is_stale(entries, rows, lookups, bound, stale.key.0 as int)
            &&& stale.cached == entries[stale.key.0 as int].interface.ifindex
            &&& lookups[stale.key.0 as int].index_spec() == Some(stale.cur)
        },
    decreases n,
{
    if n > 0 {
        let before = stale_among(entries, rows, lookups, bound, n - 1);
        let all = stale_among(entries, rows, lookups, bound, n);
        law_the_scan_lists_exactly_the_stale(entries, rows, lookups, bound, n - 1, stale);
        if is_stale(entries, rows, lookups, bound, n - 1) {
            let last = all.last();
            assert(all == before.push(last));
            assert(all.contains(stale) <==> before.contains(stale) || stale == last) by {
                assert(all[before.len() as int] == last);
                if before.contains(stale) {
                    let i = before.index_of(stale);
                    assert(all[i] == stale);
                }
                if all.contains(stale) {
                    let i = all.index_of(stale);
                    if i < before.len() {
                        assert(before[i] == stale);
                    }
                }
            }
        }
    }
}

/// An interface parked absent is quiescent while its name resolves to nothing, or cannot be looked
/// up: there is nothing to repair until it returns, whatever its captures are hooked to.
pub proof fn law_a_parked_interface_is_quiescent<S>(
    entries: Seq<InterfaceEntry>,
    rows: Seq<CaptureEntry<S>>,
    lookups: Seq<NameLookup>,
    bound: Seq<Option<u32>>,
    i: int,
)
    requires
        entries[i].interface.ifindex == 0,
        lookups[i] is Absent || lookups[i] is Unavailable,
    ensures
        !is_stale(entries, rows, lookups, bound, i),
{
}

/// A lookup that could not run says nothing: it never makes an interface stale.
pub proof fn law_a_failed_lookup_parks_nothing<S>(
    entries: Seq<InterfaceEntry>,
    rows: Seq<CaptureEntry<S>>,
    lookups: Seq<NameLookup>,
    bound: Seq<Option<u32>>,
    i: int,
)
    requires
        lookups[i] is Unavailable,
    ensures
        !is_stale(entries, rows, lookups, bound, i),
{
}

/// A completed rebuild clears staleness: once interface `i` was re-pointed at the index its name
/// resolves to and, unless it was parked, all its captures are hooked to that index, the next scan
/// with the same lookup passes it over.
pub proof fn law_a_completed_rebuild_is_not_stale<S>(
    entries: Seq<InterfaceEntry>,
    rows: Seq<CaptureEntry<S>>,
    lookups: Seq<NameLookup>,
    bound: Seq<Option<u32>>,
    i: int,
    cur: u32,
    resolution: Resolution,
)
    requires
        0 <= i < entries.len(),
        lookups[i].index_spec() == Some(cur),
        resolution is Found,
        cur != 0 ==> forall|j: int|
            0 <= j < rows.len() && #[trigger] rows[j].interface == InterfaceKey(i as u32)
                && rows[j].capture is Some ==> bound[j] == Some(cur),
    ensures
        !is_stale(entries.update(i, entries[i].rebound(cur, resolution)), rows, lookups, bound, i),
{
}

/// A rebuild whose addresses could not be resolved leaves a moved identity stale, whatever became of
/// the captures, so the next scan with the same lookup runs the whole rebuild again.
pub proof fn law_a_failed_resolution_stays_stale<S>(
    entries: Seq<InterfaceEntry>,
    rows: Seq<CaptureEntry<S>>,
    lookups: Seq<NameLookup>,
    bound: Seq<Option<u32>>,
    i: int,
    cur: u32,
)
    requires
        0 <= i < entries.len(),
        lookups[i].index_spec() == Some(cur),
        entries[i].interface.ifindex != cur,
    ensures
        is_stale(
            entries.update(i, entries[i].rebound(cur, Resolution::Failed)),
            rows,
            lookups,
            bound,
            i,
        ),
{
}

/// A capture that could not be re-bound keeps its interface stale, so the next scan with the same
/// lookup tries again.
pub proof fn law_an_unhooked_capture_stays_stale<S>(
    entries: Seq<InterfaceEntry>,
    rows: Seq<CaptureEntry<S>>,
    lookups: Seq<NameLookup>,
    bound: Seq<Option<u32>>,
    i: int,
    j: int,
    cur: u32,
)
    requires
        lookups[i].index_spec() == Some(cur),
        cur != 0,
        0 <= j < rows.len(),
        rows[j].interface == InterfaceKey(i as u32),
        rows[j].capture is Some,
        bound[j] != Some(cur),
    ensures
        is_stale(entries, rows, lookups, bound, i),
{
}

/// Taking a capture out and putting it back changes nothing. While it is out the key addresses no
/// capture, but its interface and addresses still resolve.
pub proof fn law_a_capture_taken_out_comes_back<S>(
    before: InterfaceTable<S>,
    during: InterfaceTable<S>,
    after: InterfaceTable<S>,
    key: CaptureKey,
    capture: Capture<S>,
)
    requires
        before.capture_spec(key) == Some(capture),
        during.interfaces() == before.interfaces(),
        during.rows() == before.rows().update(
            key.0 as int,
            CaptureEntry { capture: None, ..before.rows()[key.0 as int] },
        ),
        after.interfaces() == during.interfaces(),
        after.rows() == during.rows().update(
            key.0 as int,
            CaptureEntry { capture: Some(capture), ..during.rows()[key.0 as int] },
        ),
    ensures
        during.capture_spec(key) is None,
        during.interface_of_spec(key) == before.interface_of_spec(key),
        during.addrs_behind(key) == before.addrs_behind(key),
        after.interfaces() == before.interfaces(),
        after.rows() == before.rows(),
{
    assert(after.rows() =~= before.rows());
}

/// A repaired interface re-joins its groups exactly where its name resolves to an interface now, and at that
/// interface's index, whatever identity the table held before.
pub proof fn law_groups_are_rejoined_wherever_the_interface_exists(stale: StaleInterface, cached: u32)
    ensures
        stale.cur == 0 ==> stale.rejoin_at_spec() is None,
        stale.cur != 0 ==> stale.rejoin_at_spec() is Some && stale.rejoin_at_spec()->0 == stale.cur,
        (StaleInterface { cached, ..stale }).rejoin_at_spec() == stale.rejoin_at_spec(),
{
}

/// Asking for a group records it where groups are joined, and takes none that was recorded away: those stay,
/// in their order, and at most the new one follows them.
pub proof fn law_recording_a_group_keeps_the_others(joiner: Joiner, group: IpAddr, other: IpAddr)
    requires
        other != group,
    ensures
        joiner.recorded(group).contains(other) <==> joiner.groups@.contains(other),
        joiner.groups@.len() <= joiner.recorded(group).len() <= joiner.groups@.len() + 1,
        joiner.recorded(group).take(joiner.groups@.len() as int) == joiner.groups@,
        joiner.active ==> joiner.recorded(group).contains(group),
        joiner.groups@.contains(group) || !joiner.active ==> joiner.recorded(group).len()
            == joiner.groups@.len(),
{
    let after = joiner.recorded(group);
    assert(after.take(joiner.groups@.len() as int) =~= joiner.groups@);
    if joiner.active && !joiner.groups@.contains(group) {
        assert(after[joiner.groups@.len() as int] == group);
        if after.contains(other) {
            let i = after.index_of(other);
            assert(joiner.groups@[i] == other);
        }
        if joiner.groups@.contains(other) {
            let i = joiner.groups@.index_of(other);
            assert(after[i] == other);
        }
    }
}

/// Re-pointing an interface with what resolving it found gives it the new index and the addresses and MTU
/// found, under its own name and with its groups still recorded. A resolution that failed leaves it wholly as
/// it was.
pub proof fn law_a_rebuilt_interface_is_what_was_found(
    entry: InterfaceEntry,
    cur: u32,
    found: Resolved,
)
    ensures
        ({
            let after = entry.rebound(cur, Resolution::Found(found));
            &&& after.interface.ifindex == cur
            &&& after.interface.addrs == found.addrs
            &&& after.interface.mtu == found.mtu
            &&& after.interface.name == entry.interface.name
            &&& after.joiner == entry.joiner
        }),
        entry.rebound(cur, Resolution::Failed) == entry,
{
}

/// A refresh gives an interface the addresses and MTU found, and leaves its name, its index and its groups; one
/// that failed leaves everything, and says so.
pub proof fn law_a_refreshed_entry_is_what_was_found(entry: InterfaceEntry, found: Resolved)
    ensures
        ({
            let after = entry.refreshed(Resolution::Found(found));
            &&& after.interface.addrs == found.addrs
            &&& after.interface.mtu == found.mtu
            &&& after.interface.ifindex == entry.interface.ifindex
            &&& after.interface.name == entry.interface.name
            &&& after.joiner == entry.joiner
        }),
        entry.refreshed(Resolution::Failed) == entry,
        entry.refresh_result(Resolution::Failed) is Err,
        entry.refresh_result(Resolution::Found(found)) matches Ok(change) && {
            &&& change.v4 <==> entry.interface.addrs.v4 != found.addrs.v4
            &&& change.v6 <==> entry.interface.addrs.v6_link_local != found.addrs.v6_link_local
                || entry.interface.addrs.v6_routable != found.addrs.v6_routable
        },
{
}

/// An interface just opened is known by its name, the index and addresses opening it found, and has no group
/// recorded; a capture just added is there, on its interface, with nothing counted and nothing sent for any
/// packet.
pub proof fn law_what_is_just_added_is_blank<S>(
    entry: InterfaceEntry,
    name: Seq<char>,
    opened: Opened,
    joins: bool,
    row: CaptureEntry<S>,
    capture: Capture<S>,
    interface: InterfaceKey,
)
    ensures
        entry.is_opened(name, opened, joins) ==> {
            &&& entry.interface.name@ == name
            &&& entry.interface.ifindex == opened.ifindex
            &&& entry.interface.addrs == opened.resolved.addrs
            &&& entry.interface.mtu == opened.resolved.mtu
            &&& entry.joiner.active == joins
            &&& entry.joiner.groups@.len() == 0
        },
        row.is_fresh(capture, interface) ==> {
            &&& row.capture == Some(capture)
            &&& row.interface == interface
            &&& row.counters.filtered_spec() == 0
            &&& row.counters.recoveries_spec() == 0
            &&& row.counters.oversized_spec() == 0
            &&& row.counters.echoed_spec() == 0
            &&& row.last_sent.packet == 0
        },
{
}

/// A lookup tells an index only if it ran: that of the interface found, which is 0 where there is none.
pub proof fn law_a_lookup_tells_what_it_found(index: u32)
    ensures
        NameLookup::Unavailable.index_spec() is None,
        NameLookup::Absent.index_spec() == Some(0u32),
        NameLookup::Present(index).index_spec() == Some(index),
{
}

/// The interface found by name is the one that bears the name, and the interface found by index the first that
/// has it; nothing is found only where there is none.
pub proof fn law_what_is_looked_up_is_the_first(
    entries: Seq<InterfaceEntry>,
    name: Seq<char>,
    ifindex: u32,
    from: int,
)
    requires
        0 <= from,
    ensures
        match position_named(entries, name, from) {
            Some(i) => {
                &&& from <= i < entries.len()
                &&& entries[i].interface.name@ == name
                &&& forall|j: int| from <= j < i ==> (#[trigger] entries[j]).interface.name@ != name
            },
            None => forall|j: int|
                from <= j < entries.len() ==> (#[trigger] entries[j]).interface.name@ != name,
        },
        match position_at(entries, ifindex, from) {
            Some(i) => {
                &&& from <= i < entries.len()
                &&& entries[i].interface.ifindex == ifindex
                &&& forall|j: int| from <= j < i ==> (#[trigger] entries[j]).interface.ifindex
                    != ifindex
            },
            None => forall|j: int|
                from <= j < entries.len() ==> (#[trigger] entries[j]).interface.ifindex != ifindex,
        },
    decreases entries.len() - from,
{
    if from < entries.len() {
        law_what_is_looked_up_is_the_first(entries, name, ifindex, from + 1);
    }
}

/// A table never holds two interfaces of one name.
pub proof fn law_a_name_is_one_interface<S>(table: InterfaceTable<S>, i: int, j: int)
    requires
        table.wf(),
        0 <= i < table.interfaces().len(),
        0 <= j < table.interfaces().len(),
        table.interfaces()[i].interface.name@ == table.interfaces()[j].interface.name@,
    ensures
        i == j,
{
    if i < j {
        assert(table.interfaces()[i].interface.name@ != table.interfaces()[j].interface.name@);
    } else if j < i {
        assert(table.interfaces()[j].interface.name@ != table.interfaces()[i].interface.name@);
    }
}

/// The captures listed for an interface are those whose row names it, present or taken out.
pub proof fn law_an_interfaces_captures_are_those_on_it<S>(
    rows: Seq<CaptureEntry<S>>,
    interface: InterfaceKey,
    key: CaptureKey,
)
    requires
        rows.len() <= u32::MAX + 1,
    ensures
        captures_on(rows, interface, rows.len() as int).contains(key) <==> key.0 < rows.len()
            && rows[key.0 as int].interface == interface,
{
    lemma_captures_on(rows, interface, rows.len() as int, key);
}

/// The captures listed for a kernel index are those on the first interface that has it.
pub proof fn law_an_indexs_captures_are_those_on_its_interface<S>(
    entries: Seq<InterfaceEntry>,
    rows: Seq<CaptureEntry<S>>,
    ifindex: u32,
    at: int,
    key: CaptureKey,
)
    requires
        rows.len() <= u32::MAX + 1,
        entries.len() <= u32::MAX + 1,
        0 <= at < entries.len(),
        entries[at].interface.ifindex == ifindex,
        forall|j: int| 0 <= j < at ==> (#[trigger] entries[j]).interface.ifindex != ifindex,
    ensures
        captures_at(entries, rows, ifindex).contains(key) <==> key.0 < rows.len()
            && rows[key.0 as int].interface.0 == at,
{
    law_what_is_looked_up_is_the_first(entries, Seq::empty(), ifindex, 0);
    let found = position_at(entries, ifindex, 0);
    assert(found is Some) by {
        if found is None {
            assert(entries[at].interface.ifindex != ifindex);
        }
    }
    if found->0 < at {
        assert(entries[found->0].interface.ifindex != ifindex);
    } else if at < found->0 {
        assert(entries[at].interface.ifindex != ifindex);
    }
    lemma_captures_on(rows, InterfaceKey(at as u32), rows.len() as int, key);
}

/// A kernel index that no interface has lists no capture.
pub proof fn law_an_unknown_index_has_no_capture<S>(
    entries: Seq<InterfaceEntry>,
    rows: Seq<CaptureEntry<S>>,
    ifindex: u32,
)
    requires
        forall|j: int| 0 <= j < entries.len() ==> (#[trigger] entries[j]).interface.ifindex != ifindex,
    ensures
        captures_at(entries, rows, ifindex).len() == 0,
{
    law_what_is_looked_up_is_the_first(entries, Seq::empty(), ifindex, 0);
}

/// What makes an interface stale. A name that resolves to an interface does if the table holds another index,
/// or if a capture that is present on it is hooked to anything but that index. A name that resolves to none
/// does unless it is parked already. A lookup that did not run never does.
pub proof fn law_what_makes_an_interface_stale<S>(
    entries: Seq<InterfaceEntry>,
    rows: Seq<CaptureEntry<S>>,
    lookups: Seq<NameLookup>,
    bound: Seq<Option<u32>>,
    i: int,
)
    requires
        0 <= i < entries.len() <= u32::MAX + 1,
    ensures
        lookups[i] is Unavailable ==> !is_stale(entries, rows, lookups, bound, i),
        lookups[i] is Absent ==> (is_stale(entries, rows, lookups, bound, i)
            <==> entries[i].interface.ifindex != 0),
        lookups[i] matches NameLookup::Present(cur) ==> cur != 0 ==> (is_stale(
            entries,
            rows,
            lookups,
            bound,
            i,
        ) <==> entries[i].interface.ifindex != cur || exists|j: int|
            0 <= j < rows.len() && (#[trigger] rows[j]).interface.0 == i && rows[j].capture is Some
                && bound[j] != Some(cur)),
{
    if let NameLookup::Present(cur) = lookups[i] {
        let interface = InterfaceKey(i as u32);
        if has_dead_capture(rows, bound, interface, cur) {
            let j = choose|j: int|
                0 <= j < rows.len() && #[trigger] rows[j].interface == interface && rows[j].capture
                    is Some && bound[j] != Some(cur);
            assert(rows[j].interface.0 == i);
        }
        if exists|j: int|
            0 <= j < rows.len() && (#[trigger] rows[j]).interface.0 == i && rows[j].capture is Some
                && bound[j] != Some(cur) {
            let j = choose|j: int|
                0 <= j < rows.len() && (#[trigger] rows[j]).interface.0 == i && rows[j].capture is Some
                    && bound[j] != Some(cur);
            assert(rows[j].interface == interface);
        }
    }
}

/// A report has one line for each capture, in order, with its interface's name and its own counts.
pub proof fn law_a_report_has_a_line_per_capture<S>(
    entries: Seq<InterfaceEntry>,
    rows: Seq<CaptureEntry<S>>,
    n: int,
)
    requires
        0 <= n <= rows.len(),
        forall|i: int|
            0 <= i < rows.len() ==> (#[trigger] rows[i]).interface.0 < entries.len(),
    ensures
        reported_rows(entries, rows, n).len() == n,
        forall|i: int|
            0 <= i < n ==> {
                &&& (#[trigger] reported_rows(entries, rows, n)[i]).0
                    == entries[rows[i].interface.0 as int].interface.name@
                &&& reported_rows(entries, rows, n)[i].1 == rows[i].counters
            },
    decreases n,
{
    if n > 0 {
        law_a_report_has_a_line_per_capture(entries, rows, n - 1);
        assert(rows[n - 1].interface.0 < entries.len());
    }
}

/// The watched descriptors come in the order of their captures.
pub proof fn law_watches_come_in_order<S>(rows: Seq<CaptureEntry<S>>, n: int)
    requires
        0 <= n <= rows.len() <= u32::MAX + 1,
    ensures
        forall|i: int, j: int|
            0 <= i < j < watched(rows, n).len() ==> (#[trigger] watched(rows, n)[i]).1 < (
            #[trigger] watched(rows, n)[j]).1,
        forall|i: int| 0 <= i < watched(rows, n).len() ==> (#[trigger] watched(rows, n)[i]).1 < n,
    decreases n,
{
    if n > 0 {
        law_watches_come_in_order(rows, n - 1);
        let (before, all) = (watched(rows, n - 1), watched(rows, n));
        assert forall|i: int| 0 <= i < all.len() implies (#[trigger] all[i]).1 < n by {
            if i < before.len() {
                assert(all[i] == before[i]);
            }
        }
        assert forall|i: int, j: int| 0 <= i < j < all.len() implies (#[trigger] all[i]).1 < (
        #[trigger] all[j]).1 by {
            assert(all[i] == before[i]);
            if j < before.len() {
                assert(all[j] == before[j]);
            }
        }
    }
}

/// The interfaces whose groups can be re-attempted are those that exist, in order.
pub proof fn law_present_interfaces_are_those_that_exist(
    entries: Seq<InterfaceEntry>,
    n: int,
    key: InterfaceKey,
)
    requires
        0 <= n <= entries.len() <= u32::MAX + 1,
    ensures
        present_among(entries, n).contains(key) <==> key.0 < n
            && entries[key.0 as int].interface.ifindex != 0,
        forall|i: int, j: int|
            0 <= i < j < present_among(entries, n).len() ==> (#[trigger] present_among(
                entries,
                n,
            )[i]).0 < (#[trigger] present_among(entries, n)[j]).0,
        forall|i: int|
            0 <= i < present_among(entries, n).len() ==> (#[trigger] present_among(entries, n)[i]).0
                < n,
    decreases n,
{
    if n > 0 {
        law_present_interfaces_are_those_that_exist(entries, n - 1, key);
        let before = present_among(entries, n - 1);
        let last = InterfaceKey((n - 1) as u32);
        assert(before.push(last).contains(key) <==> before.contains(key) || key == last) by {
            assert(before.push(last)[before.len() as int] == last);
            if before.contains(key) {
                let i = before.index_of(key);
                assert(before.push(last)[i] == key);
            }
            if before.push(last).contains(key) {
                let i = before.push(last).index_of(key);
                if i < before.len() {
                    assert(before[i] == key);
                }
            }
        }
    }
}

/// Refreshing every interface gives each the addresses and MTU found for it, leaves each whose resolution
/// failed, and reports of each its index and what moved.
pub proof fn law_refreshing_all_refreshes_each(
    entries: Seq<InterfaceEntry>,
    resolutions: Seq<Resolution>,
    i: int,
)
    requires
        0 <= i < entries.len(),
        resolutions.len() == entries.len(),
    ensures
        refreshed_each(entries, resolutions).len() == entries.len(),
        refresh_results(entries, resolutions).len() == entries.len(),
        ({
            let (before, after) = (entries[i], refreshed_each(entries, resolutions)[i]);
            let (index, result) = refresh_results(entries, resolutions)[i];
            &&& after.interface.name == before.interface.name
            &&& after.interface.ifindex == before.interface.ifindex
            &&& after.joiner == before.joiner
            &&& index == before.interface.ifindex
            &&& match resolutions[i] {
                Resolution::Found(found) => {
                    &&& after.interface.addrs == found.addrs
                    &&& after.interface.mtu == found.mtu
                    &&& result matches Ok(change)
                    &&& change.v4 <==> before.interface.addrs.v4 != found.addrs.v4
                    &&& change.v6 <==> before.interface.addrs.v6_link_local
                        != found.addrs.v6_link_local || before.interface.addrs.v6_routable
                        != found.addrs.v6_routable
                },
                Resolution::Failed => after == before && result is Err,
            }
        }),
{
}

/// An interface is absent exactly if its index is 0.
pub proof fn law_an_absent_interface_has_no_index(entries: Seq<InterfaceEntry>)
    ensures
        some_absent(entries) <==> !forall|i: int|
            0 <= i < entries.len() ==> (#[trigger] entries[i]).interface.ifindex != 0,
{
}

/// Counting on one capture leaves every other row alone, and of its own row the capture, the interface and the
/// last frame sent.
pub proof fn law_counting_touches_one_row<S>(
    before: Seq<CaptureEntry<S>>,
    after: Seq<CaptureEntry<S>>,
    i: int,
    j: int,
)
    requires
        0 <= i < before.len(),
        0 <= j < before.len(),
        only_counts_differ(before, after, i),
    ensures
        after.len() == before.len(),
        j != i ==> after[j] == before[j],
        after[i].capture == before[i].capture,
        after[i].interface == before[i].interface,
        after[i].last_sent == before[i].last_sent,
{
}

/// What a capture's key leads to: its row, the interface that row names, and that interface's addresses. A
/// capture taken out still leads to them, but not to a capture; a key out of range leads to nothing.
pub proof fn law_a_capture_key_leads_to_its_row<S>(table: InterfaceTable<S>, key: CaptureKey)
    ensures
        key.0 >= table.rows().len() ==> {
            &&& table.interface_of_spec(key) is None
            &&& table.entry_behind(key) is None
            &&& table.addrs_behind(key) is None
            &&& table.capture_spec(key) is None
        },
        key.0 < table.rows().len() ==> {
            let row = table.rows()[key.0 as int];
            &&& table.interface_of_spec(key) == Some(row.interface)
            &&& table.capture_spec(key) == row.capture
            &&& row.interface.0 < table.interfaces().len() ==> {
                &&& table.entry_behind(key) == Some(table.interfaces()[row.interface.0 as int])
                &&& table.addrs_behind(key) == Some(
                    table.interfaces()[row.interface.0 as int].interface.addrs,
                )
            }
            &&& row.interface.0 >= table.interfaces().len() ==> {
                &&& table.entry_behind(key) is None
                &&& table.addrs_behind(key) is None
            }
        },
{
}

}
