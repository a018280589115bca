//! What the reflectors share: what a reflector requires before it runs, and the gates it applies to each
//! packet.

use vstd::prelude::*;
use vstd::string::StringExecFns;

use crate::counters::MessageType;
use crate::dispatch::filter::MacSet;
use crate::dispatch::keys::CaptureKey;
use crate::dispatch::{DispatchState, PacketDispatcher};
use crate::interface::InterfaceAddresses;
use crate::net::{IpAddr, LinkType, SocketAddr};
use crate::text::{is_made_of, lemma_made_of};

verus! {

/// A reflector's verdict on a payload.
#[derive(Clone, Copy, PartialEq, Eq, Structural, Debug)]
pub enum Verdict {
    /// A message for this direction: re-emit it.
    Reflect(MessageType),
    /// A message for the other direction, dropped silently. Dropping it breaks loops: a query re-emitted
    /// on the egress is still a query, which the reflector of responses there skips.
    Skip(MessageType),
    /// A message that is recognized, but configured not to be relayed.
    Excluded,
    /// No message of the protocol.
    Junk,
}

/// Transforms a payload before it is re-emitted. `None` forwards it as it is.
pub trait ReplyRewrite<S, H, R> {
    /// The payload to send on `egress` in place of `payload`, held by the implementor.
    fn rewrite<'a>(
        &'a mut self,
        payload: &[u8],
        egress: CaptureKey,
        dispatcher: &mut PacketDispatcher<S, H>,
        reactor: &mut R,
    ) -> (r: Option<&'a [u8]>)
        requires
            old(dispatcher).wf(),
        ensures
            final(dispatcher).wf(),
            old(dispatcher)@.left_by_a_call(final(dispatcher)@),
    ;
}

/// Forwards every payload as it is.
#[derive(Clone, Copy, PartialEq, Eq, Structural, Debug)]
pub struct NoRewrite;

impl<S, H, R> ReplyRewrite<S, H, R> for NoRewrite {
    fn rewrite<'a>(
        &'a mut self,
        payload: &[u8],
        egress: CaptureKey,
        dispatcher: &mut PacketDispatcher<S, H>,
        reactor: &mut R,
    ) -> (r: Option<&'a [u8]>)
        ensures
            r is None,
            final(dispatcher)@ == old(dispatcher)@,
            *final(reactor) == *old(reactor),
    {
        None
    }
}

/// One version of IP.
#[derive(Clone, Copy, PartialEq, Eq, Structural, Debug)]
pub enum IpFamily {
    V4,
    V6,
}

impl IpFamily {
    /// The version as an operator reads it.
    pub open spec fn text(self) -> Seq<char> {
        match self {
            IpFamily::V4 => "IPv4"@,
            IpFamily::V6 => "IPv6"@,
        }
    }

    /// The version as an operator reads it.
    pub fn name(&self) -> (r: &'static str)
        ensures
            r@ == self.text(),
    {
        match self {
            IpFamily::V4 => "IPv4",
            IpFamily::V6 => "IPv6",
        }
    }
}

/// Which versions of IP a reflector is configured to serve.
#[derive(Clone, Copy, PartialEq, Eq, Structural, Debug)]
pub enum AddressFamily {
    /// IPv4, and IPv6 where it is available.
    Default,
    Ipv4,
    Ipv6,
    Dual,
}

impl AddressFamily {
    /// Whether IPv4 must be available.
    pub open spec fn needs_v4(self) -> bool {
        !(self is Ipv6)
    }

    /// Whether IPv6 must be available.
    pub open spec fn needs_v6(self) -> bool {
        self is Ipv6 || self is Dual
    }

    /// Whether IPv4 must be available.
    pub fn requires_ipv4(&self) -> (r: bool)
        ensures
            r == self.needs_v4(),
    {
        match self {
            AddressFamily::Default | AddressFamily::Ipv4 | AddressFamily::Dual => true,
            AddressFamily::Ipv6 => false,
        }
    }

    /// Whether IPv6 must be available.
    pub fn requires_ipv6(&self) -> (r: bool)
        ensures
            r == self.needs_v6(),
    {
        match self {
            AddressFamily::Ipv6 | AddressFamily::Dual => true,
            AddressFamily::Default | AddressFamily::Ipv4 => false,
        }
    }
}

/// Why a reflector could not be built.
#[derive(PartialEq, Eq, Debug)]
pub enum BuildError {
    /// No capture was opened for this interface.
    UnknownInterface(String),
    /// The interface cannot send a version of IP that the reflector requires.
    RequiredFamilyUnavailable { interface: String, family: IpFamily },
    /// Devices are named by hardware address, and the interface's link carries none.
    MacsUnmatchable(String),
    /// A group could not be joined, for a reason that no later event clears.
    GroupJoin { group: IpAddr, interface: String, reason: String },
}

impl BuildError {
    /// Whether this is an unknown interface `name`.
    pub open spec fn is_unknown(self, name: Seq<char>) -> bool {
        self matches BuildError::UnknownInterface(interface) && interface@ == name
    }

    /// Whether this is `interface` lacking `family`.
    pub open spec fn is_unavailable(self, name: Seq<char>, missing: IpFamily) -> bool {
        &&& self matches BuildError::RequiredFamilyUnavailable { interface, family }
        &&& interface@ == name
        &&& family == missing
    }

    /// Whether this is `name`'s link carrying no hardware address.
    pub open spec fn is_unmatchable(self, name: Seq<char>) -> bool {
        self matches BuildError::MacsUnmatchable(interface) && interface@ == name
    }

    /// Whether this is `wanted` not joined on `name` for this reason.
    pub open spec fn is_group_join(self, wanted: IpAddr, name: Seq<char>, why: Seq<char>) -> bool {
        &&& self matches BuildError::GroupJoin { group, interface, reason }
        &&& group == wanted
        &&& interface@ == name
        &&& reason@ == why
    }

    /// The error as an operator reads it; `group` is the text of the group it names, if it names one.
    pub open spec fn text(self, group: Seq<char>) -> Seq<char> {
        match self {
            BuildError::UnknownInterface(name) => "no capture for interface \""@ + name@ + "\""@,
            BuildError::RequiredFamilyUnavailable { interface, family } => "interface \""@
                + interface@ + "\" cannot send "@ + family.text() + ", required by the reflector"@,
            BuildError::MacsUnmatchable(name) => "macs can never match on interface \""@ + name@
                + "\": its link carries no MAC addresses"@,
            BuildError::GroupJoin { group: _, interface, reason } => "cannot join "@ + group
                + " on interface \""@ + interface@ + "\": "@ + reason@,
        }
    }

    /// The error as an operator reads it; `group` is the text of the group it names, if it names one.
    pub fn message(&self, group: &str) -> (r: String)
        ensures
            r@ == self.text(group@),
    {
        let mut text = String::new();
        match self {
            BuildError::UnknownInterface(name) => {
                text.append("no capture for interface \"");
                text.append(name.as_str());
                text.append("\"");
            },
            BuildError::RequiredFamilyUnavailable { interface, family } => {
                text.append("interface \"");
                text.append(interface.as_str());
                text.append("\" cannot send ");
                text.append(family.name());
                text.append(", required by the reflector");
            },
            BuildError::MacsUnmatchable(name) => {
                text.append("macs can never match on interface \"");
                text.append(name.as_str());
                text.append("\": its link carries no MAC addresses");
            },
            BuildError::GroupJoin { group: _, interface, reason } => {
                text.append("cannot join ");
                text.append(group);
                text.append(" on interface \"");
                text.append(interface.as_str());
                text.append("\": ");
                text.append(reason.as_str());
            },
        }
        assert(text@ =~= self.text(group@));
        text
    }
}

/// The first entry for `name` at or after `from`.
spec fn key_from(entries: Seq<(String, CaptureKey)>, name: Seq<char>, from: int) -> Option<CaptureKey>
    decreases entries.len() - from,
{
    if from < 0 || from >= entries.len() {
        None
    } else if entries[from].0@ == name {
        Some(entries[from].1)
    } else {
        key_from(entries, name, from + 1)
    }
}

/// The capture opened for each configured interface, by name.
#[derive(Debug)]
pub struct InterfaceMap {
    entries: Vec<(String, CaptureKey)>,
}

impl InterfaceMap {
    /// The captures by interface name.
    pub closed spec fn view(&self) -> Map<Seq<char>, CaptureKey> {
        Map::new(
            |name: Seq<char>| key_from(self.entries@, name, 0) is Some,
            |name: Seq<char>| key_from(self.entries@, name, 0)->0,
        )
    }

    /// No interface yet.
    pub fn new() -> (r: Self)
        ensures
            r@ == Map::<Seq<char>, CaptureKey>::empty(),
    {
        let r = InterfaceMap { entries: Vec::new() };
        assert(r@ =~= Map::<Seq<char>, CaptureKey>::empty());
        r
    }

    fn position(&self, name: &String) -> (r: Option<usize>)
        ensures
            match r {
                Some(i) => {
                    &&& i < self.entries@.len()
                    &&& self.entries@[i as int].0@ == name@
                    &&& forall|j: int| 0 <= j < i ==> (#[trigger] self.entries@[j]).0@ != name@
                    &&& key_from(self.entries@, name@, 0) == Some(self.entries@[i as int].1)
                },
                None => {
                    &&& forall|j: int|
                        0 <= j < self.entries@.len() ==> (#[trigger] self.entries@[j]).0@ != name@
                    &&& key_from(self.entries@, name@, 0) is None
                },
            },
    {
        let mut i: usize = 0;
        while i < self.entries.len()
            invariant
                i <= self.entries@.len(),
                forall|j: int| 0 <= j < i ==> (#[trigger] self.entries@[j]).0@ != name@,
                key_from(self.entries@, name@, 0) == key_from(self.entries@, name@, i as int),
            decreases self.entries@.len() - i,
        {
            if self.entries[i].0 == *name {
                return Some(i);
            }
            i += 1;
        }
        None
    }

    /// Record the capture opened for `name`. A later one replaces an earlier one.
    pub fn insert(&mut self, name: String, key: CaptureKey)
        ensures
            final(self)@ == old(self)@.insert(name@, key),
    {
        let ghost before = self.entries@;
        match self.position(&name) {
            Some(i) => {
                let ghost text = name@;
                self.entries.set(i, (name, key));
                proof {
                    assert forall|n: Seq<char>| #[trigger]
                        key_from(self.entries@, n, 0) == if n == text {
                            Some(key)
                        } else {
                            key_from(before, n, 0)
                        } by {
                        lemma_set_first(before, self.entries@, i as int, n, 0);
                    }
                    assert(self@ =~= old(self)@.insert(text, key));
                }
            },
            None => {
                let ghost text = name@;
                self.entries.push((name, key));
                proof {
                    assert forall|n: Seq<char>| #[trigger]
                        key_from(self.entries@, n, 0) == if n == text {
                            Some(key)
                        } else {
                            key_from(before, n, 0)
                        } by {
                        lemma_push_last(before, self.entries@[before.len() as int], n, 0);
                        assert(self.entries@ =~= before.push(self.entries@[before.len() as int]));
                    }
                    assert(self@ =~= old(self)@.insert(text, key));
                }
            },
        }
    }

    /// The capture recorded for `name`, if there is one.
    pub fn key_for(&self, name: &str) -> (r: Option<CaptureKey>)
        ensures
            r == if self@.contains_key(name@) {
                Some(self@[name@])
            } else {
                None
            },
    {
        let wanted: String = name.to_owned();
        match self.position(&wanted) {
            Some(i) => Some(self.entries[i].1),
            None => None,
        }
    }

    /// The capture recorded for `name`. Without one no reflector can be built on it.
    pub fn require(&self, name: &str) -> (r: Result<CaptureKey, BuildError>)
        ensures
            match r {
                Ok(key) => self@.contains_key(name@) && key == self@[name@],
                Err(e) => !self@.contains_key(name@) && e.is_unknown(name@),
            },
    {
        match self.key_for(name) {
            Some(key) => Ok(key),
            None => Err(BuildError::UnknownInterface(name.to_owned())),
        }
    }
}

impl Default for InterfaceMap {
    fn default() -> (r: Self)
        ensures
            r@ == Map::<Seq<char>, CaptureKey>::empty(),
    {
        InterfaceMap::new()
    }
}

proof fn lemma_same_tail(
    a: Seq<(String, CaptureKey)>,
    b: Seq<(String, CaptureKey)>,
    name: Seq<char>,
    from: int,
)
    requires
        0 <= from,
        a.len() == b.len(),
        forall|j: int| from <= j < a.len() ==> a[j] == b[j],
    ensures
        key_from(a, name, from) == key_from(b, name, from),
    decreases a.len() - from,
{
    if from < a.len() {
        lemma_same_tail(a, b, name, from + 1);
    }
}

proof fn lemma_set_first(
    before: Seq<(String, CaptureKey)>,
    after: Seq<(String, CaptureKey)>,
    at: int,
    name: Seq<char>,
    from: int,
)
    requires
        0 <= from <= at < before.len(),
        after == before.update(at, after[at]),
        after[at].0@ == before[at].0@,
        forall|j: int| from <= j < at ==> (#[trigger] before[j]).0@ != before[at].0@,
    ensures
        key_from(after, name, from) == if name == before[at].0@ {
            Some(after[at].1)
        } else {
            key_from(before, name, from)
        },
    decreases at - from,
{
    if from == at {
        lemma_same_tail(before, after, name, at + 1);
    } else {
        lemma_set_first(before, after, at, name, from + 1);
    }
}

proof fn lemma_push_last(
    before: Seq<(String, CaptureKey)>,
    entry: (String, CaptureKey),
    name: Seq<char>,
    from: int,
)
    requires
        0 <= from <= before.len(),
        forall|j: int| from <= j < before.len() ==> (#[trigger] before[j]).0@ != entry.0@,
    ensures
        key_from(before.push(entry), name, from) == if name == entry.0@ {
            Some(entry.1)
        } else {
            key_from(before, name, from)
        },
    decreases before.len() - from,
{
    if from < before.len() {
        lemma_push_last(before, entry, name, from + 1);
    } else {
        assert(key_from(before.push(entry), name, from + 1) is None);
    }
}

/// Refuse devices named by hardware address on a target whose link carries none: no packet would ever
/// match. A target that is unknown or being drained is not refused.
pub fn require_macs_matchable<S, H>(
    dispatcher: &PacketDispatcher<S, H>,
    macs: Option<&MacSet>,
    target: CaptureKey,
    target_if: &str,
) -> (r: Result<(), BuildError>)
    ensures
        match r {
            Ok(_) => macs is None || (dispatcher@.capture_at(target) matches Some(capture)
                ==> capture.link is Ethernet),
            Err(e) => {
                &&& macs is Some
                &&& dispatcher@.capture_at(target) matches Some(capture)
                &&& !(capture.link is Ethernet)
                &&& e.is_unmatchable(target_if@)
            },
        },
{
    if macs.is_some() {
        if let Some(link) = dispatcher.link_type(target) {
            if link != LinkType::Ethernet {
                return Err(BuildError::MacsUnmatchable(target_if.to_owned()));
            }
        }
    }
    Ok(())
}

/// Whether the addresses have a source of `dst`'s family.
pub open spec fn sources(addrs: InterfaceAddresses, dst: SocketAddr) -> bool {
    match dst.ip {
        IpAddr::V4(_) => addrs.v4 is Some,
        IpAddr::V6(_) => addrs.sources_v6(),
    }
}

/// Whether `egress` has a source address of `dst`'s family at the moment. A reflector asks before it
/// re-emits, so that a family whose address is gone is dropped and not mis-sent.
pub fn egress_sources<S, H>(
    dispatcher: &PacketDispatcher<S, H>,
    egress: CaptureKey,
    dst: SocketAddr,
) -> (r: bool)
    ensures
        r == (dispatcher@.addrs_behind(egress) matches Some(addrs) && sources(addrs, dst)),
{
    match dispatcher.egress_addrs(egress) {
        Some(addrs) => match dst.ip {
            IpAddr::V4(_) => addrs.has_v4(),
            IpAddr::V6(_) => addrs.has_v6(),
        },
        None => false,
    }
}

/// The family that is required and cannot be sourced, IPv4 before IPv6.
pub open spec fn missing_family(family: AddressFamily, addrs: InterfaceAddresses) -> Option<IpFamily> {
    if family.needs_v4() && addrs.v4 is None {
        Some(IpFamily::V4)
    } else if family.needs_v6() && !addrs.sources_v6() {
        Some(IpFamily::V6)
    } else {
        None
    }
}

/// The family that is required and cannot be sourced, IPv4 before IPv6.
pub fn missing_required_family(family: AddressFamily, addrs: &InterfaceAddresses) -> (r: Option<
    IpFamily,
>)
    ensures
        r == missing_family(family, *addrs),
{
    if family.requires_ipv4() && !addrs.has_v4() {
        Some(IpFamily::V4)
    } else if family.requires_ipv6() && !addrs.has_v6() {
        Some(IpFamily::V6)
    } else {
        None
    }
}

impl<S, H> DispatchState<S, H> {
    /// The source addresses behind a capture, none where it is unknown.
    pub open spec fn addrs_or_none(self, capture: CaptureKey) -> InterfaceAddresses {
        match self.addrs_behind(capture) {
            Some(addrs) => addrs,
            None => InterfaceAddresses::none(),
        }
    }
}

/// The family that a reflector re-emitting on both sides requires and one of them cannot source, IPv4
/// before IPv6, and whether it is the source that lacks it.
pub open spec fn missing_on_either(
    family: AddressFamily,
    source: InterfaceAddresses,
    target: InterfaceAddresses,
) -> Option<(IpFamily, bool)> {
    if family.needs_v4() && (source.v4 is None || target.v4 is None) {
        Some((IpFamily::V4, source.v4 is None))
    } else if family.needs_v6() && !(source.sources_v6() && target.sources_v6()) {
        Some((IpFamily::V6, !source.sources_v6()))
    } else {
        None
    }
}

/// Require that a reflector re-emitting on both sides can source every required family on each, and
/// blame the side that lacks it: the source if it does, else the target.
pub fn require_bidirectional_families<S, H>(
    dispatcher: &PacketDispatcher<S, H>,
    address_family: AddressFamily,
    source: CaptureKey,
    source_if: &str,
    target: CaptureKey,
    target_if: &str,
) -> (r: Result<(), BuildError>)
    ensures
        match missing_on_either(
            address_family,
            dispatcher@.addrs_or_none(source),
            dispatcher@.addrs_or_none(target),
        ) {
            None => r is Ok,
            Some((family, on_source)) => {
                &&& r matches Err(e)
                &&& e.is_unavailable(
                    if on_source {
                        source_if@
                    } else {
                        target_if@
                    },
                    family,
                )
            },
        },
{
    let src = match dispatcher.egress_addrs(source) {
        Some(addrs) => addrs,
        None => InterfaceAddresses::default(),
    };
    let tgt = match dispatcher.egress_addrs(target) {
        Some(addrs) => addrs,
        None => InterfaceAddresses::default(),
    };
    if address_family.requires_ipv4() && !(src.has_v4() && tgt.has_v4()) {
        return Err(unavailable(IpFamily::V4, !src.has_v4(), source_if, target_if));
    }
    if address_family.requires_ipv6() && !(src.has_v6() && tgt.has_v6()) {
        return Err(unavailable(IpFamily::V6, !src.has_v6(), source_if, target_if));
    }
    Ok(())
}

fn unavailable(
    family: IpFamily,
    missing_on_source: bool,
    source_if: &str,
    target_if: &str,
) -> (r: BuildError)
    ensures
        r.is_unavailable(
            if missing_on_source {
                source_if@
            } else {
                target_if@
            },
            family,
        ),
{
    let interface: String = if missing_on_source {
        source_if.to_owned()
    } else {
        target_if.to_owned()
    };
    BuildError::RequiredFamilyUnavailable { interface, family }
}

/// Why the system did not join a group.
#[derive(PartialEq, Eq, Debug)]
pub struct JoinFailure {
    /// A later event can clear it: no address of the group's family yet.
    pub deferrable: bool,
    /// The interface holds as many memberships as the system allows.
    pub capped: bool,
    /// The system's words for it.
    pub text: String,
}

impl JoinFailure {
    /// The reason as an operator reads it.
    pub open spec fn reason(self) -> Seq<char> {
        if self.capped {
            self.text@ + "; the interface holds as many memberships as the system allows (net.ipv4.igmp_max_memberships on Linux)"@
        } else {
            self.text@
        }
    }
}

/// Require that a group was joined, given how its join went. One that a later event can clear is
/// retried then; any other fails the reflector.
pub fn require_group_join(group: IpAddr, interface: &str, joined: Result<(), JoinFailure>) -> (r: Result<
    (),
    BuildError,
>)
    ensures
        match joined {
            Ok(_) => r is Ok,
            Err(failure) => if failure.deferrable {
                r is Ok
            } else {
                r matches Err(e) && e.is_group_join(group, interface@, failure.reason())
            },
        },
{
    match joined {
        Ok(_) => Ok(()),
        Err(failure) => {
            if failure.deferrable {
                return Ok(());
            }
            let ghost why = failure.reason();
            let mut reason = failure.text;
            if failure.capped {
                reason.append(
                    "; the interface holds as many memberships as the system allows (net.ipv4.igmp_max_memberships on Linux)",
                );
            }
            assert(reason@ =~= why);
            Err(BuildError::GroupJoin { group, interface: interface.to_owned(), reason })
        },
    }
}

/// A reflector that re-emits on both sides is refused exactly if one side alone would be: every
/// required family has to be available on each.
pub proof fn law_both_sides_must_source_every_required_family(
    family: AddressFamily,
    source: InterfaceAddresses,
    target: InterfaceAddresses,
)
    ensures
        missing_on_either(family, source, target) is None <==> missing_family(family, source) is None
            && missing_family(family, target) is None,
        missing_on_either(family, source, target) matches Some((_, on_source)) ==> if on_source {
            missing_family(family, source) is Some
        } else {
            missing_family(family, target) is Some
        },
{
}

/// Where no required family is missing at startup, a packet to a destination of a required family has a
/// source address.
pub proof fn law_a_required_family_is_sourced(
    family: AddressFamily,
    addrs: InterfaceAddresses,
    dst: SocketAddr,
)
    requires
        missing_family(family, addrs) is None,
        match dst.ip {
            IpAddr::V4(_) => family.needs_v4(),
            IpAddr::V6(_) => family.needs_v6(),
        },
    ensures
        sources(addrs, dst),
{
}

/// A name recorded in the map is found under the key recorded last, and every other name as before.
pub proof fn law_a_recorded_interface_is_found(
    map: InterfaceMap,
    after: InterfaceMap,
    name: Seq<char>,
    key: CaptureKey,
    other: Seq<char>,
)
    requires
        after@ == map@.insert(name, key),
        other != name,
    ensures
        after@.contains_key(name) && after@[name] == key,
        after@.contains_key(other) == map@.contains_key(other),
        map@.contains_key(other) ==> after@[other] == map@[other],
{
}

/// What each configuration asks of an interface. IPv4 alone, and the default, which takes IPv6 where it is
/// available, ask for an IPv4 address and nothing else; IPv6 alone asks for an IPv6 address of either scope
/// and nothing else; both together ask for both, and report IPv4 first.
pub proof fn law_each_configuration_asks_for_its_own_families(addrs: InterfaceAddresses)
    ensures
        missing_family(AddressFamily::Ipv4, addrs) is None <==> addrs.v4 is Some,
        missing_family(AddressFamily::Default, addrs) is None <==> addrs.v4 is Some,
        missing_family(AddressFamily::Ipv6, addrs) is None <==> addrs.v6_link_local is Some
            || addrs.v6_routable is Some,
        missing_family(AddressFamily::Dual, addrs) is None <==> addrs.v4 is Some && (
        addrs.v6_link_local is Some || addrs.v6_routable is Some),
        addrs.v4 is None ==> {
            &&& missing_family(AddressFamily::Ipv4, addrs) == Some(IpFamily::V4)
            &&& missing_family(AddressFamily::Default, addrs) == Some(IpFamily::V4)
            &&& missing_family(AddressFamily::Dual, addrs) == Some(IpFamily::V4)
        },
        addrs.v6_link_local is None && addrs.v6_routable is None ==> {
            &&& missing_family(AddressFamily::Ipv6, addrs) == Some(IpFamily::V6)
            &&& addrs.v4 is Some ==> missing_family(AddressFamily::Dual, addrs) == Some(IpFamily::V6)
        },
{
}

/// A configuration requires a family exactly if an interface that has every other address, and none of that
/// family, is refused for it.
pub proof fn law_a_required_family_is_one_whose_lack_is_refused(
    family: AddressFamily,
    addrs: InterfaceAddresses,
)
    ensures
        family.needs_v4() <==> family is Default || family is Ipv4 || family is Dual,
        family.needs_v6() <==> family is Ipv6 || family is Dual,
        addrs.v4 is None && addrs.v6_link_local is Some ==> (family.needs_v4() <==> missing_family(
            family,
            addrs,
        ) == Some(IpFamily::V4)),
        addrs.v4 is Some && addrs.v6_link_local is None && addrs.v6_routable is None ==> (
        family.needs_v6() <==> missing_family(family, addrs) == Some(IpFamily::V6)),
{
}

/// Two sides of a reflector are refused for one family at a time: IPv4 if the configuration asks for it and a
/// side lacks it, and IPv6 only if IPv4 does not stand in the way. The source is blamed wherever it lacks the
/// family, whether or not the target does too.
pub proof fn law_the_side_that_lacks_a_family_is_blamed(
    family: AddressFamily,
    source: InterfaceAddresses,
    target: InterfaceAddresses,
)
    ensures
        family is Ipv4 || family is Default ==> {
            &&& missing_on_either(family, source, target) is None <==> source.v4 is Some
                && target.v4 is Some
            &&& source.v4 is None ==> missing_on_either(family, source, target) == Some(
                (IpFamily::V4, true),
            )
            &&& source.v4 is Some && target.v4 is None ==> missing_on_either(family, source, target)
                == Some((IpFamily::V4, false))
        },
        family is Ipv6 ==> {
            &&& missing_on_either(family, source, target) is None <==> (source.v6_link_local is Some
                || source.v6_routable is Some) && (target.v6_link_local is Some
                || target.v6_routable is Some)
            &&& source.v6_link_local is None && source.v6_routable is None ==> missing_on_either(
                family,
                source,
                target,
            ) == Some((IpFamily::V6, true))
            &&& (source.v6_link_local is Some || source.v6_routable is Some)
                && target.v6_link_local is None && target.v6_routable is None ==> missing_on_either(
                family,
                source,
                target,
            ) == Some((IpFamily::V6, false))
        },
        family is Dual ==> missing_on_either(family, source, target) == match missing_on_either(
            AddressFamily::Ipv4,
            source,
            target,
        ) {
            Some(missing) => Some(missing),
            None => missing_on_either(AddressFamily::Ipv6, source, target),
        },
{
}

/// A destination can be sourced exactly where the egress has an address of its family, whatever the port and
/// the other family's addresses.
pub proof fn law_a_source_is_of_the_destinations_family(addrs: InterfaceAddresses, dst: SocketAddr)
    ensures
        dst.ip is V4 ==> (sources(addrs, dst) <==> addrs.v4 is Some),
        dst.ip is V6 ==> (sources(addrs, dst) <==> addrs.v6_link_local is Some
            || addrs.v6_routable is Some),
{
}

/// The addresses of a known capture are those of its interface; an unknown one has none of any family.
pub proof fn law_an_unknown_capture_has_no_address<S, H>(
    state: DispatchState<S, H>,
    capture: CaptureKey,
)
    ensures
        capture.0 >= state.rows.len() ==> {
            let addrs = state.addrs_or_none(capture);
            &&& addrs.v4 is None
            &&& addrs.v6_link_local is None
            &&& addrs.v6_routable is None
            &&& addrs.mac is None
        },
        capture.0 < state.rows.len() && state.rows[capture.0 as int].interface.0
            < state.interfaces.len() ==> state.addrs_or_none(capture)
            == state.interfaces[state.rows[capture.0 as int].interface.0 as int].interface.addrs,
{
}

/// Each refusal carries what it is about: the interface, the family that is missing, the group and the
/// reason. One kind of refusal is never another.
pub proof fn law_a_refusal_carries_what_it_is_about(
    e: BuildError,
    name: Seq<char>,
    family: IpFamily,
    group: IpAddr,
    why: Seq<char>,
)
    ensures
        e.is_unknown(name) ==> e is UnknownInterface && e->UnknownInterface_0@ == name,
        e.is_unmatchable(name) ==> e is MacsUnmatchable && e->MacsUnmatchable_0@ == name,
        e.is_unavailable(name, family) ==> e is RequiredFamilyUnavailable
            && e->RequiredFamilyUnavailable_interface@ == name && e->RequiredFamilyUnavailable_family
            == family,
        e.is_group_join(group, name, why) ==> e is GroupJoin && e->GroupJoin_group == group
            && e->GroupJoin_interface@ == name && e->reason@ == why,
{
}

/// What an operator reads of a refusal: every one names its interface in quotes, and beyond that the family,
/// the group or the reason it is for.
pub proof fn law_a_refusal_reads_as_it_is(e: BuildError, group: Seq<char>)
    ensures
        e matches BuildError::UnknownInterface(name) ==> is_made_of(
            e.text(group),
            seq!["no capture for interface \""@, name@, "\""@],
        ),
        e matches BuildError::MacsUnmatchable(name) ==> is_made_of(
            e.text(group),
            seq![
                "macs can never match on interface \""@,
                name@,
                "\": its link carries no MAC addresses"@,
            ],
        ),
        e matches BuildError::RequiredFamilyUnavailable { interface, family } ==> is_made_of(
            e.text(group),
            seq![
                "interface \""@,
                interface@,
                "\" cannot send "@,
                family.text(),
                ", required by the reflector"@,
            ],
        ),
        e matches BuildError::GroupJoin { group: _, interface, reason } ==> is_made_of(
            e.text(group),
            seq!["cannot join "@, group, " on interface \""@, interface@, "\": "@, reason@],
        ),
        IpFamily::V4.text() == "IPv4"@,
        IpFamily::V6.text() == "IPv6"@,
{
    let none = Seq::<Seq<char>>::empty();
    let empty = Seq::<char>::empty();
    assert(is_made_of(empty, none));
    match e {
        BuildError::UnknownInterface(name) => {
            lemma_made_of(empty, none, "no capture for interface \""@);
            let a = empty + "no capture for interface \""@;
            let p = none.push("no capture for interface \""@);
            lemma_made_of(a, p, name@);
            lemma_made_of(a + name@, p.push(name@), "\""@);
            assert(a =~= "no capture for interface \""@);
            assert(p.push(name@).push("\""@) =~= seq![
                "no capture for interface \""@,
                name@,
                "\""@,
            ]);
        },
        BuildError::MacsUnmatchable(name) => {
            let (x, z) = (
                "macs can never match on interface \""@,
                "\": its link carries no MAC addresses"@,
            );
            lemma_made_of(empty, none, x);
            lemma_made_of(empty + x, none.push(x), name@);
            lemma_made_of(empty + x + name@, none.push(x).push(name@), z);
            assert(empty + x =~= x);
            assert(none.push(x).push(name@).push(z) =~= seq![x, name@, z]);
        },
        BuildError::RequiredFamilyUnavailable { interface, family } => {
            let (x, y, z) = (
                "interface \""@,
                "\" cannot send "@,
                ", required by the reflector"@,
            );
            let (n, f) = (interface@, family.text());
            lemma_made_of(empty, none, x);
            lemma_made_of(empty + x, none.push(x), n);
            lemma_made_of(empty + x + n, none.push(x).push(n), y);
            lemma_made_of(empty + x + n + y, none.push(x).push(n).push(y), f);
            lemma_made_of(empty + x + n + y + f, none.push(x).push(n).push(y).push(f), z);
            assert(empty + x =~= x);
            assert(none.push(x).push(n).push(y).push(f).push(z) =~= seq![x, n, y, f, z]);
        },
        BuildError::GroupJoin { group: _, interface, reason } => {
            let (x, y, z) = ("cannot join "@, " on interface \""@, "\": "@);
            let (n, why) = (interface@, reason@);
            lemma_made_of(empty, none, x);
            lemma_made_of(empty + x, none.push(x), group);
            lemma_made_of(empty + x + group, none.push(x).push(group), y);
            lemma_made_of(empty + x + group + y, none.push(x).push(group).push(y), n);
            lemma_made_of(empty + x + group + y + n, none.push(x).push(group).push(y).push(n), z);
            lemma_made_of(
                empty + x + group + y + n + z,
                none.push(x).push(group).push(y).push(n).push(z),
                why,
            );
            assert(empty + x =~= x);
            assert(none.push(x).push(group).push(y).push(n).push(z).push(why) =~= seq![
                x,
                group,
                y,
                n,
                z,
                why,
            ]);
        },
    }
}

/// A failed join is reported in the system's own words, which come first; only where the interface holds as
/// many memberships as allowed does a hint to that follow.
pub proof fn law_a_join_failure_keeps_the_systems_words(failure: JoinFailure)
    ensures
        !failure.capped ==> failure.reason() == failure.text@,
        failure.capped ==> {
            &&& failure.reason().len() > failure.text@.len()
            &&& failure.reason().subrange(0, failure.text@.len() as int) == failure.text@
            &&& failure.reason().subrange(failure.text@.len() as int, failure.reason().len() as int)
                == "; the interface holds as many memberships as the system allows (net.ipv4.igmp_max_memberships on Linux)"@
        },
{
    reveal_strlit(
        "; the interface holds as many memberships as the system allows (net.ipv4.igmp_max_memberships on Linux)",
    );
    if failure.capped {
        assert(failure.reason().subrange(0, failure.text@.len() as int) =~= failure.text@);
        assert(failure.reason().subrange(
            failure.text@.len() as int,
            failure.reason().len() as int,
        )
            =~= "; the interface holds as many memberships as the system allows (net.ipv4.igmp_max_memberships on Linux)"@);
    }
}

}
