//! Which packets a registration is for.

use vstd::prelude::*;

use crate::net::{IpAddr, Ipv4Addr, MacAddr, Packet};

verus! {

/// A non-empty set of the values one filter field accepts, so that a single registration can span
/// several: both multicast groups of a protocol, or its ports. One value pins the field to it.
#[derive(Debug)]
pub struct FilterSet<T> {
    values: Vec<T>,
}

/// The multicast groups one handler serves.
pub type IpSet = FilterSet<IpAddr>;

/// The ports one handler serves.
pub type PortSet = FilterSet<u16>;

/// The devices one handler serves.
pub type MacSet = FilterSet<MacAddr>;

impl<T> FilterSet<T> {
    /// The accepted values, in the order given.
    pub closed spec fn view(&self) -> Seq<T> {
        self.values@
    }

    #[verifier::type_invariant]
    spec fn accepts_something(self) -> bool {
        self.values@.len() > 0
    }

    /// A set of the given values; none of them make no set.
    pub fn from_values(values: Vec<T>) -> (r: Option<Self>)
        ensures
            match r {
                Some(set) => values@.len() > 0 && set@ == values@,
                None => values@.len() == 0,
            },
    {
        if values.len() == 0 {
            return None;
        }
        Some(FilterSet { values })
    }

    /// The accepted values, in the order given. There is at least one.
    pub fn as_slice(&self) -> (r: &[T])
        ensures
            r@ == self@,
            self@.len() > 0,
    {
        proof {
            use_type_invariant(self);
        }
        self.values.as_slice()
    }
}

impl<T: Clone> Clone for FilterSet<T> {
    fn clone(&self) -> (r: Self)
        ensures
            r@.len() == self@.len(),
            forall|i: int| 0 <= i < self@.len() ==> cloned::<T>(#[trigger] self@[i], r@[i]),
    {
        proof {
            use_type_invariant(self);
        }
        FilterSet { values: self.values.clone() }
    }
}

impl<T> From<T> for FilterSet<T> {
    fn from(value: T) -> (r: Self)
        ensures
            r@ == seq![value],
    {
        let mut values: Vec<T> = Vec::new();
        values.push(value);
        assert(values@ =~= seq![value]);
        FilterSet { values }
    }
}

impl<T> vstd::std_specs::convert::FromSpecImpl<T> for FilterSet<T> {
    open spec fn obeys_from_spec() -> bool {
        false
    }

    open spec fn from_spec(value: T) -> Self {
        arbitrary()
    }
}

impl FilterSet<IpAddr> {
    /// Whether `value` is accepted.
    pub fn contains(&self, value: IpAddr) -> (r: bool)
        ensures
            r == self@.contains(value),
    {
        let mut i: usize = 0;
        while i < self.values.len()
            invariant
                i <= self.values@.len(),
                forall|j: int| 0 <= j < i ==> self.values@[j] != value,
            decreases self.values@.len() - i,
        {
            if self.values[i] == value {
                return true;
            }
            i += 1;
        }
        false
    }
}

impl FilterSet<u16> {
    /// Whether `value` is accepted.
    pub fn contains(&self, value: u16) -> (r: bool)
        ensures
            r == self@.contains(value),
    {
        let mut i: usize = 0;
        while i < self.values.len()
            invariant
                i <= self.values@.len(),
                forall|j: int| 0 <= j < i ==> self.values@[j] != value,
            decreases self.values@.len() - i,
        {
            if self.values[i] == value {
                return true;
            }
            i += 1;
        }
        false
    }
}

impl FilterSet<MacAddr> {
    /// Whether `value` is accepted.
    pub fn contains(&self, value: MacAddr) -> (r: bool)
        ensures
            r == self@.contains(value),
    {
        let mut i: usize = 0;
        while i < self.values.len()
            invariant
                i <= self.values@.len(),
                forall|j: int| 0 <= j < i ==> self.values@[j] != value,
            decreases self.values@.len() - i,
        {
            if self.values[i] == value {
                return true;
            }
            i += 1;
        }
        false
    }
}

/// A packet filter of optional fields: an unset field matches anything. A hardware-address field
/// never matches a packet from a link without such addresses.
#[derive(Clone, Debug)]
pub struct Filter {
    pub src_ip: Option<IpAddr>,
    pub dst_ip: Option<IpSet>,
    pub src_port: Option<u16>,
    pub dst_port: Option<PortSet>,
    /// The devices the packet may come from.
    pub src_mac: Option<MacSet>,
    pub dst_mac: Option<MacAddr>,
    /// Require an IPv4 broadcast, see [`Packet::is_broadcast`].
    pub broadcast: bool,
}

impl Filter {
    /// Whether no field is set.
    pub open spec fn is_wildcard(self) -> bool {
        &&& self.src_ip is None
        &&& self.dst_ip is None
        &&& self.src_port is None
        &&& self.dst_port is None
        &&& self.src_mac is None
        &&& self.dst_mac is None
        &&& !self.broadcast
    }

    /// Whether `p`, captured on a link whose directed broadcast is `directed`, satisfies every set
    /// field.
    pub open spec fn accepts(self, p: Packet, directed: Option<Ipv4Addr>) -> bool {
        &&& self.broadcast ==> p.is_broadcast_spec(directed)
        &&& self.src_ip matches Some(ip) ==> p.source.ip == ip
        &&& self.dst_ip matches Some(set) ==> set@.contains(p.dest.ip)
        &&& self.src_port matches Some(port) ==> p.source.port == port
        &&& self.dst_port matches Some(set) ==> set@.contains(p.dest.port)
        &&& self.src_mac matches Some(set) ==> p.src_mac is Some && set@.contains(p.src_mac->0)
        &&& self.dst_mac matches Some(mac) ==> p.dst_mac == Some(mac)
    }

    /// Whether `p` satisfies every set field, given the ingress's directed broadcast for the
    /// `broadcast` field on a link without hardware addresses.
    pub fn matches(&self, p: &Packet, ingress_directed_broadcast: Option<Ipv4Addr>) -> (r: bool)
        ensures
            r == self.accepts(*p, ingress_directed_broadcast),
    {
        if self.broadcast && !p.is_broadcast(ingress_directed_broadcast) {
            return false;
        }
        if let Some(ip) = self.src_ip {
            if p.source.ip != ip {
                return false;
            }
        }
        if let Some(set) = &self.dst_ip {
            if !set.contains(p.dest.ip) {
                return false;
            }
        }
        if let Some(port) = self.src_port {
            if p.source.port != port {
                return false;
            }
        }
        if let Some(set) = &self.dst_port {
            if !set.contains(p.dest.port) {
                return false;
            }
        }
        if let Some(set) = &self.src_mac {
            match p.src_mac {
                Some(mac) => {
                    if !set.contains(mac) {
                        return false;
                    }
                },
                None => {
                    return false;
                },
            }
        }
        if let Some(mac) = self.dst_mac {
            if p.dst_mac != Some(mac) {
                return false;
            }
        }
        true
    }
}

impl Default for Filter {
    fn default() -> (r: Self)
        ensures
            r.is_wildcard(),
    {
        Filter {
            src_ip: None,
            dst_ip: None,
            src_port: None,
            dst_port: None,
            src_mac: None,
            dst_mac: None,
            broadcast: false,
        }
    }
}

/// A filter with no field set matches every packet on every link.
pub proof fn law_the_wildcard_matches_anything(filter: Filter, p: Packet, directed: Option<Ipv4Addr>)
    requires
        filter.is_wildcard(),
    ensures
        filter.accepts(p, directed),
{
}

/// A filter on a hardware address never matches a packet that carries none.
pub proof fn law_mac_filters_never_match_without_macs(
    filter: Filter,
    p: Packet,
    directed: Option<Ipv4Addr>,
)
    requires
        filter.src_mac is Some && p.src_mac is None || filter.dst_mac is Some && p.dst_mac is None,
    ensures
        !filter.accepts(p, directed),
{
}

/// An address filter is family-specific: a set of addresses of one family never matches a packet to
/// the other family, and a source address never matches one from it.
pub proof fn law_address_filters_do_not_cross_families(
    filter: Filter,
    p: Packet,
    directed: Option<Ipv4Addr>,
)
    requires
        ({
            ||| filter.dst_ip matches Some(groups) && forall|i: int|
                0 <= i < groups@.len() ==> (#[trigger] groups@[i] is V4) != (p.dest.ip is V4)
            ||| filter.src_ip matches Some(ip) && (ip is V4) != (p.source.ip is V4)
        }),
    ensures
        !filter.accepts(p, directed),
{
}

/// Unsetting any one field lets through at least what the filter let through before.
pub proof fn law_dropping_a_requirement_only_widens(
    filter: Filter,
    p: Packet,
    directed: Option<Ipv4Addr>,
)
    requires
        filter.accepts(p, directed),
    ensures
        (Filter { broadcast: false, ..filter }).accepts(p, directed),
        (Filter { src_ip: None, ..filter }).accepts(p, directed),
        (Filter { dst_ip: None, ..filter }).accepts(p, directed),
        (Filter { src_port: None, ..filter }).accepts(p, directed),
        (Filter { dst_port: None, ..filter }).accepts(p, directed),
        (Filter { src_mac: None, ..filter }).accepts(p, directed),
        (Filter { dst_mac: None, ..filter }).accepts(p, directed),
{
}

/// A broadcast handler and a group handler never both take a packet: no packet to a multicast group
/// passes a filter that requires a broadcast.
pub proof fn law_a_group_is_never_a_broadcast(filter: Filter, p: Packet, directed: Option<Ipv4Addr>)
    requires
        filter.broadcast,
        match p.dest.ip {
            IpAddr::V4(v4) => v4.is_group(),
            IpAddr::V6(_) => true,
        },
    ensures
        !filter.accepts(p, directed),
{
}

/// A packet that a filter accepts has its source hardware address in the filter's set, its destination and
/// its port in theirs, and its source, source port and destination hardware address as the filter pins them,
/// whatever its family and whatever the other fields are.
pub proof fn law_an_accepted_packet_is_a_member_of_every_field(
    filter: Filter,
    p: Packet,
    directed: Option<Ipv4Addr>,
)
    requires
        filter.accepts(p, directed),
    ensures
        filter.src_mac matches Some(devices) ==> p.src_mac matches Some(mac) && devices@.contains(mac),
        filter.dst_ip matches Some(groups) ==> groups@.contains(p.dest.ip),
        filter.dst_port matches Some(ports) ==> ports@.contains(p.dest.port),
        filter.src_ip matches Some(ip) ==> p.source.ip == ip,
        filter.src_port matches Some(port) ==> p.source.port == port,
        filter.dst_mac matches Some(mac) ==> p.dst_mac == Some(mac),
        filter.broadcast ==> p.is_broadcast_spec(directed),
{
}

/// A filter rejects a packet only for a field that is set and that the packet does not meet.
pub proof fn law_a_rejected_packet_misses_some_field(
    filter: Filter,
    p: Packet,
    directed: Option<Ipv4Addr>,
)
    requires
        !filter.accepts(p, directed),
    ensures
        ({
            ||| filter.src_mac matches Some(devices) && (p.src_mac matches Some(mac)
                ==> !devices@.contains(mac))
            ||| filter.dst_ip matches Some(groups) && !groups@.contains(p.dest.ip)
            ||| filter.dst_port matches Some(ports) && !ports@.contains(p.dest.port)
            ||| filter.src_ip matches Some(ip) && p.source.ip != ip
            ||| filter.src_port matches Some(port) && p.source.port != port
            ||| filter.dst_mac matches Some(mac) && p.dst_mac != Some(mac)
            ||| filter.broadcast && !p.is_broadcast_spec(directed)
        }),
{
}

/// A filter accepts a packet exactly if each of its fields, taken alone, does.
pub proof fn law_a_filter_is_all_of_its_fields(
    filter: Filter,
    open: Filter,
    p: Packet,
    directed: Option<Ipv4Addr>,
)
    requires
        open.is_wildcard(),
    ensures
        filter.accepts(p, directed) <==> {
            &&& (Filter { src_ip: filter.src_ip, ..open }).accepts(p, directed)
            &&& (Filter { dst_ip: filter.dst_ip, ..open }).accepts(p, directed)
            &&& (Filter { src_port: filter.src_port, ..open }).accepts(p, directed)
            &&& (Filter { dst_port: filter.dst_port, ..open }).accepts(p, directed)
            &&& (Filter { src_mac: filter.src_mac, ..open }).accepts(p, directed)
            &&& (Filter { dst_mac: filter.dst_mac, ..open }).accepts(p, directed)
            &&& (Filter { broadcast: filter.broadcast, ..open }).accepts(p, directed)
        },
{
}

/// A field taken alone accepts exactly the packets that are members of it: the payload, the hop limit and
/// every other field of the packet do not come into it.
pub proof fn law_a_field_alone_accepts_its_members(
    filter: Filter,
    open: Filter,
    p: Packet,
    directed: Option<Ipv4Addr>,
)
    requires
        open.is_wildcard(),
    ensures
        filter.src_ip matches Some(ip) ==> ((Filter { src_ip: Some(ip), ..open }).accepts(p, directed)
            <==> p.source.ip == ip),
        filter.dst_ip matches Some(groups) ==> ((Filter { dst_ip: Some(groups), ..open }).accepts(
            p,
            directed,
        ) <==> groups@.contains(p.dest.ip)),
        filter.src_port matches Some(port) ==> ((Filter { src_port: Some(port), ..open }).accepts(
            p,
            directed,
        ) <==> p.source.port == port),
        filter.dst_port matches Some(ports) ==> ((Filter { dst_port: Some(ports), ..open }).accepts(
            p,
            directed,
        ) <==> ports@.contains(p.dest.port)),
        filter.src_mac matches Some(devices) ==> ((Filter { src_mac: Some(devices), ..open }).accepts(
            p,
            directed,
        ) <==> (p.src_mac matches Some(mac) && devices@.contains(mac))),
        filter.dst_mac matches Some(mac) ==> ((Filter { dst_mac: Some(mac), ..open }).accepts(
            p,
            directed,
        ) <==> p.dst_mac == Some(mac)),
        (Filter { broadcast: true, ..open }).accepts(p, directed) <==> p.is_broadcast_spec(directed),
{
}

/// A filter that requires nothing has no field set.
pub proof fn law_the_wildcard_has_no_field(filter: Filter)
    requires
        filter.is_wildcard(),
    ensures
        filter.src_ip is None,
        filter.dst_ip is None,
        filter.src_port is None,
        filter.dst_port is None,
        filter.src_mac is None,
        filter.dst_mac is None,
        !filter.broadcast,
{
}

/// The directed broadcast of a link decides nothing for a filter that does not require a broadcast.
pub proof fn law_only_a_broadcast_filter_asks_the_link(
    filter: Filter,
    p: Packet,
    directed: Option<Ipv4Addr>,
    other: Option<Ipv4Addr>,
)
    requires
        !filter.broadcast,
    ensures
        filter.accepts(p, directed) == filter.accepts(p, other),
{
}

}
