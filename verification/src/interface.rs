//! What is known of one network interface: its name, kernel identity, and source addresses.

use vstd::prelude::*;

use crate::net::{Ipv4Addr, Ipv6Addr, MacAddr};

verus! {

/// The source addresses an interface has to offer.
#[derive(Clone, Copy, PartialEq, Eq, Structural, Debug)]
pub struct InterfaceAddresses {
    pub mac: Option<MacAddr>,
    pub v4: Option<Ipv4Addr>,
    /// The broadcast address of the subnet behind `v4`.
    pub v4_directed_broadcast: Option<Ipv4Addr>,
    pub v6_link_local: Option<Ipv6Addr>,
    pub v6_routable: Option<Ipv6Addr>,
}

impl InterfaceAddresses {
    /// An interface with no address at all.
    pub open spec fn none() -> Self {
        InterfaceAddresses {
            mac: None,
            v4: None,
            v4_directed_broadcast: None,
            v6_link_local: None,
            v6_routable: None,
        }
    }

    /// The given addresses, without a directed broadcast.
    pub fn new(
        mac: Option<MacAddr>,
        v4: Option<Ipv4Addr>,
        v6_link_local: Option<Ipv6Addr>,
        v6_routable: Option<Ipv6Addr>,
    ) -> (r: Self)
        ensures
            r.mac == mac,
            r.v4 == v4,
            r.v4_directed_broadcast is None,
            r.v6_link_local == v6_link_local,
            r.v6_routable == v6_routable,
    {
        InterfaceAddresses { mac, v4, v4_directed_broadcast: None, v6_link_local, v6_routable }
    }

    /// Whether an IPv6 source of either scope exists.
    pub open spec fn sources_v6(self) -> bool {
        self.v6_link_local is Some || self.v6_routable is Some
    }

    /// Whether an IPv4 source exists.
    pub fn has_v4(&self) -> (r: bool)
        ensures
            r == (self.v4 is Some),
    {
        self.v4.is_some()
    }

    /// Whether an IPv6 source of either scope exists.
    pub fn has_v6(&self) -> (r: bool)
        ensures
            r == self.sources_v6(),
    {
        self.v6_link_local.is_some() || self.v6_routable.is_some()
    }
}

impl Default for InterfaceAddresses {
    fn default() -> (r: Self)
        ensures
            r == InterfaceAddresses::none(),
    {
        InterfaceAddresses {
            mac: None,
            v4: None,
            v4_directed_broadcast: None,
            v6_link_local: None,
            v6_routable: None,
        }
    }
}

/// What a successful resolution of an interface found.
#[derive(Clone, Copy, PartialEq, Eq, Structural, Debug)]
pub struct Resolved {
    pub addrs: InterfaceAddresses,
    pub mtu: Option<u32>,
}

/// The outcome of asking the system for an interface's addresses.
#[derive(Clone, Copy, PartialEq, Eq, Structural, Debug)]
pub enum Resolution {
    Found(Resolved),
    /// The system could not answer; nothing is known of the addresses.
    Failed,
}

/// A resolution that the system could not answer.
#[derive(Clone, Copy, PartialEq, Eq, Structural, Debug)]
pub struct ResolveFailed;

/// Which of an interface's addresses a resolution moved.
#[derive(Clone, Copy, PartialEq, Eq, Structural, Debug)]
pub struct AddressChange {
    pub v4: bool,
    pub v6: bool,
}

/// Which addresses differ between two resolutions.
pub open spec fn address_change(before: InterfaceAddresses, after: InterfaceAddresses) -> AddressChange {
    AddressChange {
        v4: before.v4 != after.v4,
        v6: before.v6_link_local != after.v6_link_local || before.v6_routable != after.v6_routable,
    }
}

/// One watched interface.
#[derive(Debug)]
pub struct Interface {
    pub name: String,
    /// The kernel index, 0 while no interface bears the name.
    pub ifindex: u32,
    pub addrs: InterfaceAddresses,
    /// The MTU as of the last resolution, where the system reported one.
    pub mtu: Option<u32>,
}

impl Interface {
    /// The interface after a resolution: the last-known values survive a failed one.
    pub open spec fn refreshed(self, resolution: Resolution) -> Self {
        match resolution {
            Resolution::Found(found) => Interface { addrs: found.addrs, mtu: found.mtu, ..self },
            Resolution::Failed => self,
        }
    }

    /// Take in a resolution, reporting which addresses it moved.
    pub fn refresh(&mut self, resolution: Resolution) -> (r: Result<AddressChange, ResolveFailed>)
        ensures
            *final(self) == old(self).refreshed(resolution),
            match resolution {
                Resolution::Found(found) => r == Ok::<AddressChange, ResolveFailed>(
                    address_change(old(self).addrs, found.addrs),
                ),
                Resolution::Failed => r == Err::<AddressChange, ResolveFailed>(ResolveFailed),
            },
    {
        match resolution {
            Resolution::Found(found) => {
                let change = AddressChange {
                    v4: self.addrs.v4 != found.addrs.v4,
                    v6: self.addrs.v6_link_local != found.addrs.v6_link_local
                        || self.addrs.v6_routable != found.addrs.v6_routable,
                };
                self.addrs = found.addrs;
                self.mtu = found.mtu;
                Ok(change)
            },
            Resolution::Failed => Err(ResolveFailed),
        }
    }
}

/// An interface with no address sources nothing: every one of its addresses is absent.
pub proof fn law_no_address_is_no_source()
    ensures
        InterfaceAddresses::none().mac is None,
        InterfaceAddresses::none().v4 is None,
        InterfaceAddresses::none().v4_directed_broadcast is None,
        InterfaceAddresses::none().v6_link_local is None,
        InterfaceAddresses::none().v6_routable is None,
{
}

/// Either scope is enough to source IPv6, and only the lack of both leaves it without a source, whatever
/// the other addresses are.
pub proof fn law_either_scope_sources_v6(addrs: InterfaceAddresses)
    ensures
        addrs.v6_link_local is Some ==> addrs.sources_v6(),
        addrs.v6_routable is Some ==> addrs.sources_v6(),
        addrs.v6_link_local is None && addrs.v6_routable is None ==> !addrs.sources_v6(),
{
}

/// A resolution moves an address exactly if the one held before and the one found differ: one gained, one
/// lost and one replaced alike. Of the IPv6 addresses either counts. The hardware address and the directed
/// broadcast do not.
pub proof fn law_a_move_is_any_difference(before: InterfaceAddresses, after: InterfaceAddresses)
    ensures
        before.v4 is Some && after.v4 is None ==> address_change(before, after).v4,
        before.v4 is None && after.v4 is Some ==> address_change(before, after).v4,
        before.v4 is Some && after.v4 is Some ==> (address_change(before, after).v4 <==> before.v4->0
            != after.v4->0),
        before.v4 is None && after.v4 is None ==> !address_change(before, after).v4,
        before.v6_link_local != after.v6_link_local ==> address_change(before, after).v6,
        before.v6_routable != after.v6_routable ==> address_change(before, after).v6,
        before.v6_link_local == after.v6_link_local && before.v6_routable == after.v6_routable
            ==> !address_change(before, after).v6,
        address_change(before, after) == address_change(after, before),
{
}

/// Taking in what was found leaves an interface with exactly that, its name and index as they were, so that
/// finding the same again moves nothing. A resolution that could not be answered changes nothing.
pub proof fn law_a_refresh_holds_what_was_found(interface: Interface, found: Resolved)
    ensures
        ({
            let after = interface.refreshed(Resolution::Found(found));
            &&& after.addrs == found.addrs
            &&& after.mtu == found.mtu
            &&& after.name == interface.name
            &&& after.ifindex == interface.ifindex
            &&& after.refreshed(Resolution::Found(found)) == after
            &&& !address_change(after.addrs, found.addrs).v4
            &&& !address_change(after.addrs, found.addrs).v6
        }),
        interface.refreshed(Resolution::Failed) == interface,
{
}

}
