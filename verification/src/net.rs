//! Addresses, packets, and the link-layer destinations derived from them.

use vstd::prelude::*;

verus! {

/// One more than the largest number six octets can hold.
pub const MAC_LIMIT: u64 = 0x1_0000_0000_0000;

/// The number six octets spell, most significant first.
pub open spec fn octets_value(octets: Seq<u8>) -> int {
    octets[0] * 0x100_0000_0000 + octets[1] * 0x1_0000_0000 + octets[2] * 0x100_0000 + octets[3]
        * 0x1_0000 + octets[4] * 0x100 + octets[5]
}

/// A link-layer hardware address.
#[derive(Clone, Copy, PartialEq, Eq, Structural, Debug)]
pub struct MacAddr {
    bits: u64,
}

impl MacAddr {
    /// The address as one 48-bit number, most significant octet first.
    pub closed spec fn bits(self) -> u64 {
        self.bits
    }

    #[verifier::type_invariant]
    spec fn fits(self) -> bool {
        self.bits < MAC_LIMIT
    }

    /// The address written as six octets.
    pub fn new(octets: [u8; 6]) -> (r: Self)
        ensures
            r.bits() == octets_value(octets@),
    {
        let bits: u64 = octets[0] as u64 * 0x100_0000_0000 + octets[1] as u64 * 0x1_0000_0000
            + octets[2] as u64 * 0x100_0000 + octets[3] as u64 * 0x1_0000 + octets[4] as u64
            * 0x100 + octets[5] as u64;
        MacAddr { bits }
    }

    /// The six octets, in the order a frame carries them.
    pub fn octets(&self) -> (r: [u8; 6])
        ensures
            octets_value(r@) == self.bits(),
    {
        proof {
            use_type_invariant(self);
        }
        let b5: u64 = self.bits;
        let b4: u64 = b5 / 0x100;
        let b3: u64 = b4 / 0x100;
        let b2: u64 = b3 / 0x100;
        let b1: u64 = b2 / 0x100;
        let b0: u64 = b1 / 0x100;
        [
            b0 as u8,
            (b1 % 0x100) as u8,
            (b2 % 0x100) as u8,
            (b3 % 0x100) as u8,
            (b4 % 0x100) as u8,
            (b5 % 0x100) as u8,
        ]
    }

    /// The all-ones address every station accepts.
    pub fn broadcast() -> (r: Self)
        ensures
            r.is_broadcast_spec(),
    {
        MacAddr { bits: 0xffff_ffff_ffff }
    }

    /// Whether this is the all-ones address.
    pub open spec fn is_broadcast_spec(self) -> bool {
        self.bits() == 0xffff_ffff_ffff
    }

    /// Whether this is the all-ones address.
    pub fn is_broadcast(&self) -> (r: bool)
        ensures
            r == self.is_broadcast_spec(),
    {
        self.bits == 0xffff_ffff_ffff
    }

    /// Whether this is the all-zero address, which identifies nothing.
    pub fn is_unspecified(&self) -> (r: bool)
        ensures
            r == (self.bits() == 0),
    {
        self.bits == 0
    }
}

impl From<[u8; 6]> for MacAddr {
    fn from(octets: [u8; 6]) -> (r: Self)
        ensures
            r.bits() == octets_value(octets@),
    {
        MacAddr::new(octets)
    }
}

impl vstd::std_specs::convert::FromSpecImpl<[u8; 6]> for MacAddr {
    open spec fn obeys_from_spec() -> bool {
        true
    }

    closed spec fn from_spec(octets: [u8; 6]) -> Self {
        MacAddr { bits: octets_value(octets@) as u64 }
    }
}

/// An IPv4 address, as its 32-bit number.
#[derive(Clone, Copy, PartialEq, Eq, Structural, Debug)]
pub struct Ipv4Addr {
    pub bits: u32,
}

impl Ipv4Addr {
    /// The address `a.b.c.d`.
    pub fn new(a: u8, b: u8, c: u8, d: u8) -> (r: Self)
        ensures
            r.bits == a * 0x100_0000 + b * 0x1_0000 + c * 0x100 + d,
    {
        Ipv4Addr { bits: a as u32 * 0x100_0000 + b as u32 * 0x1_0000 + c as u32 * 0x100 + d as u32 }
    }

    /// The loopback address 127.0.0.1.
    pub fn localhost() -> (r: Self)
        ensures
            r.bits == 0x7f00_0001,
    {
        Ipv4Addr { bits: 0x7f00_0001 }
    }

    /// Whether this is the limited broadcast 255.255.255.255.
    pub open spec fn is_limited_broadcast(self) -> bool {
        self.bits == 0xffff_ffff
    }

    /// Whether this lies in 224.0.0.0/4.
    pub open spec fn is_group(self) -> bool {
        0xe000_0000 <= self.bits <= 0xefff_ffff
    }

    /// Whether this lies in 224.0.0.0/4.
    pub fn is_multicast(&self) -> (r: bool)
        ensures
            r == self.is_group(),
    {
        0xe000_0000 <= self.bits && self.bits <= 0xefff_ffff
    }
}

/// An IPv6 address, as its 128-bit number.
#[derive(Clone, Copy, PartialEq, Eq, Structural, Debug)]
pub struct Ipv6Addr {
    pub bits: u128,
}

impl Ipv6Addr {
    /// Whether this lies in ff00::/8.
    pub open spec fn is_group(self) -> bool {
        self.bits >= 0xff00_0000_0000_0000_0000_0000_0000_0000
    }

    /// Whether this lies in ff00::/8.
    pub fn is_multicast(&self) -> (r: bool)
        ensures
            r == self.is_group(),
    {
        self.bits >= 0xff00_0000_0000_0000_0000_0000_0000_0000
    }
}

/// An address of either family.
#[derive(Clone, Copy, PartialEq, Eq, Structural, Debug)]
pub enum IpAddr {
    V4(Ipv4Addr),
    V6(Ipv6Addr),
}

/// An address and a UDP port.
#[derive(Clone, Copy, PartialEq, Eq, Structural, Debug)]
pub struct SocketAddr {
    pub ip: IpAddr,
    pub port: u16,
}

/// How a capture's frames are wrapped.
#[derive(Clone, Copy, PartialEq, Eq, Structural, Debug)]
pub enum LinkType {
    /// A 14-byte Ethernet header, with hardware addresses.
    Ethernet,
    /// A 4-byte address-family header, without any hardware address.
    Null,
}

/// A captured UDP datagram. The hardware addresses are absent on a link that carries none.
#[derive(Clone, Copy, Debug)]
pub struct Packet<'a> {
    pub source: SocketAddr,
    pub dest: SocketAddr,
    pub ttl: u8,
    pub dst_mac: Option<MacAddr>,
    pub src_mac: Option<MacAddr>,
    pub payload: &'a [u8],
}

impl<'a> Packet<'a> {
    /// Whether the packet is an IPv4 broadcast. The frame decides where it has a destination
    /// hardware address: the all-ones one broadcasts whatever unicast-looking address it carries.
    /// Without one the address decides: the limited broadcast, or the link's own directed one. A
    /// multicast group is never a broadcast.
    pub open spec fn is_broadcast_spec(self, directed: Option<Ipv4Addr>) -> bool {
        match self.dest.ip {
            IpAddr::V6(_) => false,
            IpAddr::V4(dst) => !dst.is_group() && match self.dst_mac {
                Some(mac) => mac.is_broadcast_spec(),
                None => dst.is_limited_broadcast() || directed == Some(dst),
            },
        }
    }

    /// Whether the packet is an IPv4 broadcast on a link whose directed broadcast is `directed`.
    pub fn is_broadcast(&self, directed: Option<Ipv4Addr>) -> (r: bool)
        ensures
            r == self.is_broadcast_spec(directed),
    {
        match self.dest.ip {
            IpAddr::V6(_) => false,
            IpAddr::V4(dst) => {
                if dst.is_multicast() {
                    false
                } else {
                    match self.dst_mac {
                        Some(mac) => mac.is_broadcast(),
                        None => dst.bits == 0xffff_ffff || directed == Some(dst),
                    }
                }
            },
        }
    }
}

/// Why no datagram can be addressed.
#[derive(Clone, Copy, PartialEq, Eq, Structural, Debug)]
pub enum DatagramError {
    /// A unicast destination has no hardware address that follows from it.
    UnicastDestination,
}

/// The number of the hardware address that a broadcast or multicast destination maps to on a link
/// whose directed broadcast is `directed`, or `None` for a unicast destination. A group keeps its
/// low 23 bits under 01:00:5e (IPv4) or its low 32 bits under 33:33 (IPv6).
pub open spec fn group_mac_bits(dst: IpAddr, directed: Option<Ipv4Addr>) -> Option<int> {
    match dst {
        IpAddr::V4(v4) => if v4.is_limited_broadcast() || directed == Some(v4) {
            Some(0xffff_ffff_ffff)
        } else if v4.is_group() {
            Some(0x0100_5e00_0000 + v4.bits % 0x80_0000)
        } else {
            None
        },
        IpAddr::V6(v6) => if v6.is_group() {
            Some(0x3333_0000_0000 + v6.bits % 0x1_0000_0000)
        } else {
            None
        },
    }
}

/// The hardware destination of a broadcast or multicast datagram to `dst`, on a link whose directed
/// broadcast is `directed`.
pub fn ethernet_dst(dst: IpAddr, directed: Option<Ipv4Addr>) -> (r: Result<MacAddr, DatagramError>)
    ensures
        match group_mac_bits(dst, directed) {
            Some(bits) => r is Ok && r->Ok_0.bits() == bits,
            None => r == Err::<MacAddr, DatagramError>(DatagramError::UnicastDestination),
        },
{
    match dst {
        IpAddr::V4(v4) => {
            if v4.bits == 0xffff_ffff || directed == Some(v4) {
                Ok(MacAddr::broadcast())
            } else if v4.is_multicast() {
                Ok(MacAddr { bits: 0x0100_5e00_0000 + (v4.bits % 0x80_0000) as u64 })
            } else {
                Err(DatagramError::UnicastDestination)
            }
        },
        IpAddr::V6(v6) => {
            if v6.is_multicast() {
                Ok(MacAddr { bits: 0x3333_0000_0000 + (v6.bits % 0x1_0000_0000) as u64 })
            } else {
                Err(DatagramError::UnicastDestination)
            }
        },
    }
}

proof fn lemma_low_octet(x: int, u: u8, y: int, v: u8)
    requires
        x * 0x100 + u == y * 0x100 + v,
    ensures
        x == y,
        u == v,
{
}

/// Six octets are read back from the number they spell: two spellings of one hardware address are
/// the same octets, so writing an address out and reading it in again changes nothing.
pub proof fn law_octets_identify_a_mac(a: Seq<u8>, b: Seq<u8>)
    requires
        a.len() == 6,
        b.len() == 6,
        octets_value(a) == octets_value(b),
    ensures
        a == b,
{
    let (a1, b1) = (a[0] * 0x100 + a[1], b[0] * 0x100 + b[1]);
    let (a2, b2) = (a1 * 0x100 + a[2], b1 * 0x100 + b[2]);
    let (a3, b3) = (a2 * 0x100 + a[3], b2 * 0x100 + b[3]);
    let (a4, b4) = (a3 * 0x100 + a[4], b3 * 0x100 + b[4]);
    assert(octets_value(a) == a4 * 0x100 + a[5]);
    assert(octets_value(b) == b4 * 0x100 + b[5]);
    lemma_low_octet(a4, a[5], b4, b[5]);
    lemma_low_octet(a3, a[4], b3, b[4]);
    lemma_low_octet(a2, a[3], b2, b[3]);
    lemma_low_octet(a1, a[2], b1, b[2]);
    lemma_low_octet(a[0] as int, a[1], b[0] as int, b[1]);
    assert(a =~= b);
}

/// A hardware address is its number: two with the same number are one address.
pub proof fn law_the_number_identifies_a_mac(a: MacAddr, b: MacAddr)
    ensures
        a.bits() == b.bits() <==> a == b,
{
}

/// A destination whose hardware address follows from it is either a broadcast there or a group, and
/// only the all-ones address is ever shared by the two kinds of broadcast.
pub proof fn law_only_broadcasts_use_the_all_ones_mac(dst: IpAddr, directed: Option<Ipv4Addr>)
    ensures
        group_mac_bits(dst, directed) == Some(0xffff_ffff_ffffint) <==> match dst {
            IpAddr::V4(v4) => v4.is_limited_broadcast() || directed == Some(v4),
            IpAddr::V6(_) => false,
        },
{
}

proof fn lemma_last_octet(x: int, u: u8)
    requires
        0 <= x,
    ensures
        (x * 0x100 + u) / 0x100 == x,
        (x * 0x100 + u) % 0x100 == u,
{
}

/// A hardware address's number holds its octets in the order a frame carries them, the first in the
/// highest place: each octet can be read off the number at its own place, and nothing stands above them.
pub proof fn law_each_octet_stands_at_its_place(octets: Seq<u8>)
    requires
        octets.len() == 6,
    ensures
        octets_value(octets) % 0x100 == octets[5],
        octets_value(octets) / 0x100 % 0x100 == octets[4],
        octets_value(octets) / 0x1_0000 % 0x100 == octets[3],
        octets_value(octets) / 0x100_0000 % 0x100 == octets[2],
        octets_value(octets) / 0x1_0000_0000 % 0x100 == octets[1],
        octets_value(octets) / 0x100_0000_0000 == octets[0],
        0 <= octets_value(octets) < MAC_LIMIT,
{
    let a1 = octets[0] * 0x100 + octets[1];
    let a2 = a1 * 0x100 + octets[2];
    let a3 = a2 * 0x100 + octets[3];
    let a4 = a3 * 0x100 + octets[4];
    let value = octets_value(octets);
    assert(value == a4 * 0x100 + octets[5]);
    lemma_last_octet(octets[0] as int, octets[1]);
    lemma_last_octet(a1, octets[2]);
    lemma_last_octet(a2, octets[3]);
    lemma_last_octet(a3, octets[4]);
    lemma_last_octet(a4, octets[5]);
    assert(value / 0x1_0000 == value / 0x100 / 0x100);
    assert(value / 0x100_0000 == value / 0x1_0000 / 0x100);
    assert(value / 0x1_0000_0000 == value / 0x100_0000 / 0x100);
    assert(value / 0x100_0000_0000 == value / 0x1_0000_0000 / 0x100);
}

/// The broadcast address is the one whose six octets are all ff, and the unspecified one that whose six
/// octets are all 0.
pub proof fn law_broadcast_is_all_ones(mac: MacAddr, octets: Seq<u8>)
    requires
        octets.len() == 6,
        octets_value(octets) == mac.bits(),
    ensures
        mac.is_broadcast_spec() <==> forall|i: int| 0 <= i < 6 ==> #[trigger] octets[i] == 0xff,
        mac.bits() == 0 <==> forall|i: int| 0 <= i < 6 ==> #[trigger] octets[i] == 0,
{
    law_each_octet_stands_at_its_place(octets);
    if forall|i: int| 0 <= i < 6 ==> #[trigger] octets[i] == 0xff {
        assert(octets[0] == 0xff && octets[1] == 0xff && octets[2] == 0xff && octets[3] == 0xff
            && octets[4] == 0xff && octets[5] == 0xff);
    }
    if forall|i: int| 0 <= i < 6 ==> #[trigger] octets[i] == 0 {
        assert(octets[0] == 0 && octets[1] == 0 && octets[2] == 0 && octets[3] == 0 && octets[4] == 0
            && octets[5] == 0);
    }
}

/// The IPv4 groups are the addresses whose first octet is 224 to 239, and the limited broadcast is the one
/// of four octets 255; no address is both.
pub proof fn law_the_first_octet_makes_a_v4_group(addr: Ipv4Addr, a: u8, b: u8, c: u8, d: u8)
    requires
        addr.bits == a * 0x100_0000 + b * 0x1_0000 + c * 0x100 + d,
    ensures
        addr.is_group() <==> 224 <= a <= 239,
        addr.is_limited_broadcast() <==> a == 255 && b == 255 && c == 255 && d == 255,
        !(addr.is_group() && addr.is_limited_broadcast()),
{
}

/// The IPv6 groups are the addresses whose first octet is ff.
pub proof fn law_the_first_octet_makes_a_v6_group(addr: Ipv6Addr)
    ensures
        addr.is_group() <==> addr.bits / 0x1_0000_0000_0000_0000_0000_0000_0000_00 == 0xff,
{
}

/// An IPv6 packet and a packet to a group are no broadcast, whatever their hardware address.
pub proof fn law_groups_and_ipv6_are_never_broadcast(p: Packet, directed: Option<Ipv4Addr>)
    ensures
        p.dest.ip is V6 ==> !p.is_broadcast_spec(directed),
        p.dest.ip matches IpAddr::V4(dst) && 0xe000_0000 <= dst.bits <= 0xefff_ffff
            ==> !p.is_broadcast_spec(directed),
{
}

/// Where a frame carries a destination hardware address that address alone decides, for every IPv4
/// destination that is no group: all ones is a broadcast, and any other is none, even to a broadcast
/// address. The link's directed broadcast does not come into it.
pub proof fn law_the_frame_decides_a_broadcast(
    p: Packet,
    dst: Ipv4Addr,
    mac: MacAddr,
    directed: Option<Ipv4Addr>,
    other: Option<Ipv4Addr>,
)
    requires
        p.dest.ip == IpAddr::V4(dst),
        !(0xe000_0000 <= dst.bits <= 0xefff_ffff),
        p.dst_mac == Some(mac),
    ensures
        p.is_broadcast_spec(directed) <==> mac.bits() == 0xffff_ffff_ffff,
        p.is_broadcast_spec(directed) == p.is_broadcast_spec(other),
{
}

/// Where a frame carries none the address decides: the limited broadcast always is one, the link's directed
/// broadcast is one there, and no other address is.
pub proof fn law_without_a_frame_the_address_decides_a_broadcast(
    p: Packet,
    dst: Ipv4Addr,
    directed: Option<Ipv4Addr>,
)
    requires
        p.dest.ip == IpAddr::V4(dst),
        !(0xe000_0000 <= dst.bits <= 0xefff_ffff),
        p.dst_mac is None,
    ensures
        dst.bits == 0xffff_ffff ==> p.is_broadcast_spec(directed),
        directed == Some(dst) ==> p.is_broadcast_spec(directed),
        dst.bits != 0xffff_ffff && directed != Some(dst) ==> !p.is_broadcast_spec(directed),
{
}

/// The hardware address of an IPv4 group `a.b.c.d` is 01:00:5e, then the low seven bits of `b`, `c` and `d`,
/// unless the group is taken for the link's directed broadcast.
pub proof fn law_a_v4_group_keeps_its_low_bits(
    addr: Ipv4Addr,
    a: u8,
    b: u8,
    c: u8,
    d: u8,
    directed: Option<Ipv4Addr>,
)
    requires
        addr.bits == a * 0x100_0000 + b * 0x1_0000 + c * 0x100 + d,
        224 <= a <= 239,
        directed != Some(addr),
    ensures
        group_mac_bits(IpAddr::V4(addr), directed) == Some(
            octets_value(seq![0x01u8, 0x00u8, 0x5eu8, (b % 0x80) as u8, c, d]),
        ),
{
    assert(addr.bits % 0x80_0000 == (b % 0x80) * 0x1_0000 + c * 0x100 + d);
}

/// The hardware address of an IPv6 group is 33:33, then its last four octets, on every link.
pub proof fn law_a_v6_group_keeps_its_last_octets(
    addr: Ipv6Addr,
    w: u8,
    x: u8,
    y: u8,
    z: u8,
    directed: Option<Ipv4Addr>,
)
    requires
        addr.bits >= 0xff00_0000_0000_0000_0000_0000_0000_0000,
        addr.bits % 0x1_0000_0000 == w * 0x100_0000 + x * 0x1_0000 + y * 0x100 + z,
    ensures
        group_mac_bits(IpAddr::V6(addr), directed) == Some(
            octets_value(seq![0x33u8, 0x33u8, w, x, y, z]),
        ),
{
}

/// A destination that is neither a group nor a broadcast on the link has no hardware address that follows
/// from it.
pub proof fn law_a_unicast_destination_has_no_group_mac(dst: IpAddr, directed: Option<Ipv4Addr>)
    ensures
        group_mac_bits(dst, directed) is None <==> match dst {
            IpAddr::V4(v4) => v4.bits != 0xffff_ffff && directed != Some(v4) && (v4.bits < 0xe000_0000
                || v4.bits > 0xefff_ffff),
            IpAddr::V6(v6) => v6.bits < 0xff00_0000_0000_0000_0000_0000_0000_0000,
        },
{
}

/// Both kinds of broadcast go to the all-ones hardware address, and a directed broadcast of one link is an
/// ordinary address on another.
pub proof fn law_a_broadcast_goes_to_everyone(v4: Ipv4Addr, directed: Option<Ipv4Addr>)
    ensures
        v4.bits == 0xffff_ffff || directed == Some(v4) ==> group_mac_bits(IpAddr::V4(v4), directed)
            == Some(octets_value(seq![0xffu8, 0xffu8, 0xffu8, 0xffu8, 0xffu8, 0xffu8])),
        v4.bits < 0xe000_0000 ==> group_mac_bits(IpAddr::V4(v4), None) is None,
{
}

}
