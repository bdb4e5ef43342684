//! Network addresses as plain values.

use vstd::prelude::*;

verus! {

/// An IP address of either family, held as its big-endian integer value.
#[derive(Clone, Copy, Debug, PartialEq, Eq, Structural, Hash)]
pub enum IpAddress {
    /// An IPv4 address; `127.0.0.1` is `0x7f00_0001`.
    V4(u32),
    /// An IPv6 address; `::1` is `1`.
    V6(u128),
}

impl IpAddress {
    /// Whether this is an IPv4 address.
    pub fn is_ipv4(&self) -> (r: bool)
        ensures
            r == (*self is V4),
    {
        match self {
            IpAddress::V4(_) => true,
            IpAddress::V6(_) => false,
        }
    }

    /// The wildcard address of the same family as `self`.
    pub fn unspecified(&self) -> (r: IpAddress)
        ensures
            r == self.spec_unspecified(),
    {
        match self {
            IpAddress::V4(_) => IpAddress::V4(0),
            IpAddress::V6(_) => IpAddress::V6(0),
        }
    }

    /// The all-zero address of the family of `self`.
    pub open spec fn spec_unspecified(&self) -> IpAddress {
        match *self {
            IpAddress::V4(_) => IpAddress::V4(0),
            IpAddress::V6(_) => IpAddress::V6(0),
        }
    }
}

/// An IP address together with a port.
#[derive(Clone, Copy, Debug, PartialEq, Eq, Structural, Hash)]
pub struct SocketAddress {
    pub ip: IpAddress,
    pub port: u16,
}

impl SocketAddress {
    /// Joins an address and a port.
    pub fn new(ip: IpAddress, port: u16) -> (r: SocketAddress)
        ensures
            r == (SocketAddress { ip, port }),
    {
        SocketAddress { ip, port }
    }
}

/// A run of consecutive ports: `start` and every port after it below `end`.
///
/// A range whose `end` is not above its `start` holds no port.
#[derive(Clone, Copy, Debug, PartialEq, Eq, Structural, Hash)]
pub struct PortRange {
    pub start: u16,
    pub end: u16,
}

impl PortRange {
    /// How many ports the range holds.
    pub open spec fn spec_len(&self) -> nat {
        if self.start <= self.end {
            (self.end - self.start) as nat
        } else {
            0
        }
    }

    /// The ports of the range, ascending.
    pub open spec fn spec_ports(&self) -> Seq<u16> {
        Seq::new(self.spec_len(), |i: int| (self.start + i) as u16)
    }

    /// Whether `port` lies in the range.
    pub open spec fn spec_contains(&self, port: u16) -> bool {
        self.start <= port < self.end
    }

    /// How many ports the range holds.
    pub fn len(&self) -> (n: u16)
        ensures
            n == self.spec_len(),
    {
        if self.start <= self.end {
            self.end - self.start
        } else {
            0
        }
    }

    /// Whether the range holds no port.
    pub fn is_empty(&self) -> (r: bool)
        ensures
            r == (self.spec_len() == 0),
    {
        self.start >= self.end
    }

    /// Whether `port` lies in the range.
    pub fn contains(&self, port: u16) -> (r: bool)
        ensures
            r == self.spec_contains(port),
    {
        self.start <= port && port < self.end
    }

    /// The port at offset `i` from the start of the range.
    pub fn port(&self, i: u16) -> (p: u16)
        requires
            i < self.spec_len(),
        ensures
            p == self.spec_ports()[i as int],
            p == self.start + i,
    {
        self.start + i
    }
}

/// Every port of a range occurs in `spec_ports`, at its offset from the start,
/// and nothing else does.
pub proof fn lemma_ports_cover_range(r: PortRange, port: u16)
    ensures
        r.spec_contains(port) <==> r.spec_ports().contains(port),
        r.spec_contains(port) ==> r.spec_ports()[port - r.start] == port,
{
    let ports = r.spec_ports();
    if r.spec_contains(port) {
        assert(ports[port - r.start] == port);
    }
    if ports.contains(port) {
        let i = choose|i: int| 0 <= i < ports.len() && ports[i] == port;
        assert(ports[i] == (r.start + i) as u16);
    }
}

} // verus!
