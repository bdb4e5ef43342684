//! Forwarding rules and their expansion into listen/destination pairs.

use vstd::prelude::*;

use crate::address::{Address, Port};
use crate::connect::ConnectOpts;
use crate::net::{IpAddress, PortRange, SocketAddress};
use crate::parse::ParseMappingError;

verus! {

/// One listen address and the destination that its connections are sent to.
pub type Pair = (SocketAddress, SocketAddress);

/// The shape of a forwarding rule.
#[derive(Clone, Copy, Debug, PartialEq, Eq, Structural)]
pub enum MappingKind {
    /// One listen address, one destination.
    OneToOne { from: SocketAddress, to: SocketAddress },
    /// A range of listen ports on one address, all sent to one destination.
    ManyToOne { from_ip: IpAddress, from_ports: PortRange, to: SocketAddress },
    /// Two port ranges of one length, paired offset by offset.
    ManyToMany {
        from_ip: IpAddress,
        from_port_range_start: u16,
        to_ip: IpAddress,
        to_port_range_start: u16,
        port_range_len: u16,
    },
}

/// A forwarding rule: its shape, and how its destination is connected to.
#[derive(Clone, Copy, Debug, PartialEq, Eq, Structural)]
pub struct Mapping {
    pub kind: MappingKind,
    pub opts: ConnectOpts,
}

/// The shape of the rule that forwards `from` to `to`.
///
/// A port to a port is a one-to-one rule, a range to a port a many-to-one
/// rule, and a range to a range of the same length a many-to-many rule. Two
/// ranges of different lengths make no rule, nor does a port to a range.
pub open spec fn kind_of(from: Address, to: Address) -> Result<MappingKind, ParseMappingError> {
    match (from.port, to.port) {
        (Port::Single(from_port), Port::Single(to_port)) => Ok(
            MappingKind::OneToOne {
                from: SocketAddress { ip: from.ip, port: from_port },
                to: SocketAddress { ip: to.ip, port: to_port },
            },
        ),
        (Port::Range(from_ports), Port::Single(to_port)) => Ok(
            MappingKind::ManyToOne {
                from_ip: from.ip,
                from_ports,
                to: SocketAddress { ip: to.ip, port: to_port },
            },
        ),
        (Port::Range(from_ports), Port::Range(to_ports)) => if from_ports.spec_len()
            != to_ports.spec_len() {
            Err(ParseMappingError::InvalidPortRanges)
        } else {
            Ok(
                MappingKind::ManyToMany {
                    from_ip: from.ip,
                    from_port_range_start: from_ports.start,
                    to_ip: to.ip,
                    to_port_range_start: to_ports.start,
                    port_range_len: from_ports.spec_len() as u16,
                },
            )
        },
        (Port::Single(_), Port::Range(_)) => Err(ParseMappingError::InvalidMappingType),
    }
}

/// Two ranges of different lengths make no rule: the attempt fails with the
/// error that says so.
pub proof fn lemma_unequal_ranges_make_no_rule(
    from_ip: IpAddress,
    from_ports: PortRange,
    to_ip: IpAddress,
    to_ports: PortRange,
)
    requires
        from_ports.spec_len() != to_ports.spec_len(),
    ensures
        kind_of(
            Address { ip: from_ip, port: Port::Range(from_ports) },
            Address { ip: to_ip, port: Port::Range(to_ports) },
        ) == Err::<MappingKind, ParseMappingError>(ParseMappingError::InvalidPortRanges),
{
}

/// Every rule that two addresses make keeps within the port space, and
/// expands to as many pairs as its listen address has ports.
pub proof fn lemma_kind_of_is_wf(from: Address, to: Address)
    requires
        kind_of(from, to) is Ok,
    ensures
        kind_of(from, to).unwrap().wf(),
        kind_of(from, to).unwrap().spec_len() == from.port.spec_len(),
        kind_of(from, to).unwrap().spec_upstream() == to.ip,
{
}

impl MappingKind {
    /// The shape of the rule that forwards `from` to `to`.
    pub fn from_addresses(from: &Address, to: &Address) -> (r: Result<
        MappingKind,
        ParseMappingError,
    >)
        ensures
            r == kind_of(*from, *to),
            r is Ok ==> r.unwrap().wf(),
    {
        match (from.port, to.port) {
            (Port::Single(from_port), Port::Single(to_port)) => Ok(
                MappingKind::OneToOne {
                    from: SocketAddress::new(from.ip, from_port),
                    to: SocketAddress::new(to.ip, to_port),
                },
            ),
            (Port::Range(from_ports), Port::Single(to_port)) => Ok(
                MappingKind::ManyToOne {
                    from_ip: from.ip,
                    from_ports,
                    to: SocketAddress::new(to.ip, to_port),
                },
            ),
            (Port::Range(from_ports), Port::Range(to_ports)) => {
                if from_ports.len() != to_ports.len() {
                    Err(ParseMappingError::InvalidPortRanges)
                } else {
                    Ok(
                        MappingKind::ManyToMany {
                            from_ip: from.ip,
                            from_port_range_start: from_ports.start,
                            to_ip: to.ip,
                            to_port_range_start: to_ports.start,
                            port_range_len: from_ports.len(),
                        },
                    )
                }
            },
            (Port::Single(_), Port::Range(_)) => Err(ParseMappingError::InvalidMappingType),
        }
    }
}

impl MappingKind {
    /// Both ranges of a many-to-many rule stay within the 16-bit port space.
    pub open spec fn wf(&self) -> bool {
        match *self {
            MappingKind::ManyToMany {
                from_port_range_start,
                to_port_range_start,
                port_range_len,
                ..
            } => {
                &&& from_port_range_start + port_range_len <= 0x1_0000
                &&& to_port_range_start + port_range_len <= 0x1_0000
            },
            _ => true,
        }
    }

    /// The number of pairs that the rule expands to.
    pub open spec fn spec_len(&self) -> nat {
        match *self {
            MappingKind::OneToOne { .. } => 1,
            MappingKind::ManyToOne { from_ports, .. } => from_ports.spec_len(),
            MappingKind::ManyToMany { port_range_len, .. } => port_range_len as nat,
        }
    }

    /// The pair at offset `i` of the expansion.
    pub open spec fn spec_pair(&self, i: int) -> Pair {
        match *self {
            MappingKind::OneToOne { from, to } => (from, to),
            MappingKind::ManyToOne { from_ip, from_ports, to } => (
                SocketAddress { ip: from_ip, port: (from_ports.start + i) as u16 },
                to,
            ),
            MappingKind::ManyToMany {
                from_ip,
                from_port_range_start,
                to_ip,
                to_port_range_start,
                ..
            } => (
                SocketAddress { ip: from_ip, port: (from_port_range_start + i) as u16 },
                SocketAddress { ip: to_ip, port: (to_port_range_start + i) as u16 },
            ),
        }
    }

    /// The expansion: every pair of the rule, by ascending offset.
    pub open spec fn spec_pairs(&self) -> Seq<Pair> {
        Seq::new(self.spec_len(), |i: int| self.spec_pair(i))
    }

    /// The address of the host that the rule forwards to.
    pub open spec fn spec_upstream(&self) -> IpAddress {
        match *self {
            MappingKind::OneToOne { to, .. } => to.ip,
            MappingKind::ManyToOne { to, .. } => to.ip,
            MappingKind::ManyToMany { to_ip, .. } => to_ip,
        }
    }

    /// The address of the host that the rule forwards to.
    pub fn upstream(&self) -> (ip: IpAddress)
        ensures
            ip == self.spec_upstream(),
    {
        match self {
            MappingKind::OneToOne { to, .. } => to.ip,
            MappingKind::ManyToOne { to, .. } => to.ip,
            MappingKind::ManyToMany { to_ip, .. } => *to_ip,
        }
    }

    /// Whether both ranges of the rule stay within the port space.
    pub fn is_wf(&self) -> (r: bool)
        ensures
            r == self.wf(),
    {
        match self {
            MappingKind::ManyToMany {
                from_port_range_start,
                to_port_range_start,
                port_range_len,
                ..
            } => {
                let len: u32 = *port_range_len as u32;
                *from_port_range_start as u32 + len <= 0x1_0000
                    && *to_port_range_start as u32 + len <= 0x1_0000
            },
            _ => true,
        }
    }

    /// The number of pairs that the rule expands to.
    pub fn len(&self) -> (n: usize)
        ensures
            n == self.spec_len(),
    {
        match self {
            MappingKind::OneToOne { .. } => 1,
            MappingKind::ManyToOne { from_ports, .. } => from_ports.len() as usize,
            MappingKind::ManyToMany { port_range_len, .. } => *port_range_len as usize,
        }
    }

    /// The pair at offset `i` of the expansion.
    pub fn pair(&self, i: usize) -> (p: Pair)
        requires
            self.wf(),
            i < self.spec_len(),
        ensures
            p == self.spec_pair(i as int),
            p == self.spec_pairs()[i as int],
    {
        match self {
            MappingKind::OneToOne { from, to } => (*from, *to),
            MappingKind::ManyToOne { from_ip, from_ports, to } => (
                SocketAddress::new(*from_ip, from_ports.start + i as u16),
                *to,
            ),
            MappingKind::ManyToMany {
                from_ip,
                from_port_range_start,
                to_ip,
                to_port_range_start,
                ..
            } => (
                SocketAddress::new(*from_ip, *from_port_range_start + i as u16),
                SocketAddress::new(*to_ip, *to_port_range_start + i as u16),
            ),
        }
    }

    /// Expands the rule into its pairs, by ascending offset.
    pub fn pairs(&self) -> (out: Vec<Pair>)
        requires
            self.wf(),
        ensures
            out@ == self.spec_pairs(),
    {
        let n = self.len();
        let mut out: Vec<Pair> = Vec::new();
        let mut i: usize = 0;
        while i < n
            invariant
                self.wf(),
                n == self.spec_len(),
                i <= n,
                out@ == self.spec_pairs().take(i as int),
            decreases n - i,
        {
            let p = self.pair(i);
            out.push(p);
            i += 1;
        }
        out
    }
}

/// A many-to-one rule over the ports from `a` up to but excluding `b` expands
/// to exactly `b - a` pairs. Every pair has the rule's destination, the listen
/// ports ascend by one from `a`, and each port of the range is the listen port
/// of exactly one pair.
pub proof fn lemma_many_to_one_expansion(from_ip: IpAddress, a: u16, b: u16, to: SocketAddress)
    requires
        a <= b,
    ensures
        ({
            let kind = MappingKind::ManyToOne {
                from_ip,
                from_ports: PortRange { start: a, end: b },
                to,
            };
            let pairs = kind.spec_pairs();
            &&& kind.wf()
            &&& pairs.len() == b - a
            &&& forall|i: int|
                0 <= i < pairs.len() ==> #[trigger] pairs[i] == (
                    SocketAddress { ip: from_ip, port: (a + i) as u16 },
                    to,
                )
            &&& forall|i: int, j: int|
                0 <= i < j < pairs.len() ==> (#[trigger] pairs[i]).0.port < (#[trigger] pairs[j]).0.port
            &&& forall|p: u16| a <= p < b ==> (#[trigger] pairs[p - a]).0.port == p
            &&& forall|i: int| 0 <= i < pairs.len() ==> a <= (#[trigger] pairs[i]).0.port < b
        }),
{
}

/// A many-to-many rule of length `len` expands to exactly `len` pairs, none
/// where `len` is zero. The pair at offset `i` listens on the `i`-th port of
/// the first range and forwards to the `i`-th port of the second, so the ports
/// ascend in step on both sides.
pub proof fn lemma_many_to_many_expansion(
    from_ip: IpAddress,
    from_start: u16,
    to_ip: IpAddress,
    to_start: u16,
    len: u16,
)
    requires
        from_start + len <= 0x1_0000,
        to_start + len <= 0x1_0000,
    ensures
        ({
            let kind = MappingKind::ManyToMany {
                from_ip,
                from_port_range_start: from_start,
                to_ip,
                to_port_range_start: to_start,
                port_range_len: len,
            };
            let pairs = kind.spec_pairs();
            &&& kind.wf()
            &&& pairs.len() == len
            &&& len == 0 ==> pairs == Seq::<Pair>::empty()
            &&& forall|i: int|
                0 <= i < len ==> #[trigger] pairs[i] == (
                    SocketAddress { ip: from_ip, port: (from_start + i) as u16 },
                    SocketAddress { ip: to_ip, port: (to_start + i) as u16 },
                )
            &&& forall|i: int|
                0 <= i < len ==> (#[trigger] pairs[i]).0.port == from_start + i && pairs[i].1.port
                    == to_start + i
            &&& forall|i: int, j: int|
                0 <= i < j < len ==> (#[trigger] pairs[i]).0.port < (#[trigger] pairs[j]).0.port
                    && pairs[i].1.port < pairs[j].1.port
        }),
{
    let kind = MappingKind::ManyToMany {
        from_ip,
        from_port_range_start: from_start,
        to_ip,
        to_port_range_start: to_start,
        port_range_len: len,
    };
    if len == 0 {
        assert(kind.spec_pairs() =~= Seq::<Pair>::empty());
    }
}

/// A one-to-one rule expands to its own pair and nothing else.
pub proof fn lemma_one_to_one_expansion(from: SocketAddress, to: SocketAddress)
    ensures
        (MappingKind::OneToOne { from, to }).spec_pairs() == seq![(from, to)],
{
    assert((MappingKind::OneToOne { from, to }).spec_pairs() =~= seq![(from, to)]);
}

} // verus!
