//! Upstream hosts: their wake-on-LAN identity and the packet that wakes them.

use vstd::prelude::*;

use crate::connect::{ConnectOpts, Connector, Phase};
use crate::hardware_addr::HardwareAddr;
use crate::net::{IpAddress, SocketAddress};

verus! {

/// The UDP port that wake packets are sent to.
pub const WAKE_PORT: u16 = 9;

/// The length of a wake packet in bytes.
pub const WAKE_PACKET_LEN: usize = 102;

/// A destination host: where it is reached and how it is woken.
#[derive(Clone, Copy, Debug, PartialEq, Eq)]
pub struct Upstream {
    /// The hardware address that the wake packet names.
    pub mac: HardwareAddr,
    /// The address that connections are made to.
    pub address: IpAddress,
    /// The address that the wake packet is sent to.
    pub broadcast: IpAddress,
}

/// The wake packet for the hardware address `mac`: six bytes `0xff`, then the
/// six octets of `mac` sixteen times over.
pub open spec fn magic_packet(mac: Seq<u8>) -> Seq<u8>
    recommends
        mac.len() == 6,
{
    Seq::new(
        102,
        |i: int|
            if i < 6 {
                0xffu8
            } else {
                mac[(i - 6) % 6]
            },
    )
}

/// The wake packet is a six-byte preamble followed by sixteen copies of the
/// hardware address, 102 bytes in all.
pub proof fn lemma_magic_packet_layout(mac: Seq<u8>)
    requires
        mac.len() == 6,
    ensures
        magic_packet(mac).len() == 102,
        magic_packet(mac).subrange(0, 6) == seq![0xffu8, 0xffu8, 0xffu8, 0xffu8, 0xffu8, 0xffu8],
        forall|k: int|
            0 <= k < 16 ==> #[trigger] magic_packet(mac).subrange(6 + 6 * k, 12 + 6 * k) == mac,
{
    let p = magic_packet(mac);
    assert(p.subrange(0, 6) =~= seq![0xffu8, 0xffu8, 0xffu8, 0xffu8, 0xffu8, 0xffu8]);
    assert forall|k: int| 0 <= k < 16 implies #[trigger] p.subrange(6 + 6 * k, 12 + 6 * k)
        == mac by {
        let part = p.subrange(6 + 6 * k, 12 + 6 * k);
        assert forall|j: int| 0 <= j < 6 implies part[j] == mac[j] by {
            assert(part[j] == p[6 + 6 * k + j]);
            assert((6 * k + j) % 6 == j) by (nonlinear_arith)
                requires
                    0 <= j < 6,
                    0 <= k,
            ;
        }
        assert(part =~= mac);
    }
}

/// Builds the wake packet for the hardware address `mac`.
pub fn wake_packet(mac: &HardwareAddr) -> (packet: Vec<u8>)
    ensures
        packet@ == magic_packet(mac@),
        packet@.len() == WAKE_PACKET_LEN,
{
    let octets = mac.octets();
    let mut packet: Vec<u8> = Vec::with_capacity(WAKE_PACKET_LEN);
    let mut i: usize = 0;
    while i < 6
        invariant
            i <= 6,
            packet@.len() == i,
            forall|j: int| 0 <= j < i ==> packet@[j] == 0xffu8,
        decreases 6 - i,
    {
        packet.push(0xff);
        i += 1;
    }
    let mut round: usize = 0;
    while round < 16
        invariant
            round <= 16,
            octets@ == mac@,
            octets@.len() == 6,
            packet@.len() == 6 + 6 * round,
            forall|j: int| 0 <= j < packet@.len() ==> packet@[j] == magic_packet(mac@)[j],
        decreases 16 - round,
    {
        let mut k: usize = 0;
        while k < 6
            invariant
                k <= 6,
                round < 16,
                octets@ == mac@,
                octets@.len() == 6,
                packet@.len() == 6 + 6 * round + k,
                forall|j: int| 0 <= j < packet@.len() ==> packet@[j] == magic_packet(mac@)[j],
            decreases 6 - k,
        {
            assert((6 * round + k) % 6 == k) by (nonlinear_arith)
                requires
                    0 <= k < 6,
                    0 <= round,
            ;
            packet.push(octets[k]);
            k += 1;
        }
        round += 1;
    }
    assert(packet@ =~= magic_packet(mac@));
    packet
}

impl Upstream {
    /// The packet that wakes this host.
    pub fn wake_packet(&self) -> (packet: Vec<u8>)
        ensures
            packet@ == magic_packet(self.mac@),
    {
        wake_packet(&self.mac)
    }

    /// The local address that the wake packet is sent from: the wildcard
    /// address of the host's family, with a port that the system picks.
    pub fn wake_source(&self) -> (addr: SocketAddress)
        ensures
            addr == (SocketAddress { ip: self.address.spec_unspecified(), port: 0 }),
    {
        SocketAddress::new(self.address.unspecified(), 0)
    }

    /// Where the wake packet is sent to: the host's broadcast address, port 9.
    pub fn wake_target(&self) -> (addr: SocketAddress)
        ensures
            addr == (SocketAddress { ip: self.broadcast, port: WAKE_PORT }),
    {
        SocketAddress::new(self.broadcast, WAKE_PORT)
    }

    /// A connector for the port `port` of this host, about to make the
    /// direct attempt.
    pub open spec fn spec_connector(&self, port: u16, opts: ConnectOpts) -> Connector {
        Connector {
            target: SocketAddress { ip: self.address, port },
            opts,
            phase: Phase::Probing,
            failures: 0,
        }
    }

    /// Starts an attempt to connect to the port `port` of this host. The
    /// connector that comes back decides what is done; see [`Connector`].
    pub fn connect(&self, port: u16, opts: &ConnectOpts) -> (c: Connector)
        ensures
            c == self.spec_connector(port, *opts),
            c.wf(),
            c.spec_action() == crate::connect::Action::Connect,
    {
        Connector::new(self.target(port), *opts)
    }

    /// The address that a connection to `port` of this host is made to.
    pub fn target(&self, port: u16) -> (addr: SocketAddress)
        ensures
            addr == (SocketAddress { ip: self.address, port }),
    {
        SocketAddress::new(self.address, port)
    }
}

/// The index of the first of `records` with the address `ip`, and the
/// length of `records` where there is none.
pub open spec fn index_of(records: Seq<Upstream>, ip: IpAddress) -> int
    decreases records.len(),
{
    if records.len() == 0 {
        0
    } else if records[0].address == ip {
        0
    } else {
        1 + index_of(records.skip(1), ip)
    }
}

/// Whether one of `records` has the address `ip`.
pub open spec fn known(records: Seq<Upstream>, ip: IpAddress) -> bool {
    index_of(records, ip) < records.len()
}

/// Whether no two of `records` have the same address.
pub open spec fn distinct(records: Seq<Upstream>) -> bool {
    forall|i: int, j: int|
        0 <= i < j < records.len() ==> (#[trigger] records[i]).address != (
        #[trigger] records[j]).address
}

/// `index_of` names the first record with the address: none before it has
/// it, and it has it itself unless it is the end of the records.
pub proof fn lemma_index_of(records: Seq<Upstream>, ip: IpAddress)
    ensures
        0 <= index_of(records, ip) <= records.len(),
        forall|j: int| 0 <= j < index_of(records, ip) ==> (#[trigger] records[j]).address != ip,
        index_of(records, ip) < records.len() ==> records[index_of(records, ip)].address == ip,
    decreases records.len(),
{
    if records.len() > 0 && records[0].address != ip {
        let rest = records.skip(1);
        lemma_index_of(rest, ip);
        assert forall|j: int| 0 <= j < index_of(records, ip) implies (
        #[trigger] records[j]).address != ip by {
            if j > 0 {
                assert(records[j] == rest[j - 1]);
            }
        }
        if index_of(records, ip) < records.len() {
            assert(rest[index_of(rest, ip)] == records[index_of(records, ip)]);
        }
    }
}

/// An index is the first record with the address as soon as it has the
/// address and none before it does.
pub proof fn lemma_index_of_is(records: Seq<Upstream>, ip: IpAddress, i: int)
    requires
        0 <= i <= records.len(),
        forall|j: int| 0 <= j < i ==> (#[trigger] records[j]).address != ip,
        i < records.len() ==> records[i].address == ip,
    ensures
        index_of(records, ip) == i,
{
    lemma_index_of(records, ip);
    let p = index_of(records, ip);
    if p < i {
        assert(records[p].address == ip);
    }
}

/// Whether the record at `j` is the first of `records` to repeat the address
/// of a record before it.
pub open spec fn first_repeat(records: Seq<Upstream>, j: int) -> bool {
    &&& 0 <= j < records.len()
    &&& distinct(records.take(j))
    &&& index_of(records.take(j), records[j].address) < j
}

/// Records are distinct exactly as long as none repeats an earlier address.
pub proof fn lemma_first_repeat(records: Seq<Upstream>, j: int)
    requires
        first_repeat(records, j),
    ensures
        !distinct(records),
        forall|k: int| first_repeat(records, k) ==> k == j,
{
    let ip = records[j].address;
    lemma_index_of(records.take(j), ip);
    let i = index_of(records.take(j), ip);
    assert(records.take(j)[i] == records[i]);
    assert(records[i].address == records[j].address);
    assert forall|k: int| first_repeat(records, k) implies k == j by {
        let kip = records[k].address;
        lemma_index_of(records.take(k), kip);
        let ki = index_of(records.take(k), kip);
        assert(records.take(k)[ki] == records[ki]);
        if k < j {
            assert(records.take(j)[ki] == records[ki]);
            assert(records.take(j)[k] == records[k]);
        } else if j < k {
            assert(records.take(k)[i] == records[i]);
            assert(records.take(k)[j] == records[j]);
        }
    }
}

/// The hosts that are known, each found by its address.
#[derive(Clone, Debug)]
pub struct Registry {
    pub records: Vec<Upstream>,
}

impl View for Registry {
    type V = Map<IpAddress, Upstream>;

    /// The host of each address that has one.
    open spec fn view(&self) -> Map<IpAddress, Upstream> {
        Map::new(
            |ip: IpAddress| index_of(self.records@, ip) < self.records@.len(),
            |ip: IpAddress| self.records@[index_of(self.records@, ip)],
        )
    }
}

/// Why a host cannot be entered into a registry.
#[derive(Clone, Copy, Debug, PartialEq, Eq, Structural)]
pub enum RegistryError {
    /// A host with this address is entered already.
    DuplicateUpstream(IpAddress),
}

impl Registry {
    /// No two hosts have the same address.
    pub open spec fn wf(&self) -> bool {
        distinct(self.records@)
    }

    /// A registry without hosts.
    pub fn new() -> (r: Registry)
        ensures
            r.wf(),
            r.records@ == Seq::<Upstream>::empty(),
            r@ == Map::<IpAddress, Upstream>::empty(),
    {
        let r = Registry { records: Vec::new() };
        assert(r@ =~= Map::<IpAddress, Upstream>::empty());
        r
    }

    /// The number of hosts.
    pub fn len(&self) -> (n: usize)
        ensures
            n == self.records@.len(),
    {
        self.records.len()
    }

    /// The host with the address `ip`.
    pub fn lookup(&self, ip: IpAddress) -> (r: Option<&Upstream>)
        ensures
            match r {
                Some(host) => self@.dom().contains(ip) && *host == self@[ip] && host.address == ip,
                None => !self@.dom().contains(ip),
            },
    {
        let n = self.records.len();
        let mut i: usize = 0;
        while i < n
            invariant
                n == self.records@.len(),
                i <= n,
                forall|j: int| 0 <= j < i ==> (#[trigger] self.records@[j]).address != ip,
            decreases n - i,
        {
            if self.records[i].address == ip {
                proof {
                    lemma_index_of_is(self.records@, ip, i as int);
                }
                return Some(&self.records[i]);
            }
            i += 1;
        }
        proof {
            lemma_index_of_is(self.records@, ip, n as int);
        }
        None
    }

    /// Whether a host has the address `ip`.
    pub fn contains(&self, ip: IpAddress) -> (r: bool)
        ensures
            r == self@.dom().contains(ip),
    {
        self.lookup(ip).is_some()
    }

    /// Enters `host`, unless a host with its address is entered already.
    pub fn insert(&mut self, host: Upstream) -> (r: Result<(), RegistryError>)
        ensures
            old(self).wf() ==> final(self).wf(),
            match r {
                Ok(_) => {
                    &&& !old(self)@.dom().contains(host.address)
                    &&& final(self).records@ == old(self).records@.push(host)
                    &&& final(self)@ == old(self)@.insert(host.address, host)
                },
                Err(e) => {
                    &&& old(self)@.dom().contains(host.address)
                    &&& e == RegistryError::DuplicateUpstream(host.address)
                    &&& final(self).records@ == old(self).records@
                },
            },
    {
        if self.contains(host.address) {
            return Err(RegistryError::DuplicateUpstream(host.address));
        }
        let ghost before = self.records@;
        self.records.push(host);
        proof {
            let after = self.records@;
            lemma_index_of(before, host.address);
            if old(self).wf() {
                assert forall|i: int, j: int| 0 <= i < j < after.len() implies (
                #[trigger] after[i]).address != (#[trigger] after[j]).address by {
                    if j < before.len() {
                        assert(after[i] == before[i] && after[j] == before[j]);
                    } else {
                        assert(after[i] == before[i]);
                    }
                }
            }
            assert forall|ip: IpAddress|
                index_of(after, ip) == (if ip == host.address {
                    before.len() as int
                } else if index_of(before, ip) < before.len() {
                    index_of(before, ip)
                } else {
                    after.len() as int
                }) by {
                lemma_index_of(before, ip);
                let at = if ip == host.address {
                    before.len() as int
                } else if index_of(before, ip) < before.len() {
                    index_of(before, ip)
                } else {
                    after.len() as int
                };
                assert forall|j: int| 0 <= j < at implies (#[trigger] after[j]).address != ip by {
                    if j < before.len() {
                        assert(after[j] == before[j]);
                    }
                }
                if at < before.len() {
                    assert(after[at] == before[at]);
                }
                lemma_index_of_is(after, ip, at);
            }
            assert forall|ip: IpAddress|
                index_of(before, ip) < before.len() implies #[trigger] after[index_of(before, ip)]
                == before[index_of(before, ip)] by {
                lemma_index_of(before, ip);
            }
            assert(self@ =~= old(self)@.insert(host.address, host));
        }
        Ok(())
    }

    /// Whether no two hosts have the same address.
    pub fn is_wf(&self) -> (r: bool)
        ensures
            r == self.wf(),
    {
        let n = self.records.len();
        let mut j: usize = 0;
        while j < n
            invariant
                n == self.records@.len(),
                j <= n,
                distinct(self.records@.take(j as int)),
            decreases n - j,
        {
            let ip = self.records[j].address;
            let mut i: usize = 0;
            while i < j
                invariant
                    n == self.records@.len(),
                    i <= j < n,
                    ip == self.records@[j as int].address,
                    forall|k: int| 0 <= k < i ==> (#[trigger] self.records@[k]).address != ip,
                decreases j - i,
            {
                if self.records[i].address == ip {
                    return false;
                }
                i += 1;
            }
            proof {
                let seen = self.records@.take(j as int);
                let more = self.records@.take(j + 1);
                assert forall|a: int, b: int| 0 <= a < b < more.len() implies (
                #[trigger] more[a]).address != (#[trigger] more[b]).address by {
                    if b < j {
                        assert(seen[a] == more[a] && seen[b] == more[b]);
                    }
                }
            }
            j += 1;
        }
        assert(self.records@.take(n as int) =~= self.records@);
        true
    }

    /// Makes a registry of `hosts`, unless two of them have one address.
    pub fn from_records(hosts: Vec<Upstream>) -> (r: Result<Registry, RegistryError>)
        ensures
            match r {
                Ok(registry) => distinct(hosts@) && registry.wf() && registry.records@ == hosts@,
                Err(RegistryError::DuplicateUpstream(ip)) => exists|j: int|
                    0 <= j < hosts@.len() && first_repeat(hosts@, j) && (
                    #[trigger] hosts@[j]).address == ip,
            },
    {
        let n = hosts.len();
        let mut registry = Registry::new();
        let mut k: usize = 0;
        while k < n
            invariant
                n == hosts@.len(),
                k <= n,
                registry.wf(),
                registry.records@ == hosts@.take(k as int),
            decreases n - k,
        {
            let ghost before = registry.records@;
            match registry.insert(hosts[k]) {
                Ok(_) => {
                    assert(hosts@.take(k + 1) =~= hosts@.take(k as int).push(hosts@[k as int]));
                },
                Err(e) => {
                    proof {
                        let ip = hosts@[k as int].address;
                        lemma_index_of(before, ip);
                        assert(first_repeat(hosts@, k as int));
                    }
                    return Err(e);
                },
            }
            k += 1;
        }
        assert(hosts@.take(n as int) =~= hosts@);
        Ok(registry)
    }
}

} // verus!
