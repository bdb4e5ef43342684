//! The forwarder as a whole: the known hosts, the rules, and the tunnels that
//! the rules call for.

use vstd::prelude::*;

use crate::connect::{ConnectOpts, Connector};
use crate::mapping::{Mapping, Pair};
use crate::net::{IpAddress, SocketAddress};
use crate::upstream::{distinct, first_repeat, Registry, RegistryError, Upstream};

verus! {

/// One listener and the destination of everything that it accepts.
#[derive(Clone, Copy, Debug, PartialEq, Eq, Structural)]
pub struct Tunnel {
    /// The address that the listener is bound to.
    pub from: SocketAddress,
    /// The address that each accepted connection is forwarded to.
    pub to: SocketAddress,
    /// How the destination is connected to.
    pub opts: ConnectOpts,
}

/// Why hosts and rules make no forwarder.
#[derive(Clone, Copy, Debug, PartialEq, Eq, Structural)]
pub enum AppError {
    /// Two hosts have this address.
    DuplicateUpstream(IpAddress),
    /// A rule forwards to this address, and no host has it.
    UnknownUpstream(IpAddress),
    /// A rule names ports beyond the last port.
    InvalidPortRange,
    /// There is no rule, and so nothing to forward.
    NoMappings,
}

/// The hosts and the rules of a forwarder.
#[derive(Clone, Debug)]
pub struct App {
    pub upstream: Registry,
    pub mappings: Vec<Mapping>,
}

/// Whether a forwarder with the hosts `hosts` can have the rule `mapping`.
pub open spec fn admits(hosts: Map<IpAddress, Upstream>, mapping: Mapping) -> bool {
    hosts.dom().contains(mapping.kind.spec_upstream()) && mapping.kind.wf()
}

/// The tunnels that the rule `mapping` calls for: one for each pair of its
/// expansion, in the order of the expansion.
pub open spec fn tunnels_of(mapping: Mapping) -> Seq<Tunnel> {
    Seq::new(
        mapping.kind.spec_len(),
        |i: int|
            Tunnel {
                from: mapping.kind.spec_pair(i).0,
                to: mapping.kind.spec_pair(i).1,
                opts: mapping.opts,
            },
    )
}

/// The tunnels that the rules `mappings` call for: those of the first rule,
/// then those of the second, and so on.
pub open spec fn all_tunnels(mappings: Seq<Mapping>) -> Seq<Tunnel>
    decreases mappings.len(),
{
    if mappings.len() == 0 {
        Seq::empty()
    } else {
        all_tunnels(mappings.drop_last()) + tunnels_of(mappings.last())
    }
}

impl App {
    /// No two hosts share an address, every rule forwards to a known host,
    /// and every rule keeps within the port space.
    pub open spec fn wf(&self) -> bool {
        &&& self.upstream.wf()
        &&& forall|k: int|
            0 <= k < self.mappings@.len() ==> admits(self.upstream@, #[trigger] self.mappings@[k])
    }

    /// Makes a forwarder of hosts and rules.
    ///
    /// The hosts are taken in first: the first that repeats the address of an
    /// earlier one is refused. Then the rules are gone through in order: the
    /// first that forwards to an unknown host, or else reaches beyond the
    /// last port, is refused.
    pub fn new(hosts: Vec<Upstream>, mappings: Vec<Mapping>) -> (r: Result<App, AppError>)
        ensures
            match r {
                Ok(app) => {
                    &&& app.wf()
                    &&& app.upstream.records@ == hosts@
                    &&& app.mappings@ == mappings@
                },
                Err(AppError::DuplicateUpstream(ip)) => exists|j: int|
                    first_repeat(hosts@, j) && (#[trigger] hosts@[j]).address == ip,
                Err(AppError::UnknownUpstream(ip)) => distinct(hosts@) && exists|k: int|
                    {
                        &&& 0 <= k < mappings@.len()
                        &&& forall|j: int|
                            0 <= j < k ==> admits(
                                (Registry { records: hosts })@,
                                #[trigger] mappings@[j],
                            )
                        &&& (#[trigger] mappings@[k]).kind.spec_upstream() == ip
                        &&& !(Registry { records: hosts })@.dom().contains(ip)
                    },
                Err(AppError::InvalidPortRange) => distinct(hosts@) && exists|k: int|
                    {
                        &&& 0 <= k < mappings@.len()
                        &&& forall|j: int|
                            0 <= j < k ==> admits(
                                (Registry { records: hosts })@,
                                #[trigger] mappings@[j],
                            )
                        &&& (Registry { records: hosts })@.dom().contains(
                            (#[trigger] mappings@[k]).kind.spec_upstream(),
                        )
                        &&& !mappings@[k].kind.wf()
                    },
                Err(AppError::NoMappings) => false,
            },
    {
        let ghost given = Registry { records: hosts };
        let upstream = match Registry::from_records(hosts) {
            Ok(upstream) => upstream,
            Err(RegistryError::DuplicateUpstream(ip)) => {
                return Err(AppError::DuplicateUpstream(ip));
            },
        };
        assert(upstream@ =~= given@);
        let n = mappings.len();
        let mut k: usize = 0;
        while k < n
            invariant
                n == mappings@.len(),
                k <= n,
                upstream@ == given@,
                given == (Registry { records: hosts }),
                distinct(hosts@),
                forall|j: int| 0 <= j < k ==> admits(upstream@, #[trigger] mappings@[j]),
            decreases n - k,
        {
            let to = mappings[k].kind.upstream();
            if !upstream.contains(to) {
                return Err(AppError::UnknownUpstream(to));
            }
            if !mappings[k].kind.is_wf() {
                return Err(AppError::InvalidPortRange);
            }
            k += 1;
        }
        Ok(App { upstream, mappings })
    }

    /// Whether the hosts and the rules fit together as `wf` says.
    pub fn is_wf(&self) -> (r: bool)
        ensures
            r == self.wf(),
    {
        if !self.upstream.is_wf() {
            return false;
        }
        let n = self.mappings.len();
        let mut k: usize = 0;
        while k < n
            invariant
                n == self.mappings@.len(),
                k <= n,
                self.upstream.wf(),
                forall|j: int|
                    0 <= j < k ==> admits(self.upstream@, #[trigger] self.mappings@[j]),
            decreases n - k,
        {
            let to = self.mappings[k].kind.upstream();
            if !self.upstream.contains(to) || !self.mappings[k].kind.is_wf() {
                assert(!admits(self.upstream@, self.mappings@[k as int]));
                return false;
            }
            k += 1;
        }
        true
    }

    /// The host with the address `ip`.
    pub fn lookup(&self, ip: IpAddress) -> (r: Option<&Upstream>)
        ensures
            match r {
                Some(host) => self.upstream@.dom().contains(ip) && *host == self.upstream@[ip]
                    && host.address == ip,
                None => !self.upstream@.dom().contains(ip),
            },
    {
        self.upstream.lookup(ip)
    }

    /// The tunnels that the rules call for: rule by rule as they were
    /// declared, and within a rule by ascending port.
    pub fn tunnels(&self) -> (out: Vec<Tunnel>)
        requires
            self.wf(),
        ensures
            out@ == all_tunnels(self.mappings@),
            forall|i: int|
                0 <= i < out@.len() ==> self.upstream@.dom().contains((#[trigger] out@[i]).to.ip),
    {
        let n = self.mappings.len();
        let mut out: Vec<Tunnel> = Vec::new();
        let mut k: usize = 0;
        while k < n
            invariant
                self.wf(),
                n == self.mappings@.len(),
                k <= n,
                out@ == all_tunnels(self.mappings@.take(k as int)),
                forall|i: int|
                    0 <= i < out@.len() ==> self.upstream@.dom().contains(
                        (#[trigger] out@[i]).to.ip,
                    ),
            decreases n - k,
        {
            let mapping = &self.mappings[k];
            assert(admits(self.upstream@, self.mappings@[k as int]));
            let count = mapping.kind.len();
            let ghost before = out@;
            let mut i: usize = 0;
            while i < count
                invariant
                    mapping.kind.wf(),
                    self.upstream@.dom().contains(mapping.kind.spec_upstream()),
                    count == mapping.kind.spec_len(),
                    i <= count,
                    out@ == before + tunnels_of(*mapping).take(i as int),
                    forall|j: int|
                        0 <= j < out@.len() ==> self.upstream@.dom().contains(
                            (#[trigger] out@[j]).to.ip,
                        ),
                decreases count - i,
            {
                let pair: Pair = mapping.kind.pair(i);
                let tunnel = Tunnel { from: pair.0, to: pair.1, opts: mapping.opts };
                assert(tunnel == tunnels_of(*mapping)[i as int]);
                assert(tunnel.to.ip == mapping.kind.spec_upstream());
                let ghost grown = out@.push(tunnel);
                out.push(tunnel);
                assert(grown =~= before + tunnels_of(*mapping).take(i + 1));
                i += 1;
            }
            proof {
                let seen = self.mappings@.take(k + 1);
                assert(seen.drop_last() =~= self.mappings@.take(k as int));
                assert(seen.last() == *mapping);
                assert(tunnels_of(*mapping).take(count as int) =~= tunnels_of(*mapping));
            }
            k += 1;
        }
        assert(self.mappings@.take(n as int) =~= self.mappings@);
        out
    }

    /// What running the forwarder starts: the tunnels that the rules call
    /// for, in the order in which their listeners are bound. A forwarder
    /// without rules does not run.
    pub fn run(&self) -> (r: Result<Vec<Tunnel>, AppError>)
        requires
            self.wf(),
        ensures
            match r {
                Ok(tunnels) => {
                    &&& self.mappings@.len() > 0
                    &&& tunnels@ == all_tunnels(self.mappings@)
                    &&& forall|i: int|
                        0 <= i < tunnels@.len() ==> self.upstream@.dom().contains(
                            (#[trigger] tunnels@[i]).to.ip,
                        )
                },
                Err(e) => self.mappings@.len() == 0 && e == AppError::NoMappings,
            },
    {
        if self.mappings.len() == 0 {
            return Err(AppError::NoMappings);
        }
        Ok(self.tunnels())
    }

    /// A connector for the destination of `tunnel`, with its host, where the
    /// host is known.
    pub fn connector(&self, tunnel: &Tunnel) -> (r: Option<(Upstream, Connector)>)
        ensures
            match r {
                Some((host, connector)) => {
                    &&& self.upstream@.dom().contains(tunnel.to.ip)
                    &&& host == self.upstream@[tunnel.to.ip]
                    &&& connector == host.spec_connector(tunnel.to.port, tunnel.opts)
                },
                None => !self.upstream@.dom().contains(tunnel.to.ip),
            },
    {
        match self.upstream.lookup(tunnel.to.ip) {
            None => None,
            Some(host) => Some((*host, host.connect(tunnel.to.port, &tunnel.opts))),
        }
    }
}

} // verus!
