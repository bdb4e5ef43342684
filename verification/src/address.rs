//! Listen and destination addresses as a forwarding rule writes them:
//! `ip:port`, or `ip:first-last` for a range of ports.

use vstd::prelude::*;

use crate::net::{IpAddress, PortRange};
use vstd::string::StringExecFns;

use crate::text::{
    decimal, decimal_text, find, lemma_position, parse_u16, position, read_number, NumberError,
};

verus! {

/// The port part of an address: one port, or a range of them.
#[derive(Clone, Copy, Debug, PartialEq, Eq, Structural)]
pub enum Port {
    Single(u16),
    Range(PortRange),
}

/// An address of a forwarding rule.
#[derive(Clone, Copy, Debug, PartialEq, Eq, Structural)]
pub struct Address {
    pub ip: IpAddress,
    pub port: Port,
}

/// Why a text is not an address.
#[derive(Clone, Copy, Debug, PartialEq, Eq, Structural)]
pub enum ParseAddressError {
    /// The text has no `:`.
    MissingSeparator,
    /// What stands before the `:` is no IP address.
    InvalidAddress,
    /// What stands behind the `:` is no port and no range of ports.
    InvalidPort(NumberError),
}

/// What `s` reads as, as a decimal port number.
pub open spec fn read_port_number(s: Seq<char>) -> Result<u16, ParseAddressError> {
    match read_number(s, 10, 0xffff) {
        Ok(v) => Ok(v as u16),
        Err(e) => Err(ParseAddressError::InvalidPort(e)),
    }
}

/// What `s` reads as, as a port or as a range `first-last` with both ends in
/// it. A range of one port is that port. A range cannot end at port 65535,
/// since the end after its last port is then no port number.
pub open spec fn read_port(s: Seq<char>) -> Result<Port, ParseAddressError> {
    let dash = position(s, '-');
    if dash == s.len() {
        match read_port_number(s) {
            Ok(port) => Ok(Port::Single(port)),
            Err(e) => Err(e),
        }
    } else {
        match read_port_number(s.take(dash)) {
            Err(e) => Err(e),
            Ok(first) => match read_port_number(s.skip(dash + 1)) {
                Err(e) => Err(e),
                Ok(last) => if first == last {
                    Ok(Port::Single(first))
                } else if last == 0xffff {
                    Err(ParseAddressError::InvalidPort(NumberError::Overflow))
                } else {
                    Ok(Port::Range(PortRange { start: first, end: (last + 1) as u16 }))
                },
            },
        }
    }
}

/// The part of `s` that names the host: what stands before the first `:`.
pub open spec fn host_part(s: Seq<char>) -> Option<Seq<char>> {
    if position(s, ':') == s.len() {
        None
    } else {
        Some(s.take(position(s, ':')))
    }
}

/// What `s` reads as, as an address, where `host` is what the host part of
/// `s` denotes as an IP address.
pub open spec fn read_address(s: Seq<char>, host: Option<IpAddress>) -> Result<
    Address,
    ParseAddressError,
> {
    let colon = position(s, ':');
    if colon == s.len() {
        Err(ParseAddressError::MissingSeparator)
    } else {
        match host {
            None => Err(ParseAddressError::InvalidAddress),
            Some(ip) => match read_port(s.skip(colon + 1)) {
                Ok(port) => Ok(Address { ip, port }),
                Err(e) => Err(e),
            },
        }
    }
}

impl Port {
    /// Reads a port or a range of ports.
    pub fn parse(s: &str) -> (r: Result<Port, ParseAddressError>)
        ensures
            r == read_port(s@),
    {
        proof {
            lemma_position(s@, '-');
        }
        match find(s, '-') {
            None => match parse_u16(s) {
                Ok(port) => Ok(Port::Single(port)),
                Err(e) => Err(ParseAddressError::InvalidPort(e)),
            },
            Some(dash) => {
                let n = s.unicode_len();
                let first = match parse_u16(s.substring_char(0, dash)) {
                    Ok(port) => port,
                    Err(e) => {
                        return Err(ParseAddressError::InvalidPort(e));
                    },
                };
                let last = match parse_u16(s.substring_char(dash + 1, n)) {
                    Ok(port) => port,
                    Err(e) => {
                        return Err(ParseAddressError::InvalidPort(e));
                    },
                };
                if first == last {
                    Ok(Port::Single(first))
                } else if last == 0xffff {
                    Err(ParseAddressError::InvalidPort(NumberError::Overflow))
                } else {
                    Ok(Port::Range(PortRange { start: first, end: last + 1 }))
                }
            },
        }
    }

    /// The number of ports that this stands for.
    pub open spec fn spec_len(&self) -> nat {
        match *self {
            Port::Single(_) => 1,
            Port::Range(range) => range.spec_len(),
        }
    }
}

/// The part of `s` that names the host: what stands before the first `:`,
/// and nothing where `s` has none.
pub fn host_text(s: &str) -> (r: Option<&str>)
    ensures
        match r {
            Some(host) => host_part(s@) == Some(host@),
            None => host_part(s@) is None,
        },
{
    proof {
        lemma_position(s@, ':');
    }
    match find(s, ':') {
        None => None,
        Some(colon) => {
            let host = s.substring_char(0, colon);
            assert(host@ =~= s@.take(colon as int));
            Some(host)
        },
    }
}

impl Address {
    /// Reads an address, where `host` is what the host part of `s` denotes
    /// as an IP address.
    pub fn parse(s: &str, host: Option<IpAddress>) -> (r: Result<Address, ParseAddressError>)
        ensures
            r == read_address(s@, host),
    {
        proof {
            lemma_position(s@, ':');
        }
        let colon = match find(s, ':') {
            None => {
                return Err(ParseAddressError::MissingSeparator);
            },
            Some(colon) => colon,
        };
        let ip = match host {
            None => {
                return Err(ParseAddressError::InvalidAddress);
            },
            Some(ip) => ip,
        };
        let n = s.unicode_len();
        match Port::parse(s.substring_char(colon + 1, n)) {
            Ok(port) => Ok(Address { ip, port }),
            Err(e) => Err(e),
        }
    }
}

/// The port or range `port` written out: a port in decimal, a range as its
/// first and its last port with a `-` between them.
pub open spec fn port_text(port: Port) -> Seq<char> {
    match port {
        Port::Single(port) => decimal_text(port as nat),
        Port::Range(range) => decimal_text(range.start as nat) + seq!['-'] + decimal_text(
            (range.end - 1) as nat,
        ),
    }
}

impl Port {
    /// Writes the port or the range out, as in `8888` or `9000-9010`. The
    /// range must have a last port to name, so its end cannot be port zero.
    pub fn to_text(&self) -> (s: String)
        requires
            *self matches Port::Range(range) ==> range.end > 0,
        ensures
            s@ == port_text(*self),
    {
        match self {
            Port::Single(port) => decimal(*port as u64),
            Port::Range(range) => {
                proof {
                    reveal_strlit("-");
                }
                let mut s = decimal(range.start as u64);
                s.append("-");
                let last = decimal((range.end - 1) as u64);
                s.append(last.as_str());
                s
            },
        }
    }
}

impl Address {
    /// Writes the address out behind `host`, which is its IP address written
    /// out: `host`, a `:`, and the port or the range.
    pub fn to_text(&self, host: &str) -> (s: String)
        requires
            self.port matches Port::Range(range) ==> range.end > 0,
        ensures
            s@ == host@ + seq![':'] + port_text(self.port),
    {
        proof {
            reveal_strlit(":");
        }
        let mut s = host.to_owned();
        s.append(":");
        let port = self.port.to_text();
        s.append(port.as_str());
        s
    }
}

/// A port written out reads back as itself, and so does a range, unless it
/// is a range of exactly one port, which reads back as that port.
pub proof fn lemma_port_reads_back(port: Port)
    requires
        port matches Port::Range(range) ==> range.end > 0 && range.start != range.end - 1,
    ensures
        read_port(port_text(port)) == Ok::<Port, ParseAddressError>(port),
{
    let text = port_text(port);
    match port {
        Port::Single(number) => {
            crate::text::lemma_decimal_text(number as nat);
            crate::text::lemma_decimal_reads_back(number as nat, 0xffff);
            crate::text::lemma_position_is(text, '-', text.len() as int);
        },
        Port::Range(range) => {
            let first = decimal_text(range.start as nat);
            let last = decimal_text((range.end - 1) as nat);
            crate::text::lemma_decimal_text(range.start as nat);
            crate::text::lemma_decimal_reads_back(range.start as nat, 0xffff);
            crate::text::lemma_decimal_reads_back((range.end - 1) as nat, 0xffff);
            assert forall|j: int| 0 <= j < first.len() implies text[j] != '-' by {
                assert(text[j] == first[j]);
            }
            assert(text[first.len() as int] == '-');
            crate::text::lemma_position_is(text, '-', first.len() as int);
            assert(text.take(first.len() as int) =~= first);
            assert(text.skip(first.len() as int + 1) =~= last);
        },
    }
}

} // verus!
