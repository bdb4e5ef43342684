//! Reading the directives of a configuration.
//!
//! A configuration is a text of lines. A line that is empty or starts with
//! `#` says nothing. Every other line is a directive: a name and what
//! follows it, split into words as a command line is.
//!
//! ```text
//! upstream <ip> mac <mac> brd <broadcast-ip>
//! forward <address> to <address> [wait-for <seconds>] [max-attempts <n>]
//!         [retry-delay <seconds>] [retry-factor <factor>]
//! ```
//!
//! Two things the crate does not read itself: IP addresses and the decimal
//! fraction of `retry-factor`. Each [`Word`] carries what it denotes as
//! either, and the caller fills that in before the words are read.

use vstd::prelude::*;

use crate::address::{read_address, Address, ParseAddressError};
use crate::connect::{ConnectOpts, Delay, RetryFactor};
use crate::hardware_addr::HardwareAddr;
use crate::mapping::{kind_of, Mapping, MappingKind};
use crate::net::IpAddress;
use crate::text::{parse_u64, read_number, same_text, NumberError};
use crate::upstream::Upstream;

verus! {

/// Why the words behind `upstream` declare no host.
#[derive(Clone, Copy, Debug, PartialEq, Eq, Structural)]
pub enum ParseUpstreamError {
    ExpectedAddress,
    InvalidAddress,
    ExpectedMac,
    InvalidMacAddress(crate::hardware_addr::ParseError),
    ExpectedBroadcast,
    InvalidBroadcast,
}

/// Why the words behind `forward` declare no rule.
#[derive(Clone, Copy, Debug, PartialEq, Eq, Structural)]
pub enum ParseMappingError {
    ExpectedFromAddress,
    InvalidFromAddress(ParseAddressError),
    ExpectedTo,
    ExpectedToAddress,
    InvalidToAddress(ParseAddressError),
    ExpectedWaitFor,
    InvalidWaitFor(NumberError),
    ExpectedMaxAttempts,
    InvalidMaxAttempts(NumberError),
    ExpectedRetryDelay,
    InvalidRetryDelay(NumberError),
    ExpectedRetryFactor,
    InvalidRetryFactor,
    /// The listen range and the destination range differ in length.
    InvalidPortRanges,
    /// One listen port cannot be forwarded to a range of ports.
    InvalidMappingType,
}

/// One word of a directive, with what it denotes where it is read as an IP
/// address or as a factor.
#[derive(Clone, Debug, PartialEq, Eq)]
pub struct Word {
    /// The word itself.
    pub text: String,
    /// The IP address that the whole word writes, if it writes one.
    pub ip: Option<IpAddress>,
    /// The IP address that the word writes before its first `:`, if it has a
    /// `:` and writes one there.
    pub host: Option<IpAddress>,
    /// The factor that the word writes as a decimal fraction, if it writes
    /// one.
    pub factor: Option<RetryFactor>,
}

impl Word {
    /// A word that denotes nothing yet.
    pub fn new(text: String) -> (w: Word)
        ensures
            w.text == text,
            w.ip is None,
            w.host is None,
            w.factor is None,
    {
        Word { text, ip: None, host: None, factor: None }
    }
}

/// What the words behind the address of an `upstream` directive add to the
/// hardware address `mac` and the broadcast address `broadcast` that the
/// words before them gave. `mac` and `brd` each take the word behind them;
/// any other word is passed over; a later value replaces an earlier one.
pub open spec fn read_upstream_props(
    words: Seq<Word>,
    mac: Option<HardwareAddr>,
    broadcast: Option<IpAddress>,
) -> Result<(Option<HardwareAddr>, Option<IpAddress>), ParseUpstreamError>
    decreases words.len(),
{
    if words.len() == 0 {
        Ok((mac, broadcast))
    } else if words[0].text@ == "mac"@ {
        if words.len() < 2 {
            Err(ParseUpstreamError::ExpectedMac)
        } else {
            match crate::hardware_addr::read_address(words[1].text@) {
                Err(e) => Err(ParseUpstreamError::InvalidMacAddress(e)),
                Ok(addr) => read_upstream_props(words.skip(2), Some(addr), broadcast),
            }
        }
    } else if words[0].text@ == "brd"@ {
        if words.len() < 2 {
            Err(ParseUpstreamError::ExpectedBroadcast)
        } else {
            match words[1].ip {
                None => Err(ParseUpstreamError::InvalidBroadcast),
                Some(ip) => read_upstream_props(words.skip(2), mac, Some(ip)),
            }
        }
    } else {
        read_upstream_props(words.skip(1), mac, broadcast)
    }
}

/// The host that the words behind `upstream` declare: its address first,
/// then its hardware address behind `mac` and its broadcast address behind
/// `brd`, in either order. Both must be given.
pub open spec fn read_upstream(words: Seq<Word>) -> Result<Upstream, ParseUpstreamError> {
    if words.len() == 0 {
        Err(ParseUpstreamError::ExpectedAddress)
    } else {
        match words[0].ip {
            None => Err(ParseUpstreamError::InvalidAddress),
            Some(address) => match read_upstream_props(words.skip(1), None, None) {
                Err(e) => Err(e),
                Ok((None, _)) => Err(ParseUpstreamError::ExpectedMac),
                Ok((Some(_), None)) => Err(ParseUpstreamError::ExpectedBroadcast),
                Ok((Some(mac), Some(broadcast))) => Ok(Upstream { mac, address, broadcast }),
            },
        }
    }
}

impl Upstream {
    /// Reads the words behind `upstream`.
    pub fn parse(words: &[Word]) -> (r: Result<Upstream, ParseUpstreamError>)
        ensures
            r == read_upstream(words@),
    {
        let n = words.len();
        if n == 0 {
            return Err(ParseUpstreamError::ExpectedAddress);
        }
        let address = match words[0].ip {
            None => {
                return Err(ParseUpstreamError::InvalidAddress);
            },
            Some(address) => address,
        };
        let mut mac: Option<HardwareAddr> = None;
        let mut broadcast: Option<IpAddress> = None;
        let mut i: usize = 1;
        while i < n
            invariant
                n == words@.len(),
                1 <= i <= n,
                words@[0].ip == Some(address),
                read_upstream_props(words@.skip(1), None, None) == read_upstream_props(
                    words@.skip(i as int),
                    mac,
                    broadcast,
                ),
            decreases n - i,
        {
            let ghost rest = words@.skip(i as int);
            assert(rest[0] == words@[i as int]);
            let name = words[i].text.as_str();
            if same_text(name, "mac") {
                if i + 1 >= n {
                    return Err(ParseUpstreamError::ExpectedMac);
                }
                assert(rest[1] == words@[i + 1]);
                match HardwareAddr::parse(words[i + 1].text.as_str()) {
                    Err(e) => {
                        return Err(ParseUpstreamError::InvalidMacAddress(e));
                    },
                    Ok(addr) => {
                        mac = Some(addr);
                    },
                }
                assert(rest.skip(2) =~= words@.skip(i + 2));
                i += 2;
            } else if same_text(name, "brd") {
                if i + 1 >= n {
                    return Err(ParseUpstreamError::ExpectedBroadcast);
                }
                assert(rest[1] == words@[i + 1]);
                match words[i + 1].ip {
                    None => {
                        return Err(ParseUpstreamError::InvalidBroadcast);
                    },
                    Some(ip) => {
                        broadcast = Some(ip);
                    },
                }
                assert(rest.skip(2) =~= words@.skip(i + 2));
                i += 2;
            } else {
                assert(rest.skip(1) =~= words@.skip(i + 1));
                i += 1;
            }
        }
        let mac = match mac {
            None => {
                return Err(ParseUpstreamError::ExpectedMac);
            },
            Some(mac) => mac,
        };
        let broadcast = match broadcast {
            None => {
                return Err(ParseUpstreamError::ExpectedBroadcast);
            },
            Some(broadcast) => broadcast,
        };
        Ok(Upstream { mac, address, broadcast })
    }
}

/// What `s` reads as, as a whole number of seconds.
pub open spec fn read_secs(s: Seq<char>) -> Result<Delay, NumberError> {
    match read_number(s, 10, u64::MAX as nat) {
        Ok(secs) => Ok(Delay { secs: secs as u64, nanos: 0 }),
        Err(e) => Err(e),
    }
}

/// The options `opts` as the words behind the addresses of a `forward`
/// directive change them. `wait-for`, `max-attempts`, `retry-delay` and
/// `retry-factor` each take the word behind them; any other word is passed
/// over; a later value replaces an earlier one.
pub open spec fn read_options(words: Seq<Word>, opts: ConnectOpts) -> Result<
    ConnectOpts,
    ParseMappingError,
>
    decreases words.len(),
{
    if words.len() == 0 {
        Ok(opts)
    } else if words[0].text@ == "wait-for"@ {
        if words.len() < 2 {
            Err(ParseMappingError::ExpectedWaitFor)
        } else {
            match read_secs(words[1].text@) {
                Err(e) => Err(ParseMappingError::InvalidWaitFor(e)),
                Ok(wait_for) => read_options(words.skip(2), ConnectOpts { wait_for, ..opts }),
            }
        }
    } else if words[0].text@ == "max-attempts"@ {
        if words.len() < 2 {
            Err(ParseMappingError::ExpectedMaxAttempts)
        } else {
            match read_number(words[1].text@, 10, u64::MAX as nat) {
                Err(e) => Err(ParseMappingError::InvalidMaxAttempts(e)),
                Ok(n) => read_options(
                    words.skip(2),
                    ConnectOpts { max_attempts: n as u64, ..opts },
                ),
            }
        }
    } else if words[0].text@ == "retry-delay"@ {
        if words.len() < 2 {
            Err(ParseMappingError::ExpectedRetryDelay)
        } else {
            match read_secs(words[1].text@) {
                Err(e) => Err(ParseMappingError::InvalidRetryDelay(e)),
                Ok(retry_delay) => read_options(
                    words.skip(2),
                    ConnectOpts { retry_delay, ..opts },
                ),
            }
        }
    } else if words[0].text@ == "retry-factor"@ {
        if words.len() < 2 {
            Err(ParseMappingError::ExpectedRetryFactor)
        } else {
            match words[1].factor {
                None => Err(ParseMappingError::InvalidRetryFactor),
                Some(retry_factor) => read_options(
                    words.skip(2),
                    ConnectOpts { retry_factor, ..opts },
                ),
            }
        }
    } else {
        read_options(words.skip(1), opts)
    }
}

/// The options `opts` with a `max_attempts` of zero made one.
pub open spec fn at_least_once(opts: ConnectOpts) -> ConnectOpts {
    ConnectOpts { max_attempts: opts.spec_rounds() as u64, ..opts }
}

/// The rule that the words behind `forward` declare: the listen address,
/// the word `to`, the destination address, then the options. The options are
/// read before the two addresses are put together, so that an error in an
/// option is reported before one in the shape of the rule.
pub open spec fn read_mapping(words: Seq<Word>) -> Result<Mapping, ParseMappingError> {
    if words.len() == 0 {
        Err(ParseMappingError::ExpectedFromAddress)
    } else {
        match read_address(words[0].text@, words[0].host) {
            Err(e) => Err(ParseMappingError::InvalidFromAddress(e)),
            Ok(from) => if words.len() < 2 || words[1].text@ != "to"@ {
                Err(ParseMappingError::ExpectedTo)
            } else if words.len() < 3 {
                Err(ParseMappingError::ExpectedToAddress)
            } else {
                match read_address(words[2].text@, words[2].host) {
                    Err(e) => Err(ParseMappingError::InvalidToAddress(e)),
                    Ok(to) => match read_options(words.skip(3), ConnectOpts::spec_default()) {
                        Err(e) => Err(e),
                        Ok(opts) => match kind_of(from, to) {
                            Err(e) => Err(e),
                            Ok(kind) => Ok(Mapping { kind, opts: at_least_once(opts) }),
                        },
                    },
                }
            },
        }
    }
}

/// Reads the options behind the addresses of a `forward` directive, which
/// start at the word `from`.
fn parse_options(words: &[Word], from: usize) -> (r: Result<ConnectOpts, ParseMappingError>)
    requires
        from <= words@.len(),
    ensures
        r == read_options(words@.skip(from as int), ConnectOpts::spec_default()),
{
    let n = words.len();
    let mut opts = ConnectOpts::default();
    let mut i: usize = from;
    while i < n
        invariant
            n == words@.len(),
            from <= i <= n,
            read_options(words@.skip(from as int), ConnectOpts::spec_default()) == read_options(
                words@.skip(i as int),
                opts,
            ),
        decreases n - i,
    {
        let ghost rest = words@.skip(i as int);
        assert(rest[0] == words@[i as int]);
        if i + 1 < n {
            assert(rest[1] == words@[i + 1]);
            assert(rest.skip(2) =~= words@.skip(i + 2));
        }
        assert(rest.skip(1) =~= words@.skip(i + 1));
        let name = words[i].text.as_str();
        if same_text(name, "wait-for") {
            if i + 1 >= n {
                return Err(ParseMappingError::ExpectedWaitFor);
            }
            match parse_u64(words[i + 1].text.as_str()) {
                Err(e) => {
                    return Err(ParseMappingError::InvalidWaitFor(e));
                },
                Ok(secs) => {
                    opts.wait_for = Delay::from_secs(secs);
                },
            }
            i += 2;
        } else if same_text(name, "max-attempts") {
            if i + 1 >= n {
                return Err(ParseMappingError::ExpectedMaxAttempts);
            }
            match parse_u64(words[i + 1].text.as_str()) {
                Err(e) => {
                    return Err(ParseMappingError::InvalidMaxAttempts(e));
                },
                Ok(count) => {
                    opts.max_attempts = count;
                },
            }
            i += 2;
        } else if same_text(name, "retry-delay") {
            if i + 1 >= n {
                return Err(ParseMappingError::ExpectedRetryDelay);
            }
            match parse_u64(words[i + 1].text.as_str()) {
                Err(e) => {
                    return Err(ParseMappingError::InvalidRetryDelay(e));
                },
                Ok(secs) => {
                    opts.retry_delay = Delay::from_secs(secs);
                },
            }
            i += 2;
        } else if same_text(name, "retry-factor") {
            if i + 1 >= n {
                return Err(ParseMappingError::ExpectedRetryFactor);
            }
            match words[i + 1].factor {
                None => {
                    return Err(ParseMappingError::InvalidRetryFactor);
                },
                Some(factor) => {
                    opts.retry_factor = factor;
                },
            }
            i += 2;
        } else {
            i += 1;
        }
    }
    Ok(opts)
}

impl Mapping {
    /// Reads the words behind `forward`.
    pub fn parse(words: &[Word]) -> (r: Result<Mapping, ParseMappingError>)
        ensures
            r == read_mapping(words@),
            r is Ok ==> r.unwrap().kind.wf() && r.unwrap().opts.max_attempts >= 1,
    {
        let n = words.len();
        if n == 0 {
            return Err(ParseMappingError::ExpectedFromAddress);
        }
        let from = match Address::parse(words[0].text.as_str(), words[0].host) {
            Err(e) => {
                return Err(ParseMappingError::InvalidFromAddress(e));
            },
            Ok(from) => from,
        };
        if n < 2 || !same_text(words[1].text.as_str(), "to") {
            return Err(ParseMappingError::ExpectedTo);
        }
        if n < 3 {
            return Err(ParseMappingError::ExpectedToAddress);
        }
        let to = match Address::parse(words[2].text.as_str(), words[2].host) {
            Err(e) => {
                return Err(ParseMappingError::InvalidToAddress(e));
            },
            Ok(to) => to,
        };
        let mut opts = match parse_options(words, 3) {
            Err(e) => {
                return Err(e);
            },
            Ok(opts) => opts,
        };
        opts.max_attempts = opts.rounds();
        match MappingKind::from_addresses(&from, &to) {
            Err(e) => Err(e),
            Ok(kind) => Ok(Mapping { kind, opts }),
        }
    }
}

} // verus!
