use wolly::address::ParseAddressError;
use wolly::config::{parse_directive, Directive, ParseErrorKind};
use wolly::connect::{ConnectOpts, Delay, RetryFactor, DOUBLE_TWO};
use wolly::hardware_addr::{HardwareAddr, ParseError as MacError};
use wolly::mapping::{Mapping, MappingKind};
use wolly::net::{IpAddress, PortRange, SocketAddress};
use wolly::parse::{ParseMappingError, ParseUpstreamError, Word};
use wolly::text::NumberError;
use wolly::upstream::Upstream;

/// Reads the dotted quads that the tests use.
fn ip(text: &str) -> Option<IpAddress> {
    let parts: Vec<&str> = text.split('.').collect();
    if parts.len() != 4 {
        return None;
    }
    let mut bits = 0u32;
    for part in parts {
        bits = bits << 8 | u32::from(part.parse::<u8>().ok()?);
    }
    Some(IpAddress::V4(bits))
}

fn word(text: &str) -> Word {
    let mut word = Word::new(text.to_string());
    word.ip = ip(text);
    word.host = text.split_once(':').and_then(|(host, _)| ip(host));
    word.factor = text.parse::<f64>().ok().map(|f| RetryFactor { bits: f.to_bits() });
    word
}

fn line(text: &str) -> Vec<Word> {
    text.split(' ').filter(|w| !w.is_empty()).map(word).collect()
}

fn upstream(text: &str) -> Result<Upstream, ParseUpstreamError> {
    Upstream::parse(&line(text))
}

fn mapping(text: &str) -> Result<Mapping, ParseMappingError> {
    Mapping::parse(&line(text))
}

fn same_host(a: &Upstream, b: &Upstream) -> bool {
    a.mac == b.mac && a.address == b.address && a.broadcast == b.broadcast
}

const HOST: IpAddress = IpAddress::V4(0x0a00_0011);
const BROADCAST: IpAddress = IpAddress::V4(0x0a00_00ff);
const ANY: IpAddress = IpAddress::V4(0);

#[test]
fn a_new_word_denotes_nothing() {
    let word = Word::new("10.0.0.17".to_string());
    assert_eq!(word.text, "10.0.0.17");
    assert_eq!(word.ip, None);
    assert_eq!(word.host, None);
    assert_eq!(word.factor, None);
}

#[test]
fn an_upstream_has_address_mac_and_broadcast() {
    let host = upstream("10.0.0.17 mac 01:02:03:04:05:06 brd 10.0.0.255").unwrap();
    let expected = Upstream {
        mac: HardwareAddr([1, 2, 3, 4, 5, 6]),
        address: HOST,
        broadcast: BROADCAST,
    };
    assert!(same_host(&host, &expected));
    let swapped = upstream("10.0.0.17 brd 10.0.0.255 mac 01:02:03:04:05:06").unwrap();
    assert!(same_host(&swapped, &expected));
}

#[test]
fn unknown_words_of_an_upstream_are_passed_over() {
    let host = upstream("10.0.0.17 name nas mac 01:02:03:04:05:06 brd 10.0.0.255 x").unwrap();
    assert_eq!(host.address, HOST);
    assert_eq!(host.broadcast, BROADCAST);
}

#[test]
fn a_later_value_replaces_an_earlier_one() {
    let host = upstream(
        "10.0.0.17 mac 01:02:03:04:05:06 brd 10.0.0.1 mac 0a:0b:0c:0d:0e:0f brd 10.0.0.255",
    )
    .unwrap();
    assert_eq!(host.mac, HardwareAddr([10, 11, 12, 13, 14, 15]));
    assert_eq!(host.broadcast, BROADCAST);
}

#[test]
fn upstreams_that_are_none() {
    assert_eq!(upstream("").unwrap_err(), ParseUpstreamError::ExpectedAddress);
    assert_eq!(upstream("nas").unwrap_err(), ParseUpstreamError::InvalidAddress);
    assert_eq!(upstream("10.0.0.17").unwrap_err(), ParseUpstreamError::ExpectedMac);
    assert_eq!(upstream("10.0.0.17 mac").unwrap_err(), ParseUpstreamError::ExpectedMac);
    assert_eq!(
        upstream("10.0.0.17 brd 10.0.0.255").unwrap_err(),
        ParseUpstreamError::ExpectedMac
    );
    assert_eq!(
        upstream("10.0.0.17 mac 01:02:03:04:05").unwrap_err(),
        ParseUpstreamError::InvalidMacAddress(MacError::ExpectedOctet)
    );
    assert_eq!(
        upstream("10.0.0.17 mac 01:02:03:04:05:0x").unwrap_err(),
        ParseUpstreamError::InvalidMacAddress(MacError::InvalidOctet(NumberError::InvalidDigit))
    );
    assert_eq!(
        upstream("10.0.0.17 mac 01:02:03:04:05:06").unwrap_err(),
        ParseUpstreamError::ExpectedBroadcast
    );
    assert_eq!(
        upstream("10.0.0.17 mac 01:02:03:04:05:06 brd").unwrap_err(),
        ParseUpstreamError::ExpectedBroadcast
    );
    assert_eq!(
        upstream("10.0.0.17 mac 01:02:03:04:05:06 brd lan").unwrap_err(),
        ParseUpstreamError::InvalidBroadcast
    );
    assert_eq!(
        upstream("nas mac 01:02:03:04:05 brd lan").unwrap_err(),
        ParseUpstreamError::InvalidAddress
    );
}

#[test]
fn a_rule_with_the_default_options() {
    let rule = mapping("0.0.0.0:8888 to 10.0.0.17:4444").unwrap();
    assert_eq!(
        rule.kind,
        MappingKind::OneToOne {
            from: SocketAddress { ip: ANY, port: 8888 },
            to: SocketAddress { ip: HOST, port: 4444 },
        }
    );
    assert_eq!(rule.opts, ConnectOpts::default());
    assert_eq!(rule.opts.wait_for, Delay::from_secs(0));
    assert_eq!(rule.opts.max_attempts, 5);
    assert_eq!(rule.opts.retry_delay, Delay::from_secs(1));
    assert_eq!(rule.opts.retry_factor, RetryFactor { bits: DOUBLE_TWO });
}

#[test]
fn a_rule_with_every_option() {
    let rule = mapping(
        "0.0.0.0:9000-9010 to 10.0.0.17:10000-10010 wait-for 30 max-attempts 3 retry-delay 2 retry-factor 1.5",
    )
    .unwrap();
    assert_eq!(
        rule.kind,
        MappingKind::ManyToMany {
            from_ip: ANY,
            from_port_range_start: 9000,
            to_ip: HOST,
            to_port_range_start: 10000,
            port_range_len: 11,
        }
    );
    assert_eq!(
        rule.opts,
        ConnectOpts {
            wait_for: Delay::from_secs(30),
            max_attempts: 3,
            retry_delay: Delay::from_secs(2),
            retry_factor: RetryFactor { bits: 1.5f64.to_bits() },
        }
    );
}

#[test]
fn a_rule_from_a_range_to_a_port() {
    let rule = mapping("0.0.0.0:9000-9010 to 10.0.0.17:4444 unknown words").unwrap();
    assert_eq!(
        rule.kind,
        MappingKind::ManyToOne {
            from_ip: ANY,
            from_ports: PortRange { start: 9000, end: 9011 },
            to: SocketAddress { ip: HOST, port: 4444 },
        }
    );
}

#[test]
fn zero_attempts_are_made_one() {
    let rule = mapping("0.0.0.0:8888 to 10.0.0.17:4444 max-attempts 0").unwrap();
    assert_eq!(rule.opts.max_attempts, 1);
}

#[test]
fn rules_that_are_none() {
    assert_eq!(mapping("").unwrap_err(), ParseMappingError::ExpectedFromAddress);
    assert_eq!(
        mapping("8888").unwrap_err(),
        ParseMappingError::InvalidFromAddress(ParseAddressError::MissingSeparator)
    );
    assert_eq!(
        mapping("here:8888 to 10.0.0.17:4444").unwrap_err(),
        ParseMappingError::InvalidFromAddress(ParseAddressError::InvalidAddress)
    );
    assert_eq!(mapping("0.0.0.0:8888").unwrap_err(), ParseMappingError::ExpectedTo);
    assert_eq!(mapping("0.0.0.0:8888 into 10.0.0.17:4444").unwrap_err(), ParseMappingError::ExpectedTo);
    assert_eq!(mapping("0.0.0.0:8888 to").unwrap_err(), ParseMappingError::ExpectedToAddress);
    assert_eq!(
        mapping("0.0.0.0:8888 to 10.0.0.17:http").unwrap_err(),
        ParseMappingError::InvalidToAddress(ParseAddressError::InvalidPort(NumberError::InvalidDigit))
    );
    let rule = "0.0.0.0:8888 to 10.0.0.17:4444";
    assert_eq!(mapping(&format!("{rule} wait-for")).unwrap_err(), ParseMappingError::ExpectedWaitFor);
    assert_eq!(
        mapping(&format!("{rule} wait-for soon")).unwrap_err(),
        ParseMappingError::InvalidWaitFor(NumberError::InvalidDigit)
    );
    assert_eq!(mapping(&format!("{rule} max-attempts")).unwrap_err(), ParseMappingError::ExpectedMaxAttempts);
    assert_eq!(
        mapping(&format!("{rule} max-attempts 99999999999999999999")).unwrap_err(),
        ParseMappingError::InvalidMaxAttempts(NumberError::Overflow)
    );
    assert_eq!(mapping(&format!("{rule} retry-delay")).unwrap_err(), ParseMappingError::ExpectedRetryDelay);
    assert_eq!(
        mapping(&format!("{rule} retry-delay 1.5")).unwrap_err(),
        ParseMappingError::InvalidRetryDelay(NumberError::InvalidDigit)
    );
    assert_eq!(mapping(&format!("{rule} retry-factor")).unwrap_err(), ParseMappingError::ExpectedRetryFactor);
    assert_eq!(mapping(&format!("{rule} retry-factor twice")).unwrap_err(), ParseMappingError::InvalidRetryFactor);
}

#[test]
fn ranges_of_unequal_length_fail_with_their_own_error() {
    assert_eq!(
        mapping("0.0.0.0:9000-9010 to 10.0.0.17:10000-10009").unwrap_err(),
        ParseMappingError::InvalidPortRanges
    );
    assert_eq!(
        mapping("0.0.0.0:9000 to 10.0.0.17:10000-10009").unwrap_err(),
        ParseMappingError::InvalidMappingType
    );
}

#[test]
fn an_option_in_error_is_reported_before_the_shape() {
    assert_eq!(
        mapping("0.0.0.0:9000-9010 to 10.0.0.17:10000-10009 wait-for").unwrap_err(),
        ParseMappingError::ExpectedWaitFor
    );
}

#[test]
fn the_first_word_names_the_directive() {
    match parse_directive(&line("upstream 10.0.0.17 mac 01:02:03:04:05:06 brd 10.0.0.255")) {
        Ok(Directive::Upstream(host)) => assert_eq!(host.address, HOST),
        other => panic!("{other:?}"),
    }
    match parse_directive(&line("forward 0.0.0.0:8888 to 10.0.0.17:4444")) {
        Ok(Directive::Forward(rule)) => assert_eq!(rule.kind.upstream(), HOST),
        other => panic!("{other:?}"),
    }
    assert!(matches!(parse_directive(&line("listen 0.0.0.0:8888")), Ok(Directive::Skipped)));
    assert!(matches!(parse_directive(&line("")), Ok(Directive::Skipped)));
    assert_eq!(
        parse_directive(&line("upstream")).unwrap_err(),
        ParseErrorKind::Upstream(ParseUpstreamError::ExpectedAddress)
    );
    assert_eq!(
        parse_directive(&line("forward")).unwrap_err(),
        ParseErrorKind::Mapping(ParseMappingError::ExpectedFromAddress)
    );
}
