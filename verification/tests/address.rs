use wolly::address::{host_text, Address, ParseAddressError, Port};
use wolly::net::{IpAddress, PortRange};
use wolly::text::NumberError;

const HOST: IpAddress = IpAddress::V4(0x0a00_0011);

#[test]
fn a_port_or_a_range() {
    assert_eq!(Port::parse("8888"), Ok(Port::Single(8888)));
    assert_eq!(Port::parse("9000-9010"), Ok(Port::Range(PortRange { start: 9000, end: 9011 })));
    assert_eq!(Port::parse("0-1"), Ok(Port::Range(PortRange { start: 0, end: 2 })));
}

#[test]
fn a_range_of_one_port_is_that_port() {
    assert_eq!(Port::parse("9000-9000"), Ok(Port::Single(9000)));
    assert_eq!(Port::parse("65535-65535"), Ok(Port::Single(65535)));
}

#[test]
fn a_range_written_backwards_is_empty() {
    let port = Port::parse("9-5").unwrap();
    assert_eq!(port, Port::Range(PortRange { start: 9, end: 6 }));
    match port {
        Port::Range(range) => {
            assert_eq!(range.len(), 0);
            assert!(range.is_empty());
            assert!(!range.contains(9));
        }
        Port::Single(_) => unreachable!(),
    }
}

#[test]
fn a_range_cannot_end_at_the_last_port() {
    assert_eq!(
        Port::parse("65000-65535"),
        Err(ParseAddressError::InvalidPort(NumberError::Overflow))
    );
    assert_eq!(
        Port::parse("65000-65534"),
        Ok(Port::Range(PortRange { start: 65000, end: 65535 }))
    );
}

#[test]
fn ports_that_are_none() {
    assert_eq!(Port::parse(""), Err(ParseAddressError::InvalidPort(NumberError::Empty)));
    assert_eq!(Port::parse("-"), Err(ParseAddressError::InvalidPort(NumberError::Empty)));
    assert_eq!(Port::parse("1-"), Err(ParseAddressError::InvalidPort(NumberError::Empty)));
    assert_eq!(Port::parse("-1"), Err(ParseAddressError::InvalidPort(NumberError::Empty)));
    assert_eq!(Port::parse("1-2-3"), Err(ParseAddressError::InvalidPort(NumberError::InvalidDigit)));
    assert_eq!(Port::parse("http"), Err(ParseAddressError::InvalidPort(NumberError::InvalidDigit)));
    assert_eq!(Port::parse("70000"), Err(ParseAddressError::InvalidPort(NumberError::Overflow)));
    assert_eq!(Port::parse("x-70000"), Err(ParseAddressError::InvalidPort(NumberError::InvalidDigit)));
}

#[test]
fn port_ranges_count_and_hold() {
    let range = PortRange { start: 9000, end: 9011 };
    assert_eq!(range.len(), 11);
    assert!(!range.is_empty());
    assert!(range.contains(9000));
    assert!(range.contains(9010));
    assert!(!range.contains(9011));
    assert!(!range.contains(8999));
    assert_eq!(range.port(0), 9000);
    assert_eq!(range.port(10), 9010);
}

#[test]
fn the_host_part_stands_before_the_first_colon() {
    assert_eq!(host_text("10.0.0.17:4444"), Some("10.0.0.17"));
    assert_eq!(host_text("10.0.0.17"), None);
    assert_eq!(host_text(":80"), Some(""));
    assert_eq!(host_text("::1:80"), Some(""));
    assert_eq!(host_text("a:b:c"), Some("a"));
}

#[test]
fn an_address_is_a_host_and_a_port() {
    assert_eq!(
        Address::parse("10.0.0.17:4444", Some(HOST)),
        Ok(Address { ip: HOST, port: Port::Single(4444) })
    );
    assert_eq!(
        Address::parse("10.0.0.17:10000-10010", Some(HOST)),
        Ok(Address { ip: HOST, port: Port::Range(PortRange { start: 10000, end: 10011 }) })
    );
}

#[test]
fn addresses_that_are_none() {
    assert_eq!(Address::parse("10.0.0.17", Some(HOST)), Err(ParseAddressError::MissingSeparator));
    assert_eq!(Address::parse("10.0.0.17", None), Err(ParseAddressError::MissingSeparator));
    assert_eq!(Address::parse("nowhere:80", None), Err(ParseAddressError::InvalidAddress));
    assert_eq!(Address::parse("nowhere:http", None), Err(ParseAddressError::InvalidAddress));
    assert_eq!(
        Address::parse("10.0.0.17:http", Some(HOST)),
        Err(ParseAddressError::InvalidPort(NumberError::InvalidDigit))
    );
    assert_eq!(
        Address::parse("10.0.0.17:", Some(HOST)),
        Err(ParseAddressError::InvalidPort(NumberError::Empty))
    );
}

#[test]
fn ports_and_addresses_are_written_as_they_are_read() {
    assert_eq!(Port::Single(8888).to_text(), "8888");
    assert_eq!(Port::Range(PortRange { start: 9000, end: 9011 }).to_text(), "9000-9010");
    assert_eq!(Port::Range(PortRange { start: 0, end: 65535 }).to_text(), "0-65534");
    let address = Address { ip: HOST, port: Port::Range(PortRange { start: 10000, end: 10011 }) };
    assert_eq!(address.to_text("10.0.0.17"), "10.0.0.17:10000-10010");
    assert_eq!(Address::parse(&address.to_text("10.0.0.17"), Some(HOST)), Ok(address));
    let single = Address { ip: HOST, port: Port::Single(80) };
    assert_eq!(single.to_text("10.0.0.17"), "10.0.0.17:80");
}

/// A port or a range read with the standard library.
fn port_by_the_standard_library(s: &str) -> Option<Result<Port, ParseAddressError>> {
    let kind = |e: std::num::ParseIntError| match e.kind() {
        std::num::IntErrorKind::Empty => NumberError::Empty,
        std::num::IntErrorKind::InvalidDigit => NumberError::InvalidDigit,
        _ => NumberError::Overflow,
    };
    let number = |s: &str| s.parse::<u16>().map_err(|e| ParseAddressError::InvalidPort(kind(e)));
    Some(match s.split_once('-') {
        None => number(s).map(Port::Single),
        Some((start, end)) => match (number(start), number(end)) {
            (Err(e), _) => Err(e),
            (Ok(_), Err(e)) => Err(e),
            (Ok(start), Ok(end)) if start == end => Ok(Port::Single(start)),
            (Ok(_), Ok(u16::MAX)) => return None,
            (Ok(start), Ok(end)) => Ok(Port::Range(PortRange { start, end: end + 1 })),
        },
    })
}

#[test]
fn ports_agree_with_the_standard_library() {
    let samples = [
        "", "-", "--", "1", "1-", "-1", "1-1", "1-2", "2-1", "0-65534", "0-65536", "65536-1",
        "x-1", "1-x", "x-y", "1-2-3", "+1-+2", "80", "080", "9000-9010", " 1-2", "1 -2", "1-2 ",
        "65535", "65535-65535", "65534-65535",
    ];
    for s in samples {
        if let Some(expected) = port_by_the_standard_library(s) {
            assert_eq!(Port::parse(s), expected, "{s:?}");
        }
    }
}
