use wolly::address::{Address, Port};
use wolly::mapping::MappingKind;
use wolly::net::{IpAddress, PortRange, SocketAddress};
use wolly::parse::ParseMappingError;

const LOCAL: IpAddress = IpAddress::V4(0x7f00_0001);
const REMOTE: IpAddress = IpAddress::V4(0x0a00_0011);

fn sock(ip: IpAddress, port: u16) -> SocketAddress {
    SocketAddress { ip, port }
}

#[test]
fn one_to_one_expands_to_its_pair() {
    let kind = MappingKind::OneToOne { from: sock(LOCAL, 18000), to: sock(LOCAL, 18001) };
    assert_eq!(kind.len(), 1);
    assert_eq!(kind.pairs(), vec![(sock(LOCAL, 18000), sock(LOCAL, 18001))]);
    assert_eq!(kind.upstream(), LOCAL);
}

#[test]
fn many_to_one_covers_the_range_in_order() {
    let kind = MappingKind::ManyToOne {
        from_ip: LOCAL,
        from_ports: PortRange { start: 9000, end: 9004 },
        to: sock(REMOTE, 80),
    };
    assert_eq!(kind.len(), 4);
    assert_eq!(
        kind.pairs(),
        vec![
            (sock(LOCAL, 9000), sock(REMOTE, 80)),
            (sock(LOCAL, 9001), sock(REMOTE, 80)),
            (sock(LOCAL, 9002), sock(REMOTE, 80)),
            (sock(LOCAL, 9003), sock(REMOTE, 80)),
        ]
    );
    assert_eq!(kind.pair(2), (sock(LOCAL, 9002), sock(REMOTE, 80)));
    assert_eq!(kind.upstream(), REMOTE);
}

#[test]
fn many_to_one_of_an_empty_range_is_empty() {
    let kind = MappingKind::ManyToOne {
        from_ip: LOCAL,
        from_ports: PortRange { start: 9000, end: 9000 },
        to: sock(REMOTE, 80),
    };
    assert_eq!(kind.len(), 0);
    assert!(kind.pairs().is_empty());
    let reversed = MappingKind::ManyToOne {
        from_ip: LOCAL,
        from_ports: PortRange { start: 9, end: 6 },
        to: sock(REMOTE, 80),
    };
    assert!(reversed.pairs().is_empty());
}

#[test]
fn many_to_many_pairs_offsets() {
    let kind = MappingKind::ManyToMany {
        from_ip: LOCAL,
        from_port_range_start: 9000,
        to_ip: REMOTE,
        to_port_range_start: 10000,
        port_range_len: 3,
    };
    assert!(kind.is_wf());
    assert_eq!(
        kind.pairs(),
        vec![
            (sock(LOCAL, 9000), sock(REMOTE, 10000)),
            (sock(LOCAL, 9001), sock(REMOTE, 10001)),
            (sock(LOCAL, 9002), sock(REMOTE, 10002)),
        ]
    );
}

#[test]
fn many_to_many_of_length_zero_is_empty() {
    let kind = MappingKind::ManyToMany {
        from_ip: LOCAL,
        from_port_range_start: 9000,
        to_ip: REMOTE,
        to_port_range_start: 10000,
        port_range_len: 0,
    };
    assert_eq!(kind.len(), 0);
    assert!(kind.pairs().is_empty());
}

#[test]
fn many_to_many_reaches_the_last_port() {
    let kind = MappingKind::ManyToMany {
        from_ip: LOCAL,
        from_port_range_start: 65534,
        to_ip: REMOTE,
        to_port_range_start: 1,
        port_range_len: 2,
    };
    assert!(kind.is_wf());
    assert_eq!(
        kind.pairs(),
        vec![(sock(LOCAL, 65534), sock(REMOTE, 1)), (sock(LOCAL, 65535), sock(REMOTE, 2))]
    );
    let beyond = MappingKind::ManyToMany {
        from_ip: LOCAL,
        from_port_range_start: 65534,
        to_ip: REMOTE,
        to_port_range_start: 1,
        port_range_len: 3,
    };
    assert!(!beyond.is_wf());
}

#[test]
fn addresses_make_the_three_shapes() {
    let single = |ip, port| Address { ip, port: Port::Single(port) };
    let range = |ip, start, end| Address { ip, port: Port::Range(PortRange { start, end }) };
    assert_eq!(
        MappingKind::from_addresses(&single(LOCAL, 8888), &single(REMOTE, 4444)),
        Ok(MappingKind::OneToOne { from: sock(LOCAL, 8888), to: sock(REMOTE, 4444) })
    );
    assert_eq!(
        MappingKind::from_addresses(&range(LOCAL, 9000, 9011), &single(REMOTE, 4444)),
        Ok(MappingKind::ManyToOne {
            from_ip: LOCAL,
            from_ports: PortRange { start: 9000, end: 9011 },
            to: sock(REMOTE, 4444),
        })
    );
    assert_eq!(
        MappingKind::from_addresses(&range(LOCAL, 9000, 9011), &range(REMOTE, 10000, 10011)),
        Ok(MappingKind::ManyToMany {
            from_ip: LOCAL,
            from_port_range_start: 9000,
            to_ip: REMOTE,
            to_port_range_start: 10000,
            port_range_len: 11,
        })
    );
}

#[test]
fn ranges_of_unequal_length_make_no_rule() {
    let range = |ip, start, end| Address { ip, port: Port::Range(PortRange { start, end }) };
    assert_eq!(
        MappingKind::from_addresses(&range(LOCAL, 9000, 9011), &range(REMOTE, 10000, 10010)),
        Err(ParseMappingError::InvalidPortRanges)
    );
}

#[test]
fn a_port_to_a_range_makes_no_rule() {
    let from = Address { ip: LOCAL, port: Port::Single(9000) };
    let to = Address { ip: REMOTE, port: Port::Range(PortRange { start: 1, end: 3 }) };
    assert_eq!(MappingKind::from_addresses(&from, &to), Err(ParseMappingError::InvalidMappingType));
}
