use wolly::config::{lines, parse_stream, Config, Directive, ParseError, ParseErrorKind, Statement};
use wolly::connect::{Action, ConnectOpts};
use wolly::forwarder::{App, AppError, Tunnel};
use wolly::hardware_addr::HardwareAddr;
use wolly::mapping::{Mapping, MappingKind};
use wolly::net::{IpAddress, PortRange, SocketAddress};
use wolly::parse::{ParseMappingError, Word};
use wolly::upstream::{Registry, RegistryError, Upstream};

fn ip(text: &str) -> Option<IpAddress> {
    let parts: Vec<&str> = text.split('.').collect();
    if parts.len() != 4 {
        return None;
    }
    let mut bits = 0u32;
    for part in parts {
        bits = bits << 8 | u32::from(part.parse::<u8>().ok()?);
    }
    Some(IpAddress::V4(bits))
}

fn denote(mut word: Word) -> Word {
    word.ip = ip(&word.text);
    word.host = word.text.clone().split_once(':').and_then(|(host, _)| ip(host));
    word
}

fn statements(text: &str) -> Vec<Statement> {
    lines(text)
        .into_iter()
        .map(|line| Statement {
            line: line.number,
            words: parse_stream(&line.text).into_iter().map(denote).collect(),
        })
        .collect()
}

fn texts(line: &str) -> Vec<String> {
    parse_stream(line).into_iter().map(|w| w.text).collect()
}

fn host(last: u8) -> Upstream {
    Upstream {
        mac: HardwareAddr([1, 2, 3, 4, 5, last]),
        address: IpAddress::V4(0x0a00_0000 | u32::from(last)),
        broadcast: IpAddress::V4(0x0a00_00ff),
    }
}

fn rule(port: u16, to: u8) -> Mapping {
    Mapping {
        kind: MappingKind::OneToOne {
            from: SocketAddress { ip: IpAddress::V4(0), port },
            to: SocketAddress { ip: host(to).address, port },
        },
        opts: ConnectOpts::default(),
    }
}

#[test]
fn a_line_splits_into_words() {
    assert_eq!(
        texts("upstream 10.0.0.17 mac 01:02:03:04:05:06 brd 10.0.0.255"),
        ["upstream", "10.0.0.17", "mac", "01:02:03:04:05:06", "brd", "10.0.0.255"]
    );
    assert_eq!(texts("  forward\t0.0.0.0:8888   to 10.0.0.17:4444 "), [
        "forward",
        "0.0.0.0:8888",
        "to",
        "10.0.0.17:4444"
    ]);
    assert_eq!(texts(""), Vec::<String>::new());
    assert_eq!(texts("   "), Vec::<String>::new());
}

#[test]
fn quotes_keep_white_space_within_a_word() {
    assert_eq!(texts("name 'my nas' \"a b\" c"), ["name", "my nas", "a b", "c"]);
    assert_eq!(texts("1 \"2 3 4"), ["1", "2 3 4"]);
    assert_eq!(texts("\"\""), [""]);
}

#[test]
fn new_words_denote_nothing() {
    for word in parse_stream("upstream 10.0.0.17 2.0") {
        assert_eq!(word.ip, None);
        assert_eq!(word.host, None);
        assert_eq!(word.factor, None);
    }
}

#[test]
fn directive_lines_keep_their_numbers() {
    let text = "# hosts\nupstream a\n\n   \n  forward b  \r\n#forward c\nlast";
    let found: Vec<(usize, String)> =
        lines(text).into_iter().map(|line| (line.number, line.text)).collect();
    assert_eq!(
        found,
        [(2, "upstream a".to_string()), (5, "forward b".to_string()), (7, "last".to_string())]
    );
}

#[test]
fn texts_without_directives_have_no_lines() {
    assert!(lines("").is_empty());
    assert!(lines("\n\n").is_empty());
    assert!(lines("# only a comment").is_empty());
    assert!(lines("   \n\t#x\n").is_empty());
}

#[test]
fn lines_agree_with_the_standard_library() {
    for text in ["a", "a\n", "a\nb", "\na", "a\r\nb\r\n", "a\n\nb\n", " a \n#b\n c", "a\rb\nc\r"] {
        let expected: Vec<(usize, String)> = text
            .lines()
            .map(str::trim)
            .enumerate()
            .filter(|(_, line)| !line.is_empty())
            .filter(|(_, line)| !line.starts_with('#'))
            .map(|(i, line)| (i + 1, line.to_string()))
            .collect();
        let found: Vec<(usize, String)> =
            lines(text).into_iter().map(|line| (line.number, line.text)).collect();
        assert_eq!(found, expected, "{text:?}");
    }
}

const CONFIG: &str = "\
# the hosts
upstream 10.0.0.17 mac 01:02:03:04:05:06 brd 10.0.0.255
upstream 10.0.0.18 mac 0a:0b:0c:0d:0e:0f brd 10.0.0.255

# the rules
forward 0.0.0.0:8888 to 10.0.0.17:4444
forward 0.0.0.0:9000-9002 to 10.0.0.18:10000-10002 max-attempts 2
verbose on
";

#[test]
fn a_configuration_declares_hosts_and_rules() {
    let config = Config::read(&statements(CONFIG)).unwrap();
    assert_eq!(config.upstream.len(), 2);
    assert_eq!(config.mappings.len(), 2);
    assert_eq!(config.upstream.records[0].address, IpAddress::V4(0x0a00_0011));
    assert_eq!(config.upstream.records[1].mac, HardwareAddr([10, 11, 12, 13, 14, 15]));
    assert_eq!(config.mappings[1].opts.max_attempts, 2);

    let app = config.into_app().unwrap();
    assert!(app.is_wf());
    let to = |last: u32, port: u16| SocketAddress { ip: IpAddress::V4(0x0a00_0000 | last), port };
    let from = |port: u16| SocketAddress { ip: IpAddress::V4(0), port };
    let found: Vec<(SocketAddress, SocketAddress, u64)> =
        app.tunnels().iter().map(|t| (t.from, t.to, t.opts.max_attempts)).collect();
    assert_eq!(
        found,
        [
            (from(8888), to(0x11, 4444), 5),
            (from(9000), to(0x12, 10000), 2),
            (from(9001), to(0x12, 10001), 2),
            (from(9002), to(0x12, 10002), 2),
        ]
    );
}

#[test]
fn the_first_error_ends_the_reading() {
    let text = "upstream 10.0.0.17 mac 01:02:03:04:05:06 brd 10.0.0.255\n\n\
                forward 0.0.0.0:9000-9010 to 10.0.0.17:1-5\nupstream nowhere\n";
    assert_eq!(
        Config::read(&statements(text)).err(),
        Some(ParseError {
            line: 3,
            kind: ParseErrorKind::Mapping(ParseMappingError::InvalidPortRanges),
        })
    );
}

#[test]
fn a_host_declared_twice_is_an_error_at_its_line() {
    let text = "upstream 10.0.0.17 mac 01:02:03:04:05:06 brd 10.0.0.255\n\
                # again\n\
                upstream 10.0.0.17 mac 0a:0b:0c:0d:0e:0f brd 10.0.0.255\n";
    assert_eq!(
        Config::read(&statements(text)).err(),
        Some(ParseError { line: 3, kind: ParseErrorKind::DuplicateUpstreamDirectives })
    );
}

#[test]
fn declaring_changes_what_it_says() {
    let mut config = Config::new();
    assert_eq!(config.declare(1, Directive::Upstream(host(1))), Ok(()));
    assert_eq!(config.declare(2, Directive::Skipped), Ok(()));
    assert_eq!(config.declare(3, Directive::Forward(rule(80, 1))), Ok(()));
    assert_eq!(
        config.declare(4, Directive::Upstream(host(1))),
        Err(ParseError { line: 4, kind: ParseErrorKind::DuplicateUpstreamDirectives })
    );
    assert_eq!(config.upstream.len(), 1);
    assert_eq!(config.mappings, vec![rule(80, 1)]);
    let words: Vec<Word> = parse_stream("upstream 10.0.0.2 mac 01:02:03:04:05:06 brd 10.0.0.255")
        .into_iter()
        .map(denote)
        .collect();
    assert_eq!(config.read_line(5, &words), Ok(()));
    assert_eq!(config.upstream.len(), 2);
    assert_eq!(
        config.read_line(6, &words),
        Err(ParseError { line: 6, kind: ParseErrorKind::DuplicateUpstreamDirectives })
    );
}

#[test]
fn a_registry_finds_hosts_by_their_address() {
    let mut registry = Registry::new();
    assert_eq!(registry.len(), 0);
    assert!(registry.lookup(host(1).address).is_none());
    assert_eq!(registry.insert(host(1)), Ok(()));
    assert_eq!(registry.insert(host(2)), Ok(()));
    assert_eq!(registry.len(), 2);
    assert!(registry.contains(host(2).address));
    assert!(!registry.contains(host(3).address));
    assert_eq!(registry.lookup(host(2).address).map(|h| h.mac), Some(host(2).mac));
    assert!(registry.is_wf());
}

#[test]
fn two_hosts_with_one_address_fail_as_duplicates() {
    let mut again = host(1);
    again.mac = HardwareAddr([9, 9, 9, 9, 9, 9]);
    assert_eq!(
        Registry::from_records(vec![host(1), host(2), again, host(2)]).err(),
        Some(RegistryError::DuplicateUpstream(host(1).address))
    );
    let mut registry = Registry::from_records(vec![host(1), host(2)]).unwrap();
    assert_eq!(registry.insert(again), Err(RegistryError::DuplicateUpstream(host(1).address)));
    assert_eq!(registry.len(), 2);
    assert_eq!(registry.lookup(host(1).address).map(|h| h.mac), Some(host(1).mac));
    let broken = Registry { records: vec![host(1), again] };
    assert!(!broken.is_wf());
}

#[test]
fn a_forwarder_needs_distinct_hosts_and_known_destinations() {
    assert_eq!(
        App::new(vec![host(1), host(1)], vec![rule(80, 7)]).err(),
        Some(AppError::DuplicateUpstream(host(1).address))
    );
    assert_eq!(
        App::new(vec![host(1)], vec![rule(80, 1), rule(81, 7), rule(82, 8)]).err(),
        Some(AppError::UnknownUpstream(host(7).address))
    );
    let beyond = Mapping {
        kind: MappingKind::ManyToMany {
            from_ip: IpAddress::V4(0),
            from_port_range_start: 65535,
            to_ip: host(1).address,
            to_port_range_start: 1,
            port_range_len: 2,
        },
        opts: ConnectOpts::default(),
    };
    assert_eq!(App::new(vec![host(1)], vec![beyond]).err(), Some(AppError::InvalidPortRange));
    let broken = App { upstream: Registry { records: vec![host(1)] }, mappings: vec![beyond] };
    assert!(!broken.is_wf());
    let app = App::new(vec![host(1)], vec![]).unwrap();
    assert!(app.tunnels().is_empty());
    assert_eq!(app.run(), Err(AppError::NoMappings));
    let app = App::new(vec![host(1)], vec![rule(80, 1)]).unwrap();
    assert_eq!(app.run(), Ok(app.tunnels()));
}

#[test]
fn tunnels_come_rule_by_rule_and_port_by_port() {
    let many = Mapping {
        kind: MappingKind::ManyToOne {
            from_ip: IpAddress::V4(0),
            from_ports: PortRange { start: 9000, end: 9002 },
            to: SocketAddress { ip: host(2).address, port: 22 },
        },
        opts: ConnectOpts { max_attempts: 9, ..ConnectOpts::default() },
    };
    let app = App::new(vec![host(1), host(2)], vec![rule(80, 1), many, rule(81, 2)]).unwrap();
    let from = |port: u16| SocketAddress { ip: IpAddress::V4(0), port };
    assert_eq!(
        app.tunnels(),
        vec![
            Tunnel { from: from(80), to: SocketAddress { ip: host(1).address, port: 80 }, opts: ConnectOpts::default() },
            Tunnel { from: from(9000), to: SocketAddress { ip: host(2).address, port: 22 }, opts: many.opts },
            Tunnel { from: from(9001), to: SocketAddress { ip: host(2).address, port: 22 }, opts: many.opts },
            Tunnel { from: from(81), to: SocketAddress { ip: host(2).address, port: 81 }, opts: ConnectOpts::default() },
        ]
    );
}

#[test]
fn a_tunnel_gets_its_host_and_a_connector() {
    let app = App::new(vec![host(1), host(2)], vec![rule(80, 2)]).unwrap();
    let tunnel = app.tunnels()[0];
    let (found, connector) = app.connector(&tunnel).unwrap();
    assert_eq!(found.mac, host(2).mac);
    assert_eq!(connector.target, tunnel.to);
    assert_eq!(connector.opts, tunnel.opts);
    assert_eq!(connector.action(), Action::Connect);
    assert_eq!(app.lookup(host(1).address).map(|h| h.mac), Some(host(1).mac));
    assert!(app.lookup(host(3).address).is_none());
    let stray = Tunnel { to: SocketAddress { ip: host(3).address, port: 1 }, ..tunnel };
    assert!(app.connector(&stray).is_none());
    let started = host(1).connect(22, &ConnectOpts::default());
    assert_eq!(started.target, SocketAddress { ip: host(1).address, port: 22 });
    assert_eq!(started.failures, 0);
}
