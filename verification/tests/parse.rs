use tcp_proxy::ip::IpAddress;
use tcp_proxy::rule::{parse_target, parse_targets, ParseError, SocketAddress, Target};

#[test]
fn target_parse() {
    assert_eq!(
        parse_target(b"8080:192.168.0.100:80").unwrap(),
        Target {
            source: SocketAddress {
                ip: IpAddress::V4 { a: 0, b: 0, c: 0, d: 0 },
                port: 8080,
            },
            dest_host: b"192.168.0.100".to_vec(),
            dest_port: 80,
        }
    );

    assert_eq!(
        parse_target(b"127.0.0.1:8080:192.168.0.100:80").unwrap(),
        Target {
            source: SocketAddress {
                ip: IpAddress::V4 { a: 127, b: 0, c: 0, d: 1 },
                port: 8080,
            },
            dest_host: b"192.168.0.100".to_vec(),
            dest_port: 80,
        }
    );

    assert_eq!(
        parse_target(b"8080:[::1]:80").unwrap(),
        Target {
            source: SocketAddress {
                ip: IpAddress::V4 { a: 0, b: 0, c: 0, d: 0 },
                port: 8080,
            },
            dest_host: b"::1".to_vec(),
            dest_port: 80,
        }
    );

    assert_eq!(
        parse_target(b"[::1]:8080:[::1]:80").unwrap(),
        Target {
            source: SocketAddress {
                ip: IpAddress::V6 { g0: 0, g1: 0, g2: 0, g3: 0, g4: 0, g5: 0, g6: 0, g7: 1 },
                port: 8080,
            },
            dest_host: b"::1".to_vec(),
            dest_port: 80,
        }
    );

    assert_eq!(
        parse_target(b"8080:localhost:80").unwrap(),
        Target {
            source: SocketAddress {
                ip: IpAddress::V4 { a: 0, b: 0, c: 0, d: 0 },
                port: 8080,
            },
            dest_host: b"localhost".to_vec(),
            dest_port: 80,
        }
    );
}

#[test]
fn missing_destination_port() {
    assert_eq!(parse_target(b"80"), Err(ParseError::MissingDestinationPort));
    assert_eq!(parse_target(b""), Err(ParseError::MissingDestinationPort));
    assert_eq!(parse_target(b"localhost"), Err(ParseError::MissingDestinationPort));
}

#[test]
fn missing_destination_address() {
    // One colon only: once the port is split off, no destination remains.
    assert_eq!(parse_target(b"abc:80"), Err(ParseError::MissingDestinationAddress));
    // Bracket form with no opening bracket.
    assert_eq!(parse_target(b"]:80"), Err(ParseError::MissingDestinationAddress));
}

#[test]
fn colon_edge_cases() {
    // An empty section left of the only colon: no destination remains.
    assert_eq!(parse_target(b":80"), Err(ParseError::MissingDestinationAddress));
    // An unbracketed IPv6 destination misparses at the rightmost colon and
    // leaves an empty, invalid source address.
    assert_eq!(parse_target(b"::1:80"), Err(ParseError::InvalidSourceAddress));
}

#[test]
fn invalid_destination_port() {
    assert_eq!(parse_target(b"host:eighty"), Err(ParseError::InvalidDestinationPort));
    assert_eq!(parse_target(b"8080:host:65536"), Err(ParseError::InvalidDestinationPort));
    assert_eq!(parse_target(b"8080:host:"), Err(ParseError::InvalidDestinationPort));
}

#[test]
fn invalid_source_address() {
    assert_eq!(parse_target(b"zzz:80:host:80"), Err(ParseError::InvalidSourceAddress));
    assert_eq!(parse_target(b"1.2.3.4.5:80:host:80"), Err(ParseError::InvalidSourceAddress));
    assert_eq!(parse_target(b"256.0.0.1:80:host:80"), Err(ParseError::InvalidSourceAddress));
}

#[test]
fn invalid_source_port() {
    assert_eq!(parse_target(b"1.2.3.4:x:host:80"), Err(ParseError::InvalidSourcePort));
    assert_eq!(parse_target(b"8080x:host:80"), Err(ParseError::InvalidSourcePort));
    assert_eq!(parse_target(b"127.0.0.1:99999:host:80"), Err(ParseError::InvalidSourcePort));
}

#[test]
fn source_defaults_to_wildcard() {
    // Omitting the source address always yields the wildcard listen IP.
    let t = parse_target(b"9:example.net:443").unwrap();
    assert_eq!(t.source.ip, IpAddress::V4 { a: 0, b: 0, c: 0, d: 0 });
    assert_eq!(t.source.port, 9);

    let t = parse_target(b"65535:[2001:db8::1]:1").unwrap();
    assert_eq!(t.source.ip, IpAddress::V4 { a: 0, b: 0, c: 0, d: 0 });
    assert_eq!(t.source.port, 65535);
}

#[test]
fn source_brackets_are_transparent() {
    // The same IPv6 listen address, bracketed and bare.
    let bracketed = parse_target(b"[::1]:8080:[::1]:80").unwrap();
    let bare = parse_target(b"::1:8080:[::1]:80").unwrap();
    assert_eq!(bracketed, bare);
}

#[test]
fn destination_brackets_are_transparent() {
    // Brackets around a colon-free destination host never change the rule.
    let bracketed = parse_target(b"8080:[localhost]:80").unwrap();
    let bare = parse_target(b"8080:localhost:80").unwrap();
    assert_eq!(bracketed, bare);
}

#[test]
fn destination_host_kept_verbatim() {
    // A destination that is no IP literal is kept as written, unresolved.
    let t = parse_target(b"8080:no-such.example:80").unwrap();
    assert_eq!(t.dest_host, b"no-such.example".to_vec());
    assert_eq!(t.dest_port, 80);
}

#[test]
fn parse_targets_all_ok() {
    let rules = vec![b"8080:192.168.0.100:80".to_vec(), b"[::1]:8080:[::1]:80".to_vec()];
    let ts = parse_targets(&rules).unwrap();
    assert_eq!(ts.len(), 2);
    assert_eq!(ts[0].source.port, 8080);
    assert_eq!(ts[1].dest_host, b"::1".to_vec());
}

#[test]
fn parse_targets_fail_fast() {
    // The first failing rule decides the error; nothing is kept.
    let rules = vec![b"8080:host:80".to_vec(), b"80".to_vec(), b"zzz:80:host:80".to_vec()];
    assert_eq!(parse_targets(&rules), Err(ParseError::MissingDestinationPort));

    let rules = vec![b"zzz:80:host:80".to_vec(), b"80".to_vec()];
    assert_eq!(parse_targets(&rules), Err(ParseError::InvalidSourceAddress));
}
