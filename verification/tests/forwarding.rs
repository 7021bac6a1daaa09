//! PROXY headers and how backends are reached.

use mc_gateway::config::model::Forwarding;
use mc_gateway::forwarding::connect::{
    effective_forwarding, opening_bytes, ConnectError, Mode, Origin,
};
use mc_gateway::forwarding::inbound;
use mc_gateway::forwarding::proxy_protocol::{
    encode_v2, encode_v2_local, parse, ParseError, ProxyHeader, V1_MAX_LEN, V2_SIGNATURE,
};
use mc_gateway::forwarding::transparent::{is_supported, match_family};
use mc_gateway::net::{parse_socket, SocketAddr};
use mc_gateway::time::Duration;

fn addr(s: &str) -> SocketAddr {
    parse_socket(s).unwrap()
}

#[test]
fn v2_ipv4_header_matches_the_specification_layout() {
    let header = encode_v2(addr("203.0.113.7:51234"), addr("198.51.100.1:25565"));
    assert_eq!(&header[..12], &V2_SIGNATURE);
    assert_eq!(header[12], 0x21, "version 2, PROXY command");
    assert_eq!(header[13], 0x11, "TCP over IPv4");
    assert_eq!(u16::from_be_bytes([header[14], header[15]]), 12);
    assert_eq!(header.len(), 28);
    assert_eq!(&header[16..20], &[203, 0, 113, 7]);
    assert_eq!(&header[24..26], &51234u16.to_be_bytes());
}

#[test]
fn v2_roundtrips_for_both_families() {
    for (src, dst) in [
        ("203.0.113.7:51234", "198.51.100.1:25565"),
        ("[2001:db8::7]:51234", "[2001:db8::1]:25565"),
    ] {
        let (src, dst) = (addr(src), addr(dst));
        let encoded = encode_v2(src, dst);
        let (header, len) = parse(&encoded).unwrap();
        assert_eq!(len, encoded.len());
        assert_eq!(header, ProxyHeader::Proxy { src, dst });
    }
}

#[test]
fn mixed_families_are_expressed_as_ipv6() {
    let encoded = encode_v2(addr("203.0.113.7:51234"), addr("[2001:db8::1]:25565"));
    assert_eq!(encoded[13], 0x21, "TCP over IPv6");
    let (header, _) = parse(&encoded).unwrap();
    let ProxyHeader::Proxy { src, .. } = header else { panic!("expected a PROXY header") };
    assert_eq!(src, addr("[::ffff:203.0.113.7]:51234"));
}

#[test]
fn local_header_carries_no_identity() {
    let encoded = encode_v2_local();
    assert_eq!(encoded.len(), 16);
    let (header, len) = parse(&encoded).unwrap();
    assert_eq!(header, ProxyHeader::Local);
    assert_eq!(header.source(), None);
    assert_eq!(len, 16);
}

#[test]
fn parses_v1_text_headers() {
    let raw = b"PROXY TCP4 203.0.113.7 198.51.100.1 51234 25565\r\nrest";
    let (header, len) = parse(raw).unwrap();
    assert_eq!(
        header,
        ProxyHeader::Proxy { src: addr("203.0.113.7:51234"), dst: addr("198.51.100.1:25565") }
    );
    assert_eq!(&raw[len..], b"rest");

    let (unknown, _) = parse(b"PROXY UNKNOWN\r\n").unwrap();
    assert_eq!(unknown, ProxyHeader::Local);
}

#[test]
fn proxy_protocol_partial_headers_ask_for_more_bytes() {
    let full = encode_v2(addr("203.0.113.7:51234"), addr("198.51.100.1:25565"));
    for cut in 1..full.len() {
        assert_eq!(parse(&full[..cut]), Err(ParseError::Incomplete), "cut at {cut}");
    }
    assert_eq!(parse(b"PROXY TCP4 203.0.113.7 "), Err(ParseError::Incomplete));
}

#[test]
fn a_minecraft_handshake_is_recognised_as_having_no_header() {
    // Length 16, packet id 0, protocol 767...
    assert_eq!(parse(&[0x10, 0x00, 0xff, 0x05, 0x09]), Err(ParseError::NotPresent));
}

#[test]
fn refuses_to_buffer_an_unbounded_header() {
    let mut bomb = V2_SIGNATURE.to_vec();
    bomb.push(0x21);
    bomb.push(0x11);
    bomb.extend_from_slice(&65535u16.to_be_bytes());
    assert_eq!(parse(&bomb), Err(ParseError::TooLong));

    let mut v1_bomb = b"PROXY TCP4 ".to_vec();
    v1_bomb.extend(std::iter::repeat_n(b'1', V1_MAX_LEN));
    assert_eq!(parse(&v1_bomb), Err(ParseError::TooLong));
}

#[test]
fn malformed_headers_say_what_is_wrong() {
    let v2 = |command: u8, family: u8, body: &[u8]| {
        let mut bytes = V2_SIGNATURE.to_vec();
        bytes.extend_from_slice(&[command, family, 0, body.len() as u8]);
        bytes.extend_from_slice(body);
        bytes
    };
    assert_eq!(parse(&v2(0x31, 0x11, &[])), Err(ParseError::Malformed("unsupported version")));
    assert_eq!(parse(&v2(0x22, 0x11, &[])), Err(ParseError::Malformed("unknown command")));
    assert_eq!(
        parse(&v2(0x21, 0x11, &[0; 11])),
        Err(ParseError::Malformed("short IPv4 address block"))
    );
    assert_eq!(
        parse(&v2(0x21, 0x21, &[0; 35])),
        Err(ParseError::Malformed("short IPv6 address block"))
    );
    assert_eq!(parse(&v2(0x21, 0x00, &[0; 3])), Ok((ProxyHeader::Local, 19)));
    for (line, fault) in [
        (&b"PROXY TCP9 x\r\n"[..], "unknown family"),
        (b"PROXY TCP4\r\n", "missing field"),
        (b"PROXY TCP4 x y 1 2\r\n", "bad source IP"),
        (b"PROXY TCP4 1.2.3.4 y 1 2\r\n", "bad dest IP"),
        (b"PROXY TCP4 1.2.3.4 1.2.3.4 x 2\r\n", "bad source port"),
        (b"PROXY TCP4 1.2.3.4 1.2.3.4 1 70000\r\n", "bad dest port"),
        (b"PROXY \xff\r\n", "not UTF-8"),
    ] {
        assert_eq!(parse(line), Err(ParseError::Malformed(fault)));
    }
}

fn v2_header(src: &str, dst: &str) -> Vec<u8> {
    let address =
        proxy_header::ProxiedAddress::stream(src.parse().unwrap(), dst.parse().unwrap());
    let header = proxy_header::ProxyHeader::with_address(address);
    let mut buf = vec![0u8; 128];
    let len = header.encode_to_slice_v2(&mut buf).expect("encodes");
    buf.truncate(len);
    buf
}

#[test]
fn reads_a_v2_header() {
    let raw = v2_header("203.0.113.7:51234", "198.51.100.1:25565");
    let (source, len) = inbound::parse(&raw).unwrap();
    assert_eq!(source, Some(addr("203.0.113.7:51234")));
    assert_eq!(len, raw.len());

    let raw = v2_header("[2001:db8::7]:51234", "[2001:db8::1]:25565");
    assert_eq!(inbound::parse(&raw).unwrap().0, Some(addr("[2001:db8::7]:51234")));
}

#[test]
fn reads_a_v1_header_and_leaves_the_rest() {
    let raw = b"PROXY TCP4 203.0.113.7 198.51.100.1 51234 25565\r\nhandshake";
    let (source, len) = inbound::parse(raw).unwrap();
    assert_eq!(source, Some(addr("203.0.113.7:51234")));
    assert_eq!(&raw[len..], b"handshake");
}

#[test]
fn a_local_header_carries_no_client() {
    let mut buf = vec![0u8; 64];
    let len = proxy_header::ProxyHeader::with_local().encode_to_slice_v2(&mut buf).unwrap();
    buf.truncate(len);
    assert_eq!(inbound::parse(&buf).unwrap(), (None, len));
}

#[test]
fn inbound_partial_headers_ask_for_more_bytes() {
    let full = v2_header("203.0.113.7:51234", "198.51.100.1:25565");
    for cut in 1..full.len() {
        assert_eq!(inbound::parse(&full[..cut]), Err(inbound::Error::Incomplete), "cut at {cut}");
    }
    assert_eq!(inbound::parse(b"PROXY TCP4 203.0.113.7 "), Err(inbound::Error::Incomplete));
}

#[test]
fn a_minecraft_handshake_is_no_header_rather_than_a_bad_one() {
    // Length 16, packet id 0, protocol 767... nothing like either prefix.
    assert_eq!(inbound::parse(&[0x10, 0x00, 0xff, 0x05, 0x09]), Err(inbound::Error::NotPresent));
    assert!(!inbound::could_be_header(&[0x10, 0x00]));
    assert!(inbound::could_be_header(&[0x0D, 0x0A]), "a partial v2 signature stays possible");
    assert!(inbound::could_be_header(b"PRO"));
}

#[test]
fn garbage_after_a_valid_prefix_is_malformed() {
    let mut raw = V2_SIGNATURE.to_vec();
    raw.extend_from_slice(&[0xFF; 20]);
    assert_eq!(inbound::parse(&raw), Err(inbound::Error::Malformed));
}

#[test]
fn a_parsed_header_is_judged() {
    let source = Some(addr("203.0.113.7:1"));
    assert_eq!(
        inbound::judge(true, inbound::Parsed::Header { source, len: 28 }),
        Ok((source, 28))
    );
    assert_eq!(inbound::judge(true, inbound::Parsed::TooShort), Err(inbound::Error::Incomplete));
    assert_eq!(inbound::judge(true, inbound::Parsed::Invalid), Err(inbound::Error::Malformed));
    assert_eq!(inbound::judge(false, inbound::Parsed::TooShort), Err(inbound::Error::NotPresent));
}

#[test]
fn both_parsers_read_what_the_gateway_writes() {
    let (src, dst) = (addr("[2001:db8::7]:9"), addr("[2001:db8::1]:25565"));
    let bytes = encode_v2(src, dst);
    assert_eq!(inbound::parse(&bytes), Ok((Some(src), bytes.len())));
    assert_eq!(inbound::parse(&encode_v2_local()), Ok((None, 16)));
}

#[test]
fn transparent_unmaps_v4_clients_for_v4_backends() {
    let bound = match_family(addr("[::ffff:203.0.113.7]:51234"), addr("10.0.0.1:25565")).unwrap();
    assert_eq!(bound, addr("203.0.113.7:51234"));
}

#[test]
fn transparent_maps_v4_clients_onto_v6_backends() {
    let bound = match_family(addr("203.0.113.7:51234"), addr("[2001:db8::1]:25565")).unwrap();
    assert_eq!(bound, addr("[::ffff:203.0.113.7]:51234"));
}

#[test]
fn transparent_refuses_v6_client_to_v4_backend() {
    let err = match_family(addr("[2001:db8::7]:51234"), addr("10.0.0.1:25565")).unwrap_err();
    assert_eq!(
        err.to_text(),
        "cannot transparently connect an IPv6 client ([2001:db8::7]:51234) to an IPv4 backend \
         (10.0.0.1:25565); give the backend an IPv6 address"
    );
}

#[test]
fn reports_unsupported_off_linux() {
    assert!(!is_supported("macos"));
    assert!(is_supported("linux"));
}

#[test]
fn nothing_to_check_off_linux() {
    // Without TPROXY no client address is ever bound, so nothing can be missing.
    let origin = Origin::Client { src: addr("203.0.113.7:1"), dst: addr("198.51.100.1:2") };
    assert_eq!(Mode::current("windows").bind_for(origin), None);
}

#[test]
fn the_mode_follows_the_platform() {
    for (target_os, linux) in [("linux", true), ("macos", false), ("windows", false)] {
        assert_eq!(Mode::current(target_os) == Mode::Transparent, linux);
        assert_eq!(
            Mode::current(target_os).as_str(),
            if linux { "transparent" } else { "direct" }
        );
    }
}

#[test]
fn only_clients_are_imitated() {
    let src = addr("203.0.113.7:1");
    let client = Origin::Client { src, dst: addr("198.51.100.1:2") };
    assert_eq!(Mode::Transparent.bind_for(client), Some(src));
    assert_eq!(Mode::Transparent.bind_for(Origin::Gateway), None);
    assert_eq!(effective_forwarding(Forwarding::Transparent, false), Forwarding::Plain);
    assert_eq!(effective_forwarding(Forwarding::Transparent, true), Forwarding::Transparent);
    assert!(opening_bytes(Forwarding::Plain, client).is_empty());
    assert_eq!(opening_bytes(Forwarding::ProxyProtocolV2, Origin::Gateway), encode_v2_local());
    assert_eq!(
        parse(&opening_bytes(Forwarding::ProxyProtocolV2, client)).unwrap().0.source(),
        Some(src)
    );
}

#[test]
fn connect_errors_have_labels_and_words() {
    let timeout = ConnectError::Timeout {
        address: "203.0.113.1:25565".into(),
        timeout: Duration::from_millis(150),
    };
    assert_eq!(timeout.kind(), "timeout");
    assert_eq!(timeout.to_text(), "connect to 203.0.113.1:25565 timed out after 150ms");
    let none = ConnectError::NoAddress { address: "x:1".into() };
    assert_eq!((none.kind(), none.to_text()), ("no_address", "`x:1` resolved to no addresses".into()));
    let io = ConnectError::Io { address: "x:1".into(), reason: "refused".into() };
    assert_eq!((io.kind(), io.to_text()), ("io", "connect to x:1 failed: refused".into()));
    let resolve = ConnectError::Resolve { address: "x:1".into(), reason: "no".into() };
    assert_eq!((resolve.kind(), resolve.to_text()), ("resolve", "cannot resolve `x:1`: no".into()));
}

#[test]
fn scopes_are_part_of_an_address() {
    let scoped = addr("[fe80::1%2]:25565");
    assert_eq!((scoped.port, scoped.scope), (25565, 2));
    assert_eq!(scoped.to_text(), "[fe80::1%2]:25565");
    assert_ne!(scoped, addr("[fe80::1]:25565"));
    assert_eq!(addr("[fe80::1%0]:1"), addr("[fe80::1]:1"));
    for bad in ["[fe80::1%]:1", "[fe80::1%x]:1", "[fe80::1%4294967296]:1", "1.2.3.4%2:1"] {
        assert_eq!(parse_socket(bad), None, "{bad}");
    }
    assert_eq!(match_family(scoped, addr("[::1]:1")), Ok(scoped));
}
