//! The decisions of one client connection.

use std::sync::Arc;

use mc_gateway::config::model::{
    BackendKind, Config, Forwarding, InboundProxyProtocol, Listener, Messages, Motd, Server,
};
use mc_gateway::config::net::{IpNet, IpNets};
use mc_gateway::forwarding::proxy_protocol::{encode_v2, encode_v2_local};
use mc_gateway::gateway::app::{listeners_changed, log_addr, platform_error, reload_warnings};
use mc_gateway::gateway::limits::Rejection;
use mc_gateway::gateway::session::{
    answer_legacy, kick, plan_login, plan_status, player_name, read_handshake,
    read_inbound_header, read_ping, read_status_request, record_bytes, record_outcome,
    rejection_message, Await, HandshakeOutcome, Inbound, LoginRefusal, Outcome, PingAnswer,
    StatusPlan, Transferred,
};
use mc_gateway::metrics::counters::Metrics;
use mc_gateway::net::{parse_ip, parse_socket, SocketAddr};
use mc_gateway::protocol::error::Error;
use mc_gateway::protocol::frame::{decode_frame, encode_packet};
use mc_gateway::protocol::handshake::{NextState, HANDSHAKE_ID};
use mc_gateway::protocol::legacy::LegacyPing;
use mc_gateway::protocol::status::{encode_pong, PING_REQUEST_ID};
use mc_gateway::protocol::varint::write_varint;
use mc_gateway::protocol::wire::Writer;
use mc_gateway::routing::registry::Registry;

fn addr(s: &str) -> SocketAddr {
    parse_socket(s).unwrap()
}

fn trusting(network: &str, prefix: u8) -> InboundProxyProtocol {
    let chars: Vec<char> = network.chars().collect();
    InboundProxyProtocol {
        enabled: true,
        trusted: IpNets(vec![IpNet { addr: parse_ip(&chars).unwrap(), prefix }]),
        required: false,
    }
}

#[test]
fn a_trusted_inbound_header_sets_the_client_address() {
    let settings = trusting("127.0.0.0", 8);
    let peer = addr("127.0.0.1:5");
    let mut buf = encode_v2(addr("203.0.113.7:51234"), addr("198.51.100.1:25565"));
    buf.extend_from_slice(b"handshake");
    assert_eq!(
        read_inbound_header(&settings, peer, &buf),
        Inbound::Client { address: addr("203.0.113.7:51234"), consumed: 28 }
    );
    assert_eq!(read_inbound_header(&settings, peer, &buf[..5]), Inbound::More);
    assert_eq!(
        read_inbound_header(&settings, peer, &encode_v2_local()),
        Inbound::Client { address: peer, consumed: 16 },
        "a health check is itself"
    );
}

#[test]
fn an_untrusted_inbound_header_is_never_believed() {
    let peer = addr("127.0.0.1:5");
    let buf = encode_v2(addr("203.0.113.7:51234"), addr("198.51.100.1:25565"));
    for settings in [trusting("10.0.0.0", 8), InboundProxyProtocol::default()] {
        assert_eq!(
            read_inbound_header(&settings, peer, &buf),
            Inbound::Client { address: peer, consumed: 0 }
        );
    }
}

#[test]
fn a_missing_header_from_a_trusted_peer_is_allowed_unless_required() {
    let settings = trusting("127.0.0.0", 8);
    let peer = addr("127.0.0.1:5");
    let bytes = [0x10, 0x00, 0xff, 0x05];
    assert_eq!(
        read_inbound_header(&settings, peer, &bytes),
        Inbound::Client { address: peer, consumed: 0 }
    );
}

#[test]
fn a_required_header_is_enforced() {
    let mut settings = trusting("127.0.0.0", 8);
    settings.required = true;
    let peer = addr("127.0.0.1:5");
    assert_eq!(read_inbound_header(&settings, peer, &[0x10, 0x00]), Inbound::Refused);
    assert_eq!(
        read_inbound_header(&settings, peer, b"PROXY TCP4 x\r\n"),
        Inbound::Refused,
        "a malformed one too"
    );
}

fn handshake(address: &str, next_state: i32) -> Vec<u8> {
    let mut w = Writer::new();
    w.varint(767).string(address).u16(25565).varint(next_state);
    encode_packet(HANDSHAKE_ID, w.as_slice())
}

#[test]
fn handshakes_are_read_and_left_in_place() {
    let bytes = handshake("a.net", 2);
    match read_handshake(&bytes, 8192) {
        HandshakeOutcome::Modern(handshake, len) => {
            assert_eq!(handshake.server_address, "a.net");
            assert_eq!(handshake.next_state, NextState::Login);
            assert_eq!(len, bytes.len());
        }
        other => panic!("{other:?}"),
    }
    assert_eq!(read_handshake(&bytes[..4], 8192), HandshakeOutcome::More);
    assert_eq!(
        read_handshake(&[0xFE, 0x01], 8192),
        HandshakeOutcome::Legacy(LegacyPing::Post14)
    );
    assert_eq!(
        read_handshake(&handshake("a.net", 9), 8192),
        HandshakeOutcome::Dropped {
            why: "unknown next_state",
            error: Error::UnknownNextState(9)
        }
    );
    assert_eq!(
        read_handshake(&encode_packet(7, &[]), 8192),
        HandshakeOutcome::Dropped {
            why: "malformed handshake",
            error: Error::UnexpectedPacket { expected: 0, actual: 7 }
        }
    );
}

#[test]
fn an_oversized_handshake_is_cut_off() {
    let mut buf = Vec::new();
    write_varint(&mut buf, 9000);
    buf.resize(100, 0);
    assert_eq!(read_handshake(&buf, 101), HandshakeOutcome::More);
    assert_eq!(read_handshake(&buf, 100), HandshakeOutcome::Refused("handshake_too_large"));
}

#[test]
fn the_ping_is_answered_with_the_clients_own_payload() {
    let mut w = Writer::new();
    w.i64(-5);
    let ping = encode_packet(PING_REQUEST_ID, w.as_slice());
    assert_eq!(
        read_ping(&ping),
        PingAnswer::Pong { packet: encode_pong(-5), consumed: ping.len() }
    );
    let short = encode_packet(PING_REQUEST_ID, &[1]);
    assert_eq!(
        read_ping(&short),
        PingAnswer::Pong { packet: encode_pong(0), consumed: short.len() }
    );
    assert_eq!(read_ping(&[]), PingAnswer::More);
    assert_eq!(read_ping(&encode_packet(0, &[])), PingAnswer::Done);
}

#[test]
fn the_status_request_comes_first() {
    let request = encode_packet(0, &[]);
    assert_eq!(read_status_request(&request), Await::Packet(2));
    assert_eq!(read_status_request(&request[..1]), Await::More);
    assert_eq!(read_status_request(&encode_packet(1, &[])), Await::Other);
    assert_eq!(read_status_request(&[0xff; 6]), Await::Malformed);
}

#[test]
fn pre_1_7_clients_get_a_legacy_reply() {
    let motd = Motd {
        text: "&bMy Network".into(),
        version_name: "1.21".into(),
        max_players: 500,
        ..Motd::default()
    };
    let packet = answer_legacy(LegacyPing::Pre13, &motd, 3);
    let units: Vec<u16> =
        packet[3..].chunks_exact(2).map(|c| u16::from_be_bytes([c[0], c[1]])).collect();
    assert_eq!(String::from_utf16(&units).unwrap(), "My Network\u{a7}3\u{a7}500");
}

#[test]
fn the_player_name_is_read_if_it_is_there() {
    let mut buf = handshake("a.net", 2);
    let len = buf.len();
    assert_eq!(player_name(&buf, len), None);
    let mut w = Writer::new();
    w.string("Notch");
    buf.extend_from_slice(&encode_packet(0, w.as_slice()));
    assert_eq!(player_name(&buf, len).as_deref(), Some("Notch"));
}

fn registry(max_connections: usize) -> Registry {
    let mut config = Config::default();
    config.routing.default = Some("small".into());
    config.servers = vec![(
        "small".into(),
        Server {
            address: "10.0.0.1:25565".into(),
            group: None,
            kind: BackendKind::Unknown,
            forwarding: Forwarding::Plain,
            weight: 1,
            max_connections,
            health: None,
        },
    )];
    config.health.fall = 1;
    Registry::build(Arc::new(config))
}

#[test]
fn a_backend_at_its_limit_reports_the_target_as_full() {
    let mut registry = registry(1);
    let at = registry.target_index("small");
    let (backend, guard) = plan_login(&mut registry, at).unwrap();
    assert_eq!(backend, 0);
    let refused = plan_login(&mut registry, at).unwrap_err();
    assert_eq!(refused, LoginRefusal::TargetFull);
    assert_eq!(refused.reason(), "target_full");
    assert_eq!(
        refused.message(&Messages::default()),
        "&cThe network is full, please try again later"
    );
    registry.release(guard);
    assert!(plan_login(&mut registry, at).is_ok(), "a freed slot is reusable");
}

#[test]
fn an_unhealthy_target_is_reported_as_offline() {
    let mut registry = registry(0);
    let at = registry.target_index("small");
    assert_eq!(plan_status(&mut registry, at, true), StatusPlan::Answer { offline: false });
    assert_eq!(plan_status(&mut registry, at, false), StatusPlan::Proxy(0));
    registry.backend_mut("small").unwrap().record_health(false, None);
    assert_eq!(plan_login(&mut registry, at).unwrap_err(), LoginRefusal::NoBackend);
    assert_eq!(plan_status(&mut registry, at, false), StatusPlan::Answer { offline: true });
}

#[test]
fn an_unknown_host_is_refused_with_a_reason() {
    let mut registry = registry(0);
    let refused = plan_login(&mut registry, None).unwrap_err();
    assert_eq!(refused, LoginRefusal::NoRoute);
    assert_eq!(refused.reason(), "no_route");
    assert_eq!(refused.message(&Messages::default()), "&cUnknown server address");
    let packet = kick(refused.message(&Messages::default()));
    let text = decode_frame(&packet).unwrap().reader().string(999).unwrap();
    assert_eq!(text, "{\"text\":\"\u{a7}cUnknown server address\"}");
}

#[test]
fn an_unroutable_host_still_gets_an_answer() {
    let mut registry = registry(0);
    assert_eq!(plan_status(&mut registry, None, true), StatusPlan::Answer { offline: true });
    assert_eq!(plan_status(&mut registry, Some(9), false), StatusPlan::Answer { offline: true });
}

#[test]
fn an_emptied_rate_bucket_produces_a_readable_kick() {
    let messages = Messages::default();
    assert_eq!(
        rejection_message(Rejection::RateLimited, &messages),
        Some("&cToo many connection attempts, slow down")
    );
    assert_eq!(rejection_message(Rejection::PerIpLimit, &messages), None);
    assert_eq!(rejection_message(Rejection::GlobalLimit, &messages), None);
}

#[test]
fn outcomes_are_counted() {
    let mut metrics = Metrics::new();
    record_outcome(&mut metrics, &Outcome::Refused("no_route"));
    record_outcome(&mut metrics, &Outcome::Dropped("gone"));
    let bytes = Transferred { to_backend: 4, to_client: 9 };
    record_outcome(
        &mut metrics,
        &Outcome::Proxied { backend: "a".into(), seconds: 60, bytes },
    );
    record_bytes(&mut metrics, bytes);
    assert_eq!(metrics.connections_rejected.get("no_route"), 1);
    assert_eq!((metrics.sessions_completed, metrics.session_seconds_total), (1, 60));
    assert_eq!(metrics.bytes.get("to_backend"), 4);
    assert_eq!(metrics.bytes.get("to_client"), 9);
    assert_eq!(Transferred::default(), Transferred { to_backend: 0, to_client: 0 });
}

#[test]
fn listener_changes_are_reported() {
    let listener = |backlog| Listener {
        name: "public".into(),
        bind: addr("0.0.0.0:25565"),
        proxy_protocol: InboundProxyProtocol::default(),
        backlog,
    };
    let mut running = Config::default();
    running.listeners = vec![listener(1024)];
    let mut new_config = Config::default();
    new_config.listeners = vec![listener(1024)];
    new_config.listeners[0].proxy_protocol.required = true;
    assert!(!listeners_changed(&running, &new_config), "that is applied without a restart");
    new_config.listeners[0].backlog = 1;
    assert!(listeners_changed(&running, &new_config));
    let warnings = reload_warnings(&running, &new_config, vec![]);
    assert_eq!(
        warnings,
        ["listener definitions changed; restart the gateway to apply them"]
    );
}

#[test]
fn addresses_are_logged_only_where_they_may_be() {
    assert_eq!(log_addr(addr("203.0.113.7:1"), true), "203.0.113.7:1");
    assert_eq!(log_addr(addr("203.0.113.7:1"), false), "redacted");
}

#[test]
fn transparent_forwarding_needs_linux() {
    let mut config = Config::default();
    config.servers = vec![(
        "a".into(),
        Server {
            address: "h:1".into(),
            group: None,
            kind: BackendKind::Unknown,
            forwarding: Forwarding::Transparent,
            weight: 1,
            max_connections: 0,
            health: None,
        },
    )];
    assert_eq!(platform_error(&config, true), None);
    assert_eq!(
        platform_error(&config, false).as_deref(),
        Some("server `a`: transparent forwarding requires Linux TPROXY")
    );
}
