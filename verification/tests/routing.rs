//! Host matching, backend selection and health.

use std::sync::Arc;

use mc_gateway::config::duration::HumanDuration;
use mc_gateway::config::model::{
    BackendKind, Config, Forwarding, Group, InboundProxyProtocol, Listener, Policy, Rule, Server,
};
use mc_gateway::net::parse_socket;
use mc_gateway::protocol::frame::{decode_frame, encode_packet};
use mc_gateway::protocol::handshake::{Handshake, NextState};
use mc_gateway::protocol::status::{encode_status_response, STATUS_REQUEST_ID};
use mc_gateway::protocol::wire::Writer;
use mc_gateway::routing::matcher::Matcher;
use mc_gateway::routing::ping::{
    parse_status, probe_request, read_response, StatusError, PROBE_PROTOCOL,
};
use mc_gateway::routing::registry::{Registry, SelectError, StatusSnapshot};
use mc_gateway::time::Duration;

fn listener(name: &str, bind: &str) -> Listener {
    Listener {
        name: name.into(),
        bind: parse_socket(bind).unwrap(),
        proxy_protocol: InboundProxyProtocol::default(),
        backlog: 1024,
    }
}

fn server(address: &str, group: Option<&str>) -> Server {
    Server {
        address: address.into(),
        group: group.map(str::to_owned),
        kind: BackendKind::Unknown,
        forwarding: Forwarding::Plain,
        weight: 1,
        max_connections: 0,
        health: None,
    }
}

fn rule(host: &str, target: &str, listeners: Option<&str>) -> Rule {
    Rule {
        host: host.into(),
        target: target.into(),
        listeners: listeners.map(|name| vec![name.to_owned()]),
        motd: None,
    }
}

// ------------------------------------------------------------------ matcher --

fn routes() -> Config {
    let mut config = Config::default();
    config.listeners =
        vec![listener("public", "0.0.0.0:25565"), listener("internal", "127.0.0.1:25566")];
    config.routing.default = Some("fallback".into());
    config.routing.rules = vec![
        rule("survival.example.net", "survival", None),
        rule("*.play.example.net", "play-specific", None),
        rule("*.example.net", "play-generic", None),
        rule("admin.example.net", "admin", Some("internal")),
    ];
    config.servers = vec![
        ("admin".into(), server("10.0.0.4:25565", None)),
        ("fallback".into(), server("10.0.0.5:25565", None)),
        ("play-generic".into(), server("10.0.0.3:25565", None)),
        ("play-specific".into(), server("10.0.0.2:25565", None)),
        ("survival".into(), server("10.0.0.1:25565", None)),
    ];
    assert!(config.validate(true).is_ok());
    config
}

fn target(config: &Config, host: &str, listener: &str) -> Option<String> {
    let matcher = Matcher::build(config);
    matcher.match_host(host, listener).map(|hit| hit.target.to_owned())
}

#[test]
fn exact_hosts_win_over_wildcards() {
    let hit = target(&routes(), "survival.example.net", "public");
    assert_eq!(hit.as_deref(), Some("survival"));
}

#[test]
fn the_longest_wildcard_wins() {
    let config = routes();
    assert_eq!(
        target(&config, "eu.play.example.net", "public").as_deref(),
        Some("play-specific")
    );
    assert_eq!(
        target(&config, "creative.example.net", "public").as_deref(),
        Some("play-generic")
    );
}

#[test]
fn wildcards_cover_the_bare_domain_and_deep_subdomains() {
    let config = routes();
    assert_eq!(target(&config, "example.net", "public").as_deref(), Some("play-generic"));
    assert_eq!(target(&config, "a.b.c.example.net", "public").as_deref(), Some("play-generic"));
}

#[test]
fn unmatched_hosts_fall_back_to_the_default() {
    let matcher = Matcher::build(&routes());
    let hit = matcher.match_host("something.else.invalid", "public").unwrap();
    assert_eq!(hit.target, "fallback");
    assert!(hit.rule.is_none(), "the default is not a rule");
}

#[test]
fn listener_restrictions_are_honoured() {
    let config = routes();
    // On the public listener the admin rule is skipped and the wildcard
    // catches it instead.
    assert_eq!(target(&config, "admin.example.net", "public").as_deref(), Some("play-generic"));
    assert_eq!(target(&config, "admin.example.net", "internal").as_deref(), Some("admin"));
}

#[test]
fn matching_is_case_insensitive() {
    let hit = target(&routes(), "SURVIVAL.Example.NET", "public");
    assert_eq!(hit.as_deref(), Some("survival"));
}

#[test]
fn without_a_default_unknown_hosts_are_refused() {
    let mut config = Config::default();
    config.listeners = vec![listener("public", "0.0.0.0:25565")];
    config.routing.rules = vec![rule("survival.example.net", "survival", None)];
    config.servers = vec![("survival".into(), server("10.0.0.1:25565", None))];
    assert!(target(&config, "unknown.example.net", "public").is_none());
}

#[test]
fn a_catch_all_rule_beats_no_default() {
    let mut config = Config::default();
    config.listeners = vec![listener("public", "0.0.0.0:25565")];
    config.routing.rules = vec![rule("*", "hub", None)];
    config.servers = vec![("hub".into(), server("10.0.0.1:25565", None))];
    assert_eq!(target(&config, "literally.anything", "public").as_deref(), Some("hub"));
    assert_eq!(target(&config, "", "public").as_deref(), Some("hub"));
}

#[test]
fn the_first_of_equal_rules_wins() {
    let mut config = routes();
    config.routing.rules = vec![
        rule("*.a.net", "first", None),
        rule("*.b.net", "other", None),
        rule("*.a.net", "second", None),
        rule("x.a.net", "exact-first", None),
        rule("X.a.net", "exact-second", None),
        rule("*", "all-first", Some("internal")),
        rule("*", "all-second", None),
    ];
    assert_eq!(target(&config, "y.a.net", "public").as_deref(), Some("first"));
    assert_eq!(target(&config, "x.a.net", "public").as_deref(), Some("exact-first"));
    assert_eq!(target(&config, "z", "public").as_deref(), Some("all-second"));
    assert_eq!(target(&config, "z", "internal").as_deref(), Some("all-first"));
}

// ----------------------------------------------------------------- registry --

fn group(policy: Policy) -> Config {
    let mut config = Config::default();
    config.listeners = vec![listener("public", "0.0.0.0:25565")];
    config.routing.default = Some("survival".into());
    config.servers = vec![
        ("survival-01".into(), server("10.0.0.1:25565", Some("survival"))),
        ("survival-02".into(), server("10.0.0.2:25565", Some("survival"))),
    ];
    config.groups = vec![("survival".into(), Group { policy })];
    config.health.enabled = false;
    config.health.fall = 1;
    config.health.rise = 1;
    config
}

fn group_registry(policy: Policy) -> Registry {
    Registry::build(Arc::new(group(policy)))
}

fn pick(registry: &mut Registry, target: &str) -> Result<String, SelectError> {
    let at = registry.target_index(target).unwrap();
    registry.select(at).map(|backend| registry.backends()[backend].name.clone())
}

#[test]
fn round_robin_alternates_between_members() {
    let mut registry = group_registry(Policy::RoundRobin);
    let picks: Vec<String> = (0..4).map(|_| pick(&mut registry, "survival").unwrap()).collect();
    assert_eq!(picks[0], picks[2], "the wheel repeats after one lap");
    assert_ne!(picks[0], picks[1], "consecutive picks differ");
}

#[test]
fn round_robin_skips_unhealthy_members() {
    let mut registry = group_registry(Policy::RoundRobin);
    registry.backend_mut("survival-01").unwrap().record_health(false, None);
    assert!(!registry.backend("survival-01").unwrap().is_healthy());

    for _ in 0..6 {
        assert_eq!(pick(&mut registry, "survival").unwrap(), "survival-02");
    }
}

#[test]
fn least_connections_prefers_the_quieter_server() {
    let mut registry = group_registry(Policy::LeastConnections);
    let busy = registry.backend_mut("survival-01").unwrap();
    let _guards: Vec<_> = (0..3).map(|_| busy.try_acquire().unwrap()).collect();

    assert_eq!(pick(&mut registry, "survival").unwrap(), "survival-02");
    assert_eq!(registry.backend("survival-01").unwrap().active_sessions(), 3);
}

#[test]
fn failover_stays_on_the_first_healthy_member() {
    let mut registry = group_registry(Policy::Failover);
    for _ in 0..3 {
        assert_eq!(pick(&mut registry, "survival").unwrap(), "survival-01");
    }
    registry.backend_mut("survival-01").unwrap().record_health(false, None);
    assert_eq!(pick(&mut registry, "survival").unwrap(), "survival-02");
}

#[test]
fn selection_reports_why_it_failed() {
    let mut registry = group_registry(Policy::RoundRobin);
    let members = registry.target("survival").unwrap().members().to_vec();
    for member in members {
        let name = registry.backends()[member].name.clone();
        registry.backend_mut(&name).unwrap().record_health(false, None);
    }
    assert_eq!(pick(&mut registry, "survival").unwrap_err(), SelectError::AllUnhealthy);
    assert_eq!(SelectError::AllUnhealthy.as_str(), "every backend is unhealthy");
    assert_eq!(registry.select(99), Err(SelectError::UnknownTarget));
}

fn small(max_connections: usize) -> Registry {
    let mut config = Config::default();
    config.listeners = vec![listener("public", "0.0.0.0:25565")];
    config.routing.default = Some("small".into());
    config.servers = vec![("small".into(), server("10.0.0.1:25565", None))];
    config.servers[0].1.max_connections = max_connections;
    config.health.enabled = false;
    Registry::build(Arc::new(config))
}

#[test]
fn connection_limits_are_enforced_and_released() {
    let mut registry = small(2);
    let backend = registry.backend_mut("small").unwrap();
    let first = backend.try_acquire().unwrap();
    let second = backend.try_acquire().unwrap();
    assert!(backend.try_acquire().is_none(), "the limit holds");
    assert!(backend.is_full());

    backend.release(first);
    assert_eq!(backend.active_sessions(), 1);
    let third = backend.try_acquire();
    assert!(third.is_some(), "a freed slot is reusable");
    backend.release(second);
    backend.release(third.unwrap());
    assert_eq!(backend.active_sessions(), 0);
    // The rejected third attempt never took a slot, so it never counted.
    assert_eq!(backend.sessions_total(), 3, "totals keep counting");
}

#[test]
fn a_full_target_is_distinguished_from_an_unhealthy_one() {
    let mut registry = small(1);
    let _guard = registry.backend_mut("small").unwrap().try_acquire().unwrap();
    assert_eq!(pick(&mut registry, "small").unwrap_err(), SelectError::AllFull);
}

#[test]
fn rise_and_fall_thresholds_debounce_flapping() {
    let mut config = Config::default();
    config.listeners = vec![listener("public", "0.0.0.0:25565")];
    config.routing.default = Some("one".into());
    config.servers = vec![("one".into(), server("10.0.0.1:25565", None))];
    config.health.rise = 2;
    config.health.fall = 3;
    let mut registry = Registry::build(Arc::new(config));
    let backend = registry.backend_mut("one").unwrap();
    assert!(backend.is_healthy(), "start_healthy avoids a cold-start outage");

    assert_eq!(backend.record_health(false, None), None);
    assert_eq!(backend.record_health(false, None), None);
    assert!(backend.is_healthy(), "two failures are not enough");
    assert_eq!(backend.record_health(false, None), Some(false));
    assert!(!backend.is_healthy());

    assert_eq!(backend.record_health(true, None), None);
    assert_eq!(backend.record_health(true, None), Some(true));
    assert!(backend.is_healthy());
}

fn weighted(big: u32, small: u32) -> Registry {
    let mut config = Config::default();
    config.listeners = vec![listener("public", "0.0.0.0:25565")];
    config.routing.default = Some("pool".into());
    config.servers = vec![
        ("big".into(), server("10.0.0.1:25565", Some("pool"))),
        ("small".into(), server("10.0.0.2:25565", Some("pool"))),
    ];
    config.servers[0].1.weight = big;
    config.servers[1].1.weight = small;
    config.health.enabled = false;
    Registry::build(Arc::new(config))
}

#[test]
fn weights_bias_the_wheel() {
    let mut registry = weighted(3, 1);
    let mut big = 0;
    for _ in 0..40 {
        if pick(&mut registry, "pool").unwrap() == "big" {
            big += 1;
        }
    }
    assert_eq!(big, 30, "3:1 weighting over 40 picks");
}

#[test]
fn a_huge_weight_is_scaled_down() {
    // 100001 units of weight are 25 to a slot: 4000 slots, and one for the rest.
    let mut registry = weighted(100_000, 1);
    let mut small = 0;
    for _ in 0..4001 {
        if pick(&mut registry, "pool").unwrap() == "small" {
            small += 1;
        }
    }
    assert_eq!(small, 1);
    assert_eq!(pick(&mut weighted(0, 0), "pool"), Err(SelectError::AllFull));
}

#[test]
fn a_reload_keeps_health_and_session_counts() {
    let mut registry = group_registry(Policy::RoundRobin);
    registry.backend_mut("survival-01").unwrap().record_health(false, None);
    let _guard = registry.backend_mut("survival-02").unwrap().try_acquire().unwrap();

    let reloaded =
        Registry::build_inheriting(Arc::new(group(Policy::Failover)), Some(&registry));

    assert!(!reloaded.backend("survival-01").unwrap().is_healthy(), "health carries over");
    assert_eq!(reloaded.backend("survival-02").unwrap().active_sessions(), 1);
    assert_eq!(reloaded.target("survival").unwrap().policy, Policy::Failover);
}

#[test]
fn a_moved_backend_restarts_from_a_clean_slate() {
    let mut registry = group_registry(Policy::RoundRobin);
    registry.backend_mut("survival-01").unwrap().record_health(false, None);

    let mut moved = group(Policy::RoundRobin);
    moved.servers[0].1.address = "10.9.9.9:25565".into();
    let reloaded = Registry::build_inheriting(Arc::new(moved), Some(&registry));

    assert!(
        reloaded.backend("survival-01").unwrap().is_healthy(),
        "a new address is a new server, not the old one's health"
    );
}

#[test]
fn routes_lead_to_targets_and_slots_go_back() {
    let mut registry = Registry::build(Arc::new(routes()));
    let route = registry.route("EU.play.example.net", "public").unwrap();
    assert_eq!(route.rule.unwrap().host, "*.play.example.net");
    let at = route.target;
    assert_eq!(registry.target_at(at).unwrap().name, "play-specific");
    assert!(registry.route("x", "public").unwrap().rule.is_none());
    let backend = registry.select(at).unwrap();
    let guard = registry.acquire(backend).unwrap();
    assert_eq!(guard.backend(), "play-specific");
    assert_eq!(registry.active_sessions(), Some(1));
    registry.release(guard);
    assert_eq!(registry.active_sessions(), Some(0));
    assert_eq!(registry.healthy_count(), 5);
    assert_eq!(registry.is_target_offline(at), Some(false));
    assert_eq!(registry.is_target_offline(99), None);
    assert_eq!(registry.config().servers.len(), 5);
}

#[test]
fn reported_players_are_summed() {
    let snapshot = |online| StatusSnapshot {
        online,
        max: 20,
        version: "Paper".into(),
        protocol: 767,
        latency: Duration::from_millis(3),
    };
    let mut registry = group_registry(Policy::RoundRobin);
    registry.backend_mut("survival-01").unwrap().record_health(true, Some(snapshot(7)));
    registry.backend_mut("survival-02").unwrap().record_health(true, Some(snapshot(5)));
    assert_eq!(registry.reported_players(), Some(12));
    assert_eq!(registry.backend("survival-01").unwrap().status(), Some(snapshot(7)));
    registry.backend_mut("survival-02").unwrap().record_health(true, Some(snapshot(i64::MAX)));
    assert_eq!(registry.reported_players(), None, "the sum does not fit");
    registry.backend_mut("survival-01").unwrap().record_health(false, None);
    assert_eq!(registry.backend("survival-01").unwrap().status(), None, "down means unknown");
    let target = registry.target("survival").unwrap();
    assert_eq!(target.healthy_members(registry.backends()), vec![1]);
    assert_eq!(target.active_sessions(registry.backends()), Some(0));
    assert_eq!(HumanDuration::from_secs(1).get(), Duration::from_secs(1));
}

// --------------------------------------------------------------------- ping --

fn body_of(json: &str) -> Vec<u8> {
    let packet = encode_status_response(json);
    decode_frame(&packet).unwrap().body.to_vec()
}

#[test]
fn reads_player_counts_from_a_backend() {
    let json = r#"{"version":{"name":"Paper 1.21.1","protocol":767},
                   "players":{"max":100,"online":7},"description":{"text":"hi"}}"#;
    let packet = encode_status_response(json);
    let snapshot = read_response(&packet).unwrap().unwrap();
    assert_eq!(snapshot.online, 7);
    assert_eq!(snapshot.max, 100);
    assert_eq!(snapshot.version, "Paper 1.21.1");
    assert_eq!(snapshot.protocol, 767);
}

#[test]
fn tolerates_a_sparse_status_document() {
    let snapshot = parse_status(&body_of("{}")).unwrap();
    assert_eq!((snapshot.online, snapshot.max), (0, 0));
    assert_eq!(snapshot.version, "unknown");
    let odd = r#"{"players":[1],"version":{"name":5,"protocol":4294967297}}"#;
    let snapshot = parse_status(&body_of(odd)).unwrap();
    assert_eq!((snapshot.online, snapshot.protocol), (0, 1));
}

#[test]
fn the_probe_is_a_status_ping() {
    let request = probe_request("10.0.0.1", 25565);
    let frame = decode_frame(&request).unwrap();
    let handshake = Handshake::decode(&frame).unwrap();
    assert_eq!(handshake.next_state, NextState::Status);
    assert_eq!(handshake.protocol_version, PROBE_PROTOCOL);
    assert_eq!(handshake.server_address, "10.0.0.1");
    let rest = decode_frame(&request[frame.total_len..]).unwrap();
    assert_eq!(rest.id, STATUS_REQUEST_ID);
}

#[test]
fn status_responses_fail_in_their_own_ways() {
    let packet = encode_status_response("{}");
    assert_eq!(read_response(&packet[..1]), None);
    assert_eq!(parse_status(&body_of("nope")), Err(StatusError::NotJson));
    let mut w = Writer::new();
    w.varint(5);
    let short = encode_packet(0, w.as_slice());
    assert!(matches!(read_response(&short), Some(Err(StatusError::Field(_)))));
    assert!(matches!(read_response(&[0xff; 6]), Some(Err(StatusError::Packet(_)))));
    // Declared within the limit, but the prefix and the rest exceed it.
    let mut long = Vec::new();
    mc_gateway::protocol::varint::write_varint(&mut long, 256 * 1024);
    long.resize(256 * 1024 + 1, 0);
    assert_eq!(read_response(&long), Some(Err(StatusError::TooLarge)));
}
