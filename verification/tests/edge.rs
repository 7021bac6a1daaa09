//! A gateway end to end, without sockets: clients that speak the wire format,
//! and a record of where each of them was sent and what the backend got.

use std::sync::Arc;

use mc_gateway::config::model::{
    BackendKind, Config, Forwarding, Group, InboundProxyProtocol, MotdOverride, PlayerSource,
    Policy, Rule, Server,
};
use mc_gateway::config::validate::{ConfigError, Loaded};
use mc_gateway::gateway::app::reload;
use mc_gateway::gateway::connection::{record_count, Action, Around, Connection, Event};
use mc_gateway::gateway::limits::Limiter;
use mc_gateway::gateway::session::{record_outcome, Outcome};
use mc_gateway::json::Json;
use mc_gateway::metrics::counters::Metrics;
use mc_gateway::net::{parse_socket, SocketAddr};
use mc_gateway::protocol::frame::{decode_frame, encode_packet};
use mc_gateway::protocol::handshake::{Handshake, HANDSHAKE_ID};
use mc_gateway::protocol::login::LoginStart;
use mc_gateway::protocol::wire::Writer;
use mc_gateway::routing::registry::Registry;

fn addr(s: &str) -> SocketAddr {
    parse_socket(s).unwrap()
}

fn server(group: Option<&str>) -> Server {
    Server {
        address: "10.0.0.1:25565".into(),
        group: group.map(str::to_owned),
        kind: BackendKind::Unknown,
        forwarding: Forwarding::Plain,
        weight: 1,
        max_connections: 0,
        health: None,
    }
}

fn rule(host: &str, target: &str) -> Rule {
    Rule { host: host.into(), target: target.into(), listeners: None, motd: None }
}

fn packets(host: &str, protocol: i32, next_state: i32, behind: &[u8]) -> Vec<u8> {
    let mut w = Writer::new();
    w.varint(protocol).string(host).u16(25565).varint(next_state);
    let mut bytes = encode_packet(HANDSHAKE_ID, w.as_slice());
    bytes.extend_from_slice(behind);
    bytes
}

fn login_packets(host: &str, name: &str) -> Vec<u8> {
    let mut w = Writer::new();
    w.string(name);
    packets(host, 767, 2, &encode_packet(0, w.as_slice()))
}

struct Gateway {
    config: Arc<Config>,
    registry: Registry,
    limiter: Limiter,
    metrics: Metrics,
    inbound: InboundProxyProtocol,
}

/// Where a client ended up.
#[derive(Debug)]
enum Reached {
    /// At this backend, which got these bytes. The session is still open.
    Backend(String, Vec<u8>),
    /// Nowhere: this was said to it last.
    Refused(&'static str, Option<Vec<u8>>),
    /// This answer to a status ping.
    Status(Json),
}

impl Gateway {
    fn new(config: Config) -> Self {
        let config = Arc::new(config);
        Gateway {
            registry: Registry::build(Arc::clone(&config)),
            limiter: Limiter::new(config.limits.clone()),
            metrics: Metrics::new(),
            inbound: InboundProxyProtocol::default(),
            config,
        }
    }

    fn connect(&mut self, sent: Vec<u8>) -> Reached {
        let mut connection = Connection::new(addr("203.0.113.7:5"), addr("198.51.100.1:25565"));
        let mut event = Event::Start;
        let mut sent = Some(sent);
        let mut backend = String::new();
        let mut replay = Vec::new();
        let mut answer = None;
        self.metrics.connection_opened();
        loop {
            assert!(connection.expects(&event));
            let around =
                Around::of(&self.config, "public", &self.inbound, None, &self.registry).unwrap();
            let (next, action, count) = connection.step(event, &around, &mut self.registry);
            connection = next;
            record_count(&mut self.metrics, &count);
            event = match action {
                Action::Read(_) => match sent.take() {
                    Some(bytes) => Event::Received(bytes),
                    None => Event::Closed,
                },
                Action::Admit(ip) => match self.limiter.admit_connection(ip) {
                    Ok(_) => Event::Admitted,
                    Err(rejection) => Event::Rejected(rejection),
                },
                Action::Send(bytes) => {
                    answer = Some(bytes);
                    Event::Sent
                }
                Action::Open { place, .. } => {
                    backend = self.registry.backends()[place].name.clone();
                    Event::Connected
                }
                Action::Replay(bytes) => {
                    replay = bytes;
                    Event::Sent
                }
                Action::Pipe(_) => return Reached::Backend(backend, replay),
                Action::Finish { farewell, outcome } => {
                    record_outcome(&mut self.metrics, &outcome);
                    return match outcome {
                        Outcome::Refused(reason) => Reached::Refused(reason, farewell),
                        Outcome::Status => {
                            let packet = answer.unwrap();
                            let frame = decode_frame(&packet).unwrap();
                            let text = frame.reader().string(99_999).unwrap();
                            Reached::Status(Json::parse(&text).unwrap())
                        }
                        other => panic!("{other:?}"),
                    };
                }
            };
        }
    }

    fn login(&mut self, host: &str, name: &str) -> (String, Vec<u8>) {
        match self.connect(login_packets(host, name)) {
            Reached::Backend(backend, bytes) => (backend, bytes),
            other => panic!("{other:?}"),
        }
    }

    fn status(&mut self, host: &str, protocol: i32) -> Json {
        match self.connect(packets(host, protocol, 1, &encode_packet(0, &[]))) {
            Reached::Status(status) => status,
            other => panic!("{other:?}"),
        }
    }
}

fn text<'a>(json: &'a Json, outer: &str, inner: &str) -> &'a str {
    json.get(outer).unwrap().get(inner).unwrap().as_str().unwrap()
}

fn number(json: &Json, outer: &str, inner: &str) -> i64 {
    json.get(outer).unwrap().get(inner).unwrap().as_i64().unwrap()
}

// ------------------------------------------------------------------ routing --

fn routed() -> Config {
    let mut config = Config::default();
    config.routing.default = Some("survival".into());
    config.routing.rules = vec![
        rule("survival.example.net", "survival"),
        rule("modded.example.net", "modded"),
        rule("*.play.example.net", "survival"),
    ];
    config.servers = vec![("modded".into(), server(None)), ("survival".into(), server(None))];
    config.health.enabled = false;
    config
}

#[test]
fn routes_by_handshake_hostname() {
    let mut gateway = Gateway::new(routed());
    assert_eq!(gateway.login("survival.example.net", "Alice").0, "survival");
    assert_eq!(gateway.login("modded.example.net", "Bob").0, "modded");
}

#[test]
fn the_handshake_reaches_the_backend_byte_for_byte() {
    let mut gateway = Gateway::new(routed());
    let (_, bytes) = gateway.login("survival.example.net", "Alice");
    assert_eq!(bytes, login_packets("survival.example.net", "Alice"));
    let frame = decode_frame(&bytes).unwrap();
    let handshake = Handshake::decode(&frame).unwrap();
    assert_eq!(handshake.server_address, "survival.example.net");
    assert_eq!(handshake.protocol_version, 767);
    let login = decode_frame(&bytes[frame.total_len..]).unwrap();
    assert_eq!(LoginStart::decode(&login).unwrap().name, "Alice");
}

#[test]
fn a_forge_marker_routes_on_the_plain_hostname_and_is_forwarded_intact() {
    let mut gateway = Gateway::new(routed());
    let (backend, bytes) = gateway.login("modded.example.net\0FML2\0", "Bob");
    assert_eq!(backend, "modded", "routed on the bare host");
    let handshake = Handshake::decode(&decode_frame(&bytes).unwrap()).unwrap();
    assert_eq!(
        handshake.server_address, "modded.example.net\0FML2\0",
        "the marker must survive: the backend needs it to recognise a modded client"
    );
}

#[test]
fn wildcards_and_the_default_target_both_apply() {
    let mut gateway = Gateway::new(routed());
    assert_eq!(gateway.login("eu.play.example.net", "Alice").0, "survival");
    assert_eq!(gateway.login("who.knows.invalid", "Bob").0, "survival");
}

// ---------------------------------------------------------------- balancing --

fn balanced(policy: Policy) -> Gateway {
    let mut config = Config::default();
    config.routing.default = Some("survival".into());
    config.servers = vec![
        ("survival-01".into(), server(Some("survival"))),
        ("survival-02".into(), server(Some("survival"))),
    ];
    config.groups = vec![("survival".into(), Group { policy })];
    config.limits.max_connections_per_ip = 0;
    config.health.fall = 1;
    Gateway::new(config)
}

fn spread(gateway: &mut Gateway, sessions: usize) -> (usize, usize) {
    let reached: Vec<String> = (0..sessions)
        .map(|i| gateway.login("survival.example.net", &format!("P{i}")).0)
        .collect();
    let first = reached.iter().filter(|name| *name == "survival-01").count();
    (first, sessions - first)
}

#[test]
fn round_robin_spreads_sessions_across_the_group() {
    assert_eq!(spread(&mut balanced(Policy::RoundRobin), 6), (3, 3));
}

#[test]
fn least_connections_fills_the_quieter_backend() {
    assert_eq!(spread(&mut balanced(Policy::LeastConnections), 4), (2, 2));
}

#[test]
fn a_dead_member_is_skipped_once_health_checks_notice() {
    let mut gateway = balanced(Policy::RoundRobin);
    gateway.registry.backend_mut("survival-01").unwrap().record_health(false, None);
    assert_eq!(
        spread(&mut gateway, 4),
        (0, 4),
        "every session went to the healthy member"
    );
}

// ------------------------------------------------------------------- status --

fn listed() -> Config {
    let mut config = Config::default();
    config.routing.default = Some("survival".into());
    let mut modded = rule("modded.example.net", "survival");
    modded.motd = Some(MotdOverride {
        text: Some("&6Modded only".into()),
        max_players: Some(50),
        ..MotdOverride::default()
    });
    config.routing.rules = vec![modded];
    config.servers = vec![("survival".into(), server(None))];
    config.motd.text = "&bMy Network".into();
    config.motd.version_name = "MyNetwork".into();
    config.motd.max_players = 1000;
    config.motd.players = PlayerSource::Sessions;
    config.motd.sample = vec!["&7welcome".into()];
    config.health.fall = 1;
    config
}

#[test]
fn the_gateway_answers_the_ping_itself() {
    let mut gateway = Gateway::new(listed());
    let status = gateway.status("survival.example.net", 767);
    assert_eq!(text(&status, "version", "name"), "MyNetwork");
    assert_eq!(number(&status, "players", "max"), 1000);
    assert_eq!(number(&status, "players", "online"), 0);
    assert_eq!(text(&status, "description", "text"), "\u{a7}bMy Network");
    match status.get("players").unwrap().get("sample").unwrap() {
        Json::Array(sample) => {
            assert_eq!(sample[0].get("name").unwrap().as_str(), Some("\u{a7}7welcome"));
        }
        other => panic!("{other:?}"),
    }
    assert_eq!(gateway.metrics.backend_connections.get("survival"), 0, "no backend was involved");
}

#[test]
fn the_reported_protocol_follows_the_client() {
    let mut gateway = Gateway::new(listed());
    // `protocol: auto` means a 1.8 client and a 1.21 client both see a version
    // they consider compatible, instead of the red cross in the server list.
    for protocol in [47, 340, 767] {
        let status = gateway.status("survival.example.net", protocol);
        assert_eq!(number(&status, "version", "protocol"), i64::from(protocol));
    }
}

#[test]
fn the_player_count_reflects_live_sessions() {
    let mut gateway = Gateway::new(listed());
    gateway.login("survival.example.net", "Alice");
    gateway.login("survival.example.net", "Bob");
    let status = gateway.status("survival.example.net", 767);
    assert_eq!(number(&status, "players", "online"), 2);
}

#[test]
fn a_route_can_override_the_motd() {
    let mut gateway = Gateway::new(listed());
    let status = gateway.status("modded.example.net", 767);
    assert_eq!(text(&status, "description", "text"), "\u{a7}6Modded only");
    assert_eq!(number(&status, "players", "max"), 50);
    // Unset fields still come from the global MOTD.
    assert_eq!(text(&status, "version", "name"), "MyNetwork");
}

#[test]
fn a_down_target_shows_the_offline_motd() {
    let mut config = listed();
    config.motd.offline.text = "&cMaintenance".into();
    let mut gateway = Gateway::new(config);
    gateway.registry.backend_mut("survival").unwrap().record_health(false, None);
    let status = gateway.status("anything.example.net", 767);
    assert_eq!(text(&status, "description", "text"), "\u{a7}cMaintenance");
    assert_eq!(number(&status, "players", "online"), 0);
    assert_eq!(number(&status, "version", "protocol"), -1, "renders as incompatible");
}

#[test]
fn disabling_the_motd_proxies_the_ping_to_the_backend() {
    let mut config = listed();
    config.motd.enabled = false;
    let mut gateway = Gateway::new(config);
    let ping = packets("survival.example.net", 767, 1, &encode_packet(0, &[]));
    match gateway.connect(ping.clone()) {
        Reached::Backend(backend, bytes) => {
            assert_eq!(backend, "survival", "the ping really went upstream");
            assert_eq!(bytes, ping);
        }
        other => panic!("{other:?}"),
    }
}

// ------------------------------------------------------------------- limits --

#[test]
fn too_many_connections_from_one_ip_are_dropped() {
    let mut config = routed();
    config.limits.max_connections_per_ip = 2;
    config.limits.connection_rate.burst = 0;
    let mut gateway = Gateway::new(config);
    gateway.login("survival.example.net", "Alice");
    gateway.login("survival.example.net", "Bob");
    match gateway.connect(login_packets("survival.example.net", "Carol")) {
        Reached::Refused("per_ip_limit", None) => {}
        other => panic!("{other:?}"),
    }
    assert_eq!(
        gateway.metrics.backend_connections.get("survival"),
        2,
        "the third never reached a backend"
    );
    assert_eq!(gateway.metrics.connections_rejected.get("per_ip_limit"), 1);
}

#[test]
fn counters_track_the_happy_path_too() {
    let mut gateway = Gateway::new(routed());
    gateway.status("survival.example.net", 767);
    gateway.login("survival.example.net", "Alice");
    assert_eq!(gateway.metrics.status_requests.get("gateway"), 1);
    assert_eq!(gateway.metrics.backend_connections.get("survival"), 1);
    let rendered = gateway.metrics.render(None);
    assert!(rendered.contains("mc_gateway_login_attempts_total 1"), "{rendered}");
}

// ------------------------------------------------------------------- reload --

#[test]
fn a_reload_reroutes_new_sessions() {
    let mut gateway = Gateway::new(routed());
    assert_eq!(gateway.login("survival.example.net", "Alice").0, "survival");
    let mut rerouted = routed();
    rerouted.routing.rules = vec![rule("survival.example.net", "modded")];
    let config = Arc::new(rerouted);
    gateway.registry =
        Registry::build_inheriting(Arc::clone(&config), Some(&gateway.registry));
    gateway.config = config;
    assert_eq!(gateway.login("survival.example.net", "Bob").0, "modded");
}

#[test]
fn health_state_is_carried_across_a_reload() {
    let mut gateway = Gateway::new(listed());
    gateway.registry.backend_mut("survival").unwrap().record_health(false, None);
    let again = Registry::build_inheriting(Arc::new(listed()), Some(&gateway.registry));
    assert!(!again.backend("survival").unwrap().is_healthy());
}

// ---------------------------------------------------------- declaration order --

#[test]
fn failover_goes_by_declaration() {
    let mut config = Config::default();
    config.routing.default = Some("g".into());
    config.servers = vec![("zeta".into(), server(Some("g"))), ("alpha".into(), server(Some("g")))];
    config.groups = vec![("g".into(), Group { policy: Policy::Failover })];
    config.health.fall = 1;
    let mut gateway = Gateway::new(config);
    assert_eq!(gateway.login("x", "Alice").0, "zeta");
    gateway.registry.backend_mut("zeta").unwrap().record_health(false, None);
    assert_eq!(gateway.login("x", "Bob").0, "alpha");
    assert_eq!(gateway.registry.backends()[0].name, "zeta");
}

#[test]
fn other_policies_go_by_name() {
    for policy in [Policy::RoundRobin, Policy::LeastConnections] {
        let mut config = Config::default();
        config.routing.default = Some("g".into());
        config.servers =
            vec![("zeta".into(), server(Some("g"))), ("alpha".into(), server(Some("g")))];
        config.groups = vec![("g".into(), Group { policy })];
        assert_eq!(config.resolve_target("g"), ["alpha", "zeta"]);
        assert_eq!(config.declared_members("g"), ["zeta", "alpha"]);
        let mut gateway = Gateway::new(config);
        assert_eq!(gateway.login("x", "Alice").0, "alpha", "{policy:?}");
        assert_eq!(gateway.login("x", "Bob").0, "zeta", "{policy:?}");
    }
}

#[test]
fn complaints_about_servers_come_by_name() {
    let mut config = routed();
    config.listeners = vec![];
    config.routing.rules = vec![];
    config.servers = vec![("zeta".into(), server(None)), ("alpha".into(), server(None))];
    config.servers[0].1.address = "x".into();
    config.servers[1].1.address = "y".into();
    let text = config.validate(true).unwrap_err().to_text();
    let (alpha, zeta) = (text.find("server `alpha`"), text.find("server `zeta`"));
    assert!(alpha.is_some() && alpha < zeta, "{text}");
}

#[test]
fn a_client_has_one_rate_however_its_address_is_written() {
    let mut config = routed();
    config.limits.max_connections_per_ip = 0;
    config.limits.connection_rate.burst = 1;
    let mut limiter = Limiter::new(config.limits.clone());
    assert!(limiter.admit_connection(addr("203.0.113.7:1").ip).is_ok());
    assert!(limiter.admit_connection(addr("[::ffff:203.0.113.7]:1").ip).is_err());
    assert!(limiter.admit_connection(addr("203.0.113.8:1").ip).is_ok(), "a fresh address");
}

#[test]
fn a_gateway_reload_installs_or_changes_nothing() {
    let mut gateway = Gateway::new(routed());
    gateway.login("survival.example.net", "Alice");
    let broken = ConfigError::Parse { path: "f".into(), reason: "bad".into() };
    let answer = reload(&gateway.registry, &mut gateway.limiter, Err(broken));
    assert_eq!(answer.unwrap_err(), "cannot parse f: bad");
    assert_eq!(gateway.limiter.active(), 1);

    let mut config = routed();
    config.limits.max_connections_per_ip = 1;
    let loaded = Loaded { config, warnings: vec!["first".into()] };
    let (registry, warnings) =
        reload(&gateway.registry, &mut gateway.limiter, Ok(loaded)).unwrap();
    assert_eq!(warnings, ["first"]);
    assert_eq!(registry.active_sessions(), Some(1), "session counts carry over");
    let ip = addr("203.0.113.7:1").ip;
    assert!(gateway.limiter.admit_connection(ip).is_err(), "the new limit is in force");
}
