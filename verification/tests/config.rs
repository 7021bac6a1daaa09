//! Durations, networks, port ranges and whole configurations.

use mc_gateway::config::cidr;
use mc_gateway::config::duration::{parse, parse_checked, HumanDuration};
use mc_gateway::config::hosts::{split_host_port, validate_address, validate_host_pattern};
use mc_gateway::config::intercept::{default_listen, default_listen_v6, Intercept, PortRange};
use mc_gateway::config::model::{
    BackendKind, Config, Forwarding, Group, Health, HealthMethod, HealthOverride,
    InboundProxyProtocol, Listener, MotdOverride, Policy, ProtocolPolicy, RateLimit, Rule, Server,
};
use mc_gateway::config::net::{IpNet, IpNets};
use mc_gateway::config::validate::ConfigError;
use mc_gateway::net::{parse_ip, parse_socket, IpAddr, SocketAddr};
use mc_gateway::time::Duration;

fn ip(s: &str) -> IpAddr {
    parse_ip(&s.chars().collect::<Vec<char>>()).unwrap()
}

fn addr(s: &str) -> SocketAddr {
    parse_socket(s).unwrap()
}

// ---------------------------------------------------------------- durations --

#[test]
fn parses_the_documented_forms() {
    assert_eq!(parse("10s").unwrap(), Duration::from_secs(10));
    assert_eq!(parse("500ms").unwrap(), Duration::from_millis(500));
    assert_eq!(parse("2m").unwrap(), Duration::from_secs(120));
    assert_eq!(parse("1h").unwrap(), Duration::from_secs(3600));
    assert_eq!(parse("1m30s").unwrap(), Duration::from_secs(90));
    assert_eq!(parse("30").unwrap(), Duration::from_secs(30));
}

#[test]
fn duration_rejects_nonsense() {
    assert!(parse("").is_err());
    assert!(parse("soon").is_err());
    assert!(parse("10x").is_err());
    assert!(parse("-5s").is_err());
}

#[test]
fn duration_errors_say_what_is_wrong() {
    assert_eq!(parse("  "), Err("empty duration".to_owned()));
    assert_eq!(parse("soon"), Err("`soon` is not a duration".to_owned()));
    assert_eq!(parse("10x"), Err("unknown unit `x`, expected ms, s, m, h or d".to_owned()));
    assert_eq!(parse("-5s"), Err("unexpected character `-` in duration".to_owned()));
    assert_eq!(parse("s5"), Err("missing number before unit `s`".to_owned()));
    assert_eq!(
        parse("99999999999999999999"),
        Err("invalid number `99999999999999999999`".to_owned())
    );
}

#[test]
fn durations_that_do_not_fit_are_told_apart() {
    assert_eq!(parse_checked("18446744073709551615d"), None);
    assert_eq!(
        parse_checked("18446744073709551615s"),
        Some(Ok(Duration { secs: u64::MAX, nanos: 0 }))
    );
    assert_eq!(parse_checked("18446744073709551615s1s"), None);
}

#[test]
fn durations_are_printed_in_their_largest_whole_unit() {
    for (ms, text) in [(0, "0s"), (90_000, "90s"), (120_000, "2m"), (1_500, "1500ms")] {
        let duration = HumanDuration::from_millis(ms);
        assert_eq!(duration.to_text(), text);
        assert_eq!(parse(text).unwrap(), duration.get());
    }
    assert!(HumanDuration::from_secs(0).is_zero());
    assert_eq!(HumanDuration::from_signed_secs(7), Ok(HumanDuration::from_secs(7)));
    assert_eq!(
        HumanDuration::from_signed_secs(-1),
        Err("duration must not be negative".to_owned())
    );
}

#[test]
fn spans_are_printed_with_a_fraction_where_they_need_one() {
    assert_eq!(Duration::from_millis(1_500).to_text(), "1.5s");
    assert_eq!(Duration::from_millis(750).to_text(), "750ms");
    assert_eq!(Duration { secs: 0, nanos: 1_500 }.to_text(), "1.5\u{b5}s");
    assert_eq!(Duration { secs: 0, nanos: 7 }.to_text(), "7ns");
    assert_eq!(Duration { secs: 3, nanos: 50 }.to_text(), "3.00000005s");
}

// ----------------------------------------------------------------- networks --

fn net(s: &str) -> cidr::IpNet {
    cidr::IpNet::from_str(s).unwrap()
}

#[test]
fn matches_v4_prefixes() {
    let net_10 = net("10.0.0.0/8");
    assert!(net_10.contains(ip("10.1.2.3")));
    assert!(!net_10.contains(ip("11.1.2.3")));

    let host = net("203.0.113.7");
    assert!(host.contains(ip("203.0.113.7")));
    assert!(!host.contains(ip("203.0.113.8")));
}

#[test]
fn matches_v6_prefixes() {
    let net = net("2001:db8::/32");
    assert!(net.contains(ip("2001:db8:1234::1")));
    assert!(!net.contains(ip("2001:db9::1")));
}

#[test]
fn cidr_treats_v4_mapped_peers_as_v4() {
    assert!(net("10.0.0.0/8").contains(ip("::ffff:10.1.2.3")));
}

#[test]
fn zero_prefix_matches_the_whole_family() {
    let net = net("0.0.0.0/0");
    assert!(net.contains(ip("203.0.113.7")));
    assert!(!net.contains(ip("2001:db8::1")));
}

#[test]
fn rejects_bad_input() {
    assert!(cidr::IpNet::from_str("10.0.0.0/33").is_err());
    assert!(cidr::IpNet::from_str("not-an-ip/8").is_err());
    assert!(cidr::IpNet::from_str("10.0.0.0/x").is_err());
    assert_eq!(
        cidr::IpNet::from_str("10.0.0.0/33"),
        Err("prefix /33 is too long for 10.0.0.0".to_owned())
    );
    assert_eq!(
        cidr::IpNet::from_str("10.0.0.0/x"),
        Err("invalid prefix length in `10.0.0.0/x`".to_owned())
    );
    assert_eq!(
        cidr::IpNet::from_str("not-an-ip/8"),
        Err("invalid IP address in `not-an-ip/8`".to_owned())
    );
    assert_eq!(net("2001:db8::/32").to_text(), "2001:db8::/32");
}

fn nets(values: &[&str]) -> IpNets {
    let mut list = Vec::new();
    for value in values {
        // Read by the crate whose matching is under test.
        let (addr, prefix) = match value.parse::<ipnet::IpNet>().unwrap() {
            ipnet::IpNet::V4(net) => (IpAddr::V4(net.addr().into()), net.prefix_len()),
            ipnet::IpNet::V6(net) => (IpAddr::V6(net.addr().into()), net.prefix_len()),
        };
        list.push(IpNet { addr, prefix });
    }
    IpNets(list)
}

#[test]
fn matches_prefixes_of_both_families() {
    let list = nets(&["10.0.0.0/8", "2001:db8::/32"]);
    assert!(list.contains(ip("10.1.2.3")));
    assert!(list.contains(ip("2001:db8:1234::1")));
    assert!(!list.contains(ip("11.1.2.3")));
    assert!(!list.contains(ip("2001:db9::1")));
}

#[test]
fn net_treats_v4_mapped_peers_as_v4() {
    assert!(nets(&["10.0.0.0/8"]).contains(ip("::ffff:10.1.2.3")));
}

#[test]
fn an_empty_list_matches_nothing() {
    assert!(!IpNets::default().contains(ip("10.1.2.3")));
    assert!(IpNets::default().is_empty());
}

#[test]
fn a_bare_address_is_a_host_route() {
    let list = nets(&["203.0.113.7/32"]);
    assert!(list.contains(ip("203.0.113.7")));
    assert!(!list.contains(ip("203.0.113.8")));
}

#[test]
fn both_ways_of_matching_agree() {
    let samples = [
        "0.0.0.0", "10.0.0.1", "10.255.255.255", "11.0.0.0", "255.255.255.255", "::", "::1",
        "2001:db8::1", "2001:db8:8000::", "ffff::", "::ffff:10.0.0.9",
    ];
    for prefix in ["0", "1", "7", "8", "9", "31", "32"] {
        for base in ["10.0.0.1", "2001:db8::1"] {
            let text = format!("{base}/{prefix}");
            let own = net(&text);
            let list = nets(&[&text]);
            for sample in samples {
                assert_eq!(own.contains(ip(sample)), list.contains(ip(sample)), "{text} {sample}");
            }
        }
    }
}

#[test]
fn addresses_are_read_as_they_are_written() {
    for text in [
        "0.0.0.0", "203.0.113.7", "255.255.255.255", "::", "::1", "1::", "2001:db8::7",
        "2001:db8:0:1:1:1:1:1", "::ffff:203.0.113.7", "1:0:0:2::3", "fe80::1:2:3:4",
    ] {
        assert_eq!(ip(text).to_text(), text);
    }
    assert_eq!(ip("1:2:3:4:5:6:1.2.3.4"), ip("1:2:3:4:5:6:102:304"));
    assert_eq!(ip("0:0:0:0:0:0:0:1"), ip("::1"));
    for bad in [
        "", "1.2.3", "1.2.3.4.5", "01.2.3.4", "256.1.1.1", "1.2.3.+4", ":::", "1::2::3",
        "1:2:3:4:5:6:7:8:9", "12345::", "::1.2.3.4:5", "1.2.3.4::", "1:2:3:4:5:6:7::8:9", "g::",
    ] {
        let chars: Vec<char> = bad.chars().collect();
        assert_eq!(parse_ip(&chars), None, "{bad}");
    }
    assert_eq!(addr("203.0.113.7:51234").to_text(), "203.0.113.7:51234");
    assert_eq!(addr("[2001:db8::7]:1").to_text(), "[2001:db8::7]:1");
    assert_eq!(parse_socket("203.0.113.7"), None);
    assert_eq!(parse_socket("203.0.113.7:65536"), None);
    assert_eq!(parse_socket("::1:80"), None);
}

// -------------------------------------------------------------------- ports --

fn range(s: &str) -> PortRange {
    PortRange::from_str(s).unwrap()
}

#[test]
fn parses_ranges_and_single_ports() {
    assert_eq!(range("30000-40000"), PortRange { start: 30000, end: 40000 });
    assert_eq!(range("25565"), PortRange { start: 25565, end: 25565 });
    assert_eq!(range(" 1 - 2 "), PortRange { start: 1, end: 2 });
}

#[test]
fn intercept_rejects_nonsense() {
    assert!(PortRange::from_str("40000-30000").is_err());
    assert!(PortRange::from_str("0-10").is_err());
    assert!(PortRange::from_str("70000").is_err());
    assert!(PortRange::from_str("a-b").is_err());
    assert_eq!(
        PortRange::from_str("40000-30000"),
        Err("range `40000-30000` ends before it starts".to_owned())
    );
    assert_eq!(PortRange::from_str("0-10"), Err("port 0 cannot be intercepted".to_owned()));
    assert_eq!(PortRange::from_str("a-b"), Err("`a` is not a port".to_owned()));
}

#[test]
fn single_ports_may_be_numbers() {
    assert_eq!(PortRange::from_number(30000), Ok(range("30000")));
    assert_eq!(PortRange::from_number(70000), Err("port out of range".to_owned()));
    assert_eq!(PortRange::from_number(-1), Err("port out of range".to_owned()));
    assert_eq!(PortRange::from_number(0), Err("port 0 cannot be intercepted".to_owned()));
    assert_eq!(range("25565-25665").to_text(), "25565-25665");
    assert_eq!(range("25565-25565").to_text(), "25565");
}

#[test]
fn reads_both_yaml_forms() {
    let intercept = Intercept {
        listen: default_listen(),
        listen_v6: default_listen_v6(),
        ports: vec![range("25565-25665"), PortRange::from_number(30000).unwrap()],
    };
    assert_eq!(intercept.ports.len(), 2);
    assert!(intercept.covers(25600));
    assert!(intercept.covers(30000));
    assert!(!intercept.covers(30001));
    assert_eq!(intercept.listen, addr("127.0.0.1:25500"));
}

#[test]
fn detects_overlap() {
    let a = range("100-200");
    assert!(a.overlaps(&range("200-300")));
    assert!(!a.overlaps(&range("201-300")));
}

// -------------------------------------------------------------------- hosts --

#[test]
fn validates_host_patterns() {
    assert!(validate_host_pattern("example.net").is_ok());
    assert!(validate_host_pattern("*.example.net").is_ok());
    assert!(validate_host_pattern("*").is_ok());
    assert!(validate_host_pattern("ex*.net").is_err());
    assert!(validate_host_pattern("example.net:25565").is_err());
    assert!(validate_host_pattern("").is_err());
    assert_eq!(
        validate_host_pattern("*."),
        Err("wildcard needs a domain after `*.`".to_owned())
    );
    assert_eq!(
        validate_host_pattern("a b"),
        Err("host pattern contains an invalid character".to_owned())
    );
}

#[test]
fn splits_addresses_including_ipv6() {
    assert_eq!(split_host_port("10.0.0.1:25565").unwrap(), ("10.0.0.1", 25565));
    assert_eq!(split_host_port("[::1]:25565").unwrap(), ("::1", 25565));
    assert_eq!(split_host_port("mc.internal:25577").unwrap(), ("mc.internal", 25577));
    assert!(split_host_port("10.0.0.1").is_err());
    assert!(split_host_port("10.0.0.1:99999").is_err());
}

#[test]
fn address_errors_say_what_is_wrong() {
    for (address, error) in [
        ("[::1", "`[::1` is missing the closing `]`"),
        ("[::1]", "`[::1]` is missing a port"),
        ("host", "`host` is missing a port (expected host:port)"),
        ("host:x", "`host:x` has an invalid port"),
        (":25565", "`:25565` has an empty host"),
        ("host:0", "`host:0` has port 0"),
    ] {
        assert_eq!(validate_address(address), Err(error.to_owned()));
    }
    assert_eq!(validate_address("mc.internal:25577"), Ok(()));
}

// ------------------------------------------------------------ configurations --

fn listener(name: &str, bind: &str) -> Listener {
    Listener {
        name: name.into(),
        bind: addr(bind),
        proxy_protocol: InboundProxyProtocol::default(),
        backlog: 1024,
    }
}

fn server(address: &str, group: Option<&str>) -> Server {
    Server {
        address: address.into(),
        group: group.map(str::to_owned),
        kind: BackendKind::Unknown,
        forwarding: Forwarding::Plain,
        weight: 1,
        max_connections: 0,
        health: None,
    }
}

fn rule(host: &str, target: &str) -> Rule {
    Rule { host: host.into(), target: target.into(), listeners: None, motd: None }
}

fn minimal() -> Config {
    let mut config = Config::default();
    config.listeners = vec![listener("public", "0.0.0.0:25565")];
    config.routing.default = Some("survival".into());
    config.servers = vec![("survival-01".into(), server("10.10.1.10:25565", Some("survival")))];
    config
}

fn intercept_only() -> Config {
    let mut config = Config::default();
    config.intercept = Some(Intercept {
        listen: default_listen(),
        listen_v6: default_listen_v6(),
        ports: vec![range("30000-40000")],
    });
    config.motd.line2 = Some("&7Hosted by example.net".into());
    config
}

fn error_of(config: &Config) -> String {
    config.validate(true).unwrap_err().to_text()
}

#[test]
fn parses_a_minimal_config() {
    let config = minimal();
    assert!(config.validate(true).is_ok());
    assert_eq!(config.listeners.len(), 1);
    assert_eq!(config.resolve_target("survival"), ["survival-01"]);
    assert_eq!(config.resolve_target("survival-01"), ["survival-01"]);
    assert_eq!(config.target_names(), ["survival", "survival-01"]);
}

#[test]
fn without_motd_lines_nothing_is_rewritten() {
    // The default is full pass-through: the backend's own status response
    // reaches the client untouched.
    assert!(!minimal().motd.rewrites_anything());
}

#[test]
fn a_single_motd_line_turns_rewriting_on() {
    let mut config = minimal();
    config.motd.line2 = Some("&7my network".into());
    assert!(config.motd.rewrites_anything());
    assert_eq!(config.motd.line2.as_deref(), Some("&7my network"));
    assert_eq!(config.motd.line1, None, "the backend keeps its first line");
}

#[test]
fn durations_are_read_as_human_text() {
    let mut timeouts = minimal().timeouts;
    timeouts.handshake = HumanDuration(parse("2s").unwrap());
    timeouts.idle = HumanDuration(parse("5m").unwrap());
    timeouts.connect = HumanDuration(parse("750ms").unwrap());
    assert_eq!(timeouts.handshake.get(), Duration::from_secs(2));
    assert_eq!(timeouts.idle.get(), Duration::from_secs(300));
    assert_eq!(timeouts.connect.get(), Duration::from_millis(750));
    assert_eq!(timeouts.status.get(), Duration::from_secs(10), "unset keeps the default");
}

#[test]
fn rejects_routes_to_nowhere() {
    let mut config = minimal();
    config.routing.default = Some("creative".into());
    let err = error_of(&config);
    assert!(err.contains("not a server or group"), "{err}");
    assert_eq!(
        err,
        "invalid configuration:\n  - routing.default `creative` is not a server or group"
    );
}

#[test]
fn rejects_untrusted_inbound_proxy_protocol() {
    let mut config = minimal();
    config.listeners[0].proxy_protocol.enabled = true;
    let err = error_of(&config);
    assert!(err.contains("spoof any client IP"), "{err}");
}

#[test]
fn accepts_inbound_proxy_protocol_with_a_trust_list() {
    let mut config = minimal();
    config.listeners[0].proxy_protocol.enabled = true;
    config.listeners[0].proxy_protocol.trusted = nets(&["10.0.0.0/8"]);
    assert!(config.validate(true).is_ok());
}

#[test]
fn warns_about_unrouted_servers() {
    let mut config = minimal();
    config.servers.insert(0, ("creative-01".into(), server("10.10.2.10:25565", None)));
    let warnings = config.validate(true).unwrap();
    assert!(
        warnings.iter().any(|w| w.contains("creative-01") && w.contains("not reachable")),
        "{warnings:?}"
    );
}

#[test]
fn rejects_a_group_with_no_members() {
    let mut config = minimal();
    config.routing.default = Some("creative".into());
    config.groups = vec![("creative".into(), Group { policy: Policy::RoundRobin })];
    let err = error_of(&config);
    assert!(err.contains("no members"), "{err}");
}

#[test]
fn route_motd_overlays_the_global_one() {
    let mut config = Config::default();
    config.listeners = vec![listener("public", "0.0.0.0:25565")];
    config.motd.line1 = Some("&bglobal".into());
    config.motd.line2 = Some("&7global second".into());
    let mut only = MotdOverride::default();
    only.line2 = Some("&6modded only".into());
    let mut modded = rule("modded.example.net", "modded-01");
    modded.motd = Some(only);
    config.routing.rules = vec![modded];
    config.servers = vec![("modded-01".into(), server("10.10.2.10:25565", None))];
    assert!(config.validate(true).is_ok());
    let effective = config.motd.overlay(config.routing.rules[0].motd.as_ref());
    assert_eq!(effective.line2.as_deref(), Some("&6modded only"));
    assert_eq!(effective.line1.as_deref(), Some("&bglobal"), "unset fields fall back");
    assert_eq!(effective.max_players, 1000);
}

#[test]
fn an_intercept_only_config_needs_no_routing() {
    let config = intercept_only();
    assert!(config.validate(true).is_ok());
    assert!(config.intercept.as_ref().unwrap().covers(30123));
    assert!(config.listeners.is_empty());
}

#[test]
fn rejects_an_intercept_listener_inside_its_own_range() {
    let mut config = intercept_only();
    config.intercept.as_mut().unwrap().listen = addr("127.0.0.1:30500");
    let err = error_of(&config);
    assert!(err.contains("in a loop"), "{err}");
}

#[test]
fn rejects_listeners_of_the_wrong_family() {
    let mut config = intercept_only();
    config.intercept.as_mut().unwrap().listen_v6 = Some(addr("127.0.0.1:25501"));
    let err = error_of(&config);
    assert!(err.contains("listen_v6 must be an IPv6 address"), "{err}");
}

#[test]
fn warns_when_nothing_would_be_rewritten() {
    let mut config = intercept_only();
    config.intercept.as_mut().unwrap().ports = vec![range("30000")];
    config.motd.line2 = None;
    let warnings = config.validate(true).unwrap();
    assert!(warnings.iter().any(|w| w.contains("passed through untouched")));
}

#[test]
fn an_empty_config_is_still_rejected() {
    let mut config = Config::default();
    config.motd.line2 = Some("x".into());
    assert!(config.validate(true).is_err());
}

#[test]
fn every_complaint_is_made_in_order() {
    let mut config = minimal();
    config.listeners.push(listener("public", "0.0.0.0:25565"));
    config.listeners.push(listener("", "0.0.0.0:25566"));
    config.listeners[0].proxy_protocol.required = true;
    let mut restricted = rule("ex*.net", "nowhere");
    restricted.listeners = Some(vec!["lan".into()]);
    config.routing.rules = vec![restricted.clone(), rule("EX*.net", "survival"), restricted];
    config.servers[0].1.address = "nohost".into();
    config.servers[0].1.weight = 0;
    let ConfigError::Invalid(errors) = config.validate(true).unwrap_err() else {
        panic!("an invalid configuration")
    };
    let bad = [
        "route `ex*.net`: `*` is only allowed as a leading `*.` label",
        "route `ex*.net` points at `nowhere`, which is not a server or group",
        "route `ex*.net` points at group `nowhere`, which has no members",
        "route `ex*.net` restricts to listener `lan`, which does not exist",
    ];
    let mut expected = vec![
        "duplicate listener name `public`",
        "two listeners bind to 0.0.0.0:25565",
        "a listener has an empty name",
    ];
    expected.extend(bad);
    expected.push("route `EX*.net`: `*` is only allowed as a leading `*.` label");
    expected.extend(bad);
    expected.push("server `survival-01`: `nohost` is missing a port (expected host:port)");
    assert_eq!(errors, expected);
}

#[test]
fn every_warning_is_given_in_order() {
    let mut config = intercept_only();
    config.intercept.as_mut().unwrap().ports.push(range("40000-41000"));
    config.motd.line2 = None;
    config.listeners = vec![listener("public", "0.0.0.0:25565")];
    config.listeners[0].proxy_protocol.required = true;
    config.routing.rules = vec![rule("a.net", "one"), rule("A.net", "one")];
    config.servers = vec![("one".into(), server("h:1", None))];
    config.servers[0].1.weight = 0;
    config.groups = vec![("empty".into(), Group::default())];
    config.health.timeout = HumanDuration::from_millis(10_500);
    config.limits.max_connections_per_ip = 0;
    config.limits.connection_rate.burst = 0;
    config.metrics.enabled = true;
    config.metrics.bind = addr("0.0.0.0:9100");
    config.timeouts.idle = HumanDuration::from_secs(0);
    assert_eq!(
        config.validate(false).unwrap(),
        [
            "intercept.ports `30000-40000` and `40000-41000` overlap",
            "intercept is configured but motd.line1/line2 are not: every connection is passed through untouched",
            "intercept needs Linux TPROXY; this build can validate the config but not run it",
            "listener `public` sets proxy_protocol.required but not proxy_protocol.enabled",
            "no routing.default: clients that send no hostname (pre-1.7 pings) are refused",
            "route `A.net` is declared more than once; the first one wins",
            "server `one` has weight 0 and will never be selected",
            "group `empty` has no members",
            "health.timeout (HumanDuration(10.5s)) is not shorter than health.interval (HumanDuration(10s)); checks will overlap",
            "limits.max_connections_per_ip is 0 (unlimited)",
            "limits.connection_rate is disabled",
            "metrics listen on 0.0.0.0:9100, which is world-reachable; bind them to a private address",
            "timeouts.idle is 0: a client that vanishes without closing holds its backend slot forever",
        ]
    );
}

#[test]
fn protocol_policies_are_read_from_text_and_numbers() {
    assert_eq!(ProtocolPolicy::from_text("AUTO"), Ok(ProtocolPolicy::Auto));
    assert_eq!(ProtocolPolicy::from_text("767"), Ok(ProtocolPolicy::Fixed(767)));
    assert_eq!(ProtocolPolicy::from_text("-1"), Ok(ProtocolPolicy::Fixed(-1)));
    assert_eq!(
        ProtocolPolicy::from_text("new"),
        Err("expected `auto` or a number, got `new`".to_owned())
    );
    assert_eq!(ProtocolPolicy::from_number(767), Ok(ProtocolPolicy::Fixed(767)));
    assert_eq!(
        ProtocolPolicy::from_number(1 << 40),
        Err("protocol number out of range".to_owned())
    );
    assert_eq!(ProtocolPolicy::Auto.resolve(47), 47);
    assert_eq!(ProtocolPolicy::Fixed(767).resolve(47), 767);
}

#[test]
fn servers_overlay_the_health_settings() {
    let global = Health::default();
    let mut over = HealthOverride::default();
    over.method = Some(HealthMethod::Tcp);
    over.fall = Some(9);
    let own = global.overlay(Some(&over));
    assert_eq!(own.method, HealthMethod::Tcp);
    assert_eq!(own.fall, 9);
    assert_eq!(own.rise, global.rise);
    assert_eq!(global.overlay(None), global);
}

#[test]
fn small_settings_have_names() {
    assert_eq!(BackendKind::Neoforge.as_str(), "neoforge");
    assert!(!BackendKind::Vanilla.supports_proxy_protocol());
    assert!(BackendKind::Paper.supports_proxy_protocol());
    assert_eq!(Forwarding::Plain.as_str(), "none");
    assert_eq!(Forwarding::ProxyProtocolV2.as_str(), "proxy_protocol_v2");
    assert!(RateLimit { burst: 0, per: HumanDuration::from_secs(1) }.is_disabled());
    assert!(!RateLimit::default().is_disabled());
}
