//! Counters, the scrape page and the scrape endpoint.

use std::sync::Arc;

use mc_gateway::config::model::{BackendKind, Config, Forwarding, Server};
use mc_gateway::gateway::collector::{collect, exact_text, write_line, Line, Reading};
use mc_gateway::gateway::observe;
use mc_gateway::metrics::change::Change;
use mc_gateway::metrics::counters::{LabelCounter, Metrics};
use mc_gateway::metrics::exporter::{
    answer, find_header_end, read_request_line, requested_page, respond, Page, Request,
    MAX_REQUEST_BYTES,
};
use mc_gateway::metrics::text_format::{
    counter, escape, family_header, labelled, sample_line, single,
};
use mc_gateway::node::observe as node_observe;
use mc_gateway::routing::registry::{Registry, StatusSnapshot};
use mc_gateway::time::Duration;

#[test]
fn renders_counters_and_gauges() {
    let mut metrics = Metrics::new();
    metrics.connection_opened();
    metrics.connection_opened();
    metrics.connection_closed();
    metrics.connections_rejected.increment("rate_limited");
    metrics.bytes.add("to_backend", 4096);

    let text = metrics.render(None);
    assert!(text.contains("mc_gateway_connections_total 2"), "{text}");
    assert!(text.contains("mc_gateway_connections_active 1"), "{text}");
    assert!(text.contains(r#"mc_gateway_connections_rejected_total{reason="rate_limited"} 1"#));
    assert!(text.contains(r#"mc_gateway_bytes_total{direction="to_backend"} 4096"#));
    assert!(text.contains("# TYPE mc_gateway_connections_total counter"));
}

#[test]
fn empty_families_are_omitted_entirely() {
    let text = Metrics::new().render(None);
    assert!(!text.contains("mc_gateway_backend_connections_total"), "{text}");
}

#[test]
fn label_values_are_escaped() {
    let mut metrics = Metrics::new();
    metrics.backend_failures.increment(r#"weird"name\with"#);
    let text = metrics.render(None);
    assert!(text.contains(r#"backend="weird\"name\\with""#), "{text}");
    assert_eq!(escape("a\nb"), "a\\nb");
}

#[test]
fn counters_are_stable_under_concurrent_updates() {
    let mut metrics = Metrics::new();
    for _ in 0..8 {
        for _ in 0..1000 {
            metrics.connection_opened();
            metrics.backend_connections.increment("survival-01");
        }
    }
    assert_eq!(metrics.connections_total, 8000);
    assert_eq!(metrics.backend_connections.get("survival-01"), 8000);
}

#[test]
fn extra_collectors_are_appended() {
    let mut live = String::new();
    family_header(&mut live, "mc_gateway_backend_up", "Backend health", "gauge");
    sample_line(&mut live, "mc_gateway_backend_up", &[("backend", "survival-01")], "1");
    let text = Metrics::new().render(Some(&live));
    assert!(text.contains(r#"mc_gateway_backend_up{backend="survival-01"} 1"#), "{text}");
    assert!(text.ends_with(&live));
}

#[test]
fn labels_are_kept_in_order() {
    let mut counts = LabelCounter::default();
    for label in ["b", "a", "c", "b", "", "\u{e9}"] {
        counts.increment(label);
    }
    counts.add("a", u64::MAX);
    assert_eq!(
        counts.snapshot(),
        [
            ("".to_owned(), 1),
            ("a".to_owned(), 0),
            ("b".to_owned(), 2),
            ("c".to_owned(), 1),
            ("\u{e9}".to_owned(), 1),
        ]
    );
    assert_eq!(counts.get("nobody"), 0);
}

#[test]
fn the_text_format_is_exact() {
    let mut out = String::new();
    counter(&mut out, "n", "h", 7);
    assert_eq!(out, "# HELP n h\n# TYPE n counter\nn 7\n");
    let mut out = String::new();
    labelled(&mut out, "n", "h", "l", &[("x".into(), 1), ("y".into(), 2)], "counter");
    assert_eq!(out, "# HELP n h\n# TYPE n counter\nn{l=\"x\"} 1\nn{l=\"y\"} 2\n");
    let mut out = String::new();
    labelled(&mut out, "n", "h", "l", &[], "counter");
    assert_eq!(out, "");
    let mut out = String::new();
    single(&mut out, "n", "h", "gauge", "0.5");
    sample_line(&mut out, "s", &[("a", "1"), ("b", "\"")], "2");
    assert_eq!(out, "# HELP n h\n# TYPE n gauge\nn 0.5\ns{a=\"1\",b=\"\\\"\"} 2\n");
}

#[test]
fn a_closed_gauge_wraps_like_the_counter_it_is() {
    let mut metrics = Metrics::new();
    metrics.connection_closed();
    assert_eq!(metrics.connections_active, u64::MAX);
    metrics.connection_opened();
    assert_eq!((metrics.connections_active, metrics.connections_total), (0, 1));
    metrics.session_finished(90);
    assert_eq!((metrics.sessions_completed, metrics.session_seconds_total), (1, 90));
    let text = metrics.render_with("1.5e20", "");
    assert!(text.contains("mc_gateway_connections_active 1.5e20\n"), "{text}");
}

fn registry() -> Registry {
    let server = |address: &str| Server {
        address: address.into(),
        group: None,
        kind: BackendKind::Paper,
        forwarding: Forwarding::Plain,
        weight: 1,
        max_connections: 0,
        health: None,
    };
    let mut config = Config::default();
    config.servers = vec![("a".into(), server("h:1")), ("b".into(), server("h:2"))];
    config.health.fall = 1;
    Registry::build(Arc::new(config))
}

fn text_of(registry: &Registry) -> String {
    let mut out = String::new();
    for line in collect(registry).unwrap() {
        let value = match &line {
            Line::Gauge { value, .. } | Line::Sample { value, .. } => {
                exact_text(*value).unwrap_or_else(|| "seconds".into())
            }
            Line::Family { .. } => String::new(),
        };
        write_line(&mut out, &line, &value);
    }
    out
}

#[test]
fn live_gauges_are_read_from_the_registry() {
    let mut registry = registry();
    let _guard = registry.backend_mut("b").unwrap().try_acquire().unwrap();
    let quiet = text_of(&registry);
    assert_eq!(
        quiet,
        "# HELP mc_gateway_backends Configured backends\n\
         # TYPE mc_gateway_backends gauge\n\
         mc_gateway_backends 2\n\
         # HELP mc_gateway_backends_healthy Backends passing health checks\n\
         # TYPE mc_gateway_backends_healthy gauge\n\
         mc_gateway_backends_healthy 2\n\
         # HELP mc_gateway_sessions_active Sessions currently proxied to a backend\n\
         # TYPE mc_gateway_sessions_active gauge\n\
         mc_gateway_sessions_active 1\n\
         # HELP mc_gateway_backend_up 1 when the backend is healthy\n\
         # TYPE mc_gateway_backend_up gauge\n\
         mc_gateway_backend_up{backend=\"a\",kind=\"paper\"} 1\n\
         mc_gateway_backend_up{backend=\"b\",kind=\"paper\"} 1\n\
         # HELP mc_gateway_backend_sessions Sessions currently proxied to this backend\n\
         # TYPE mc_gateway_backend_sessions gauge\n\
         mc_gateway_backend_sessions{backend=\"a\"} 0\n\
         mc_gateway_backend_sessions{backend=\"b\"} 1\n"
    );
    let snapshot = StatusSnapshot {
        online: 7,
        max: 20,
        version: "x".into(),
        protocol: 1,
        latency: Duration::from_millis(20),
    };
    registry.backend_mut("b").unwrap().record_health(true, Some(snapshot));
    registry.backend_mut("a").unwrap().record_health(false, None);
    let busy = text_of(&registry);
    assert!(busy.contains("mc_gateway_backend_up{backend=\"a\",kind=\"paper\"} 0\n"), "{busy}");
    assert!(busy.contains("mc_gateway_backend_players{backend=\"b\"} 7\n"), "{busy}");
    assert!(!busy.contains("mc_gateway_backend_players{backend=\"a\"}"), "{busy}");
    assert!(busy.contains("mc_gateway_backend_ping_seconds{backend=\"b\"} seconds\n"), "{busy}");
}

#[test]
fn only_exact_numbers_are_printed_here() {
    assert_eq!(exact_text(Reading::Whole(-5)).as_deref(), Some("-5"));
    assert_eq!(
        exact_text(Reading::Whole(999_999_999_999_999)).as_deref(),
        Some("999999999999999")
    );
    assert_eq!(exact_text(Reading::Whole(1_000_000_000_000_000)), None);
    assert_eq!(exact_text(Reading::Seconds(Duration::from_secs(1))), None);
}

fn response_to(raw: &str, metrics: &str) -> String {
    match read_request_line(raw.as_bytes()) {
        Request::Complete(line) => answer(requested_page(&line), metrics),
        other => panic!("{other:?}"),
    }
}

#[test]
fn serves_the_metrics_endpoint() {
    let mut metrics = Metrics::new();
    metrics.connection_opened();
    metrics.status_requests.increment("gateway");
    let response =
        response_to("GET /metrics HTTP/1.1\r\nHost: x\r\n\r\n", &metrics.render(None));

    assert!(response.starts_with("HTTP/1.1 200 OK"), "{response}");
    assert!(response.contains("text/plain; version=0.0.4"), "{response}");
    assert!(response.contains("mc_gateway_connections_total 1"), "{response}");
    assert!(
        response.contains(r#"mc_gateway_status_requests_total{source="gateway"} 1"#),
        "{response}"
    );
}

#[test]
fn serves_health_and_rejects_the_rest() {
    let text = Metrics::new().render(None);
    assert!(response_to("GET /healthz HTTP/1.1\r\n\r\n", &text).starts_with("HTTP/1.1 200 OK"));
    assert!(response_to("GET /secrets HTTP/1.1\r\n\r\n", &text).starts_with("HTTP/1.1 404"));
    assert!(response_to("POST /metrics HTTP/1.1\r\n\r\n", &text).starts_with("HTTP/1.1 405"));
    // A query string must not change the route.
    assert!(
        response_to("GET /metrics?foo=bar HTTP/1.1\r\n\r\n", &text)
            .contains("mc_gateway_connections_total")
    );
    assert_eq!(requested_page("HEAD / HTTP/1.1"), Page::Index);
    assert_eq!(requested_page("GET /-/healthy"), Page::Health);
    assert_eq!(requested_page("GET"), Page::NotFound);
    assert_eq!(requested_page(""), Page::BadMethod);
}

#[test]
fn an_oversized_request_is_dropped() {
    // No header terminator, so the server must bail on size, not buffer on.
    let junk = "x".repeat(MAX_REQUEST_BYTES + 1024);
    assert_eq!(read_request_line(format!("GET /metrics {junk}").as_bytes()), Request::TooLarge);
    assert_eq!(read_request_line(b"GET /metrics"), Request::Incomplete);
}

#[test]
fn headers_end_at_the_first_empty_line() {
    assert_eq!(find_header_end(b"a\r\n\r\nb"), Some(1));
    assert_eq!(find_header_end(b"a\n\nb\r\n\r\n"), Some(4), "the usual form is looked for first");
    assert_eq!(find_header_end(b"a\n\nb"), Some(1));
    assert_eq!(find_header_end(b"a\r\n"), None);
    assert_eq!(
        read_request_line(b"  GET \xff / x\r\nHost: y\r\n\r\n"),
        Request::Complete("GET \u{fffd} / x".into())
    );
}

#[test]
fn responses_count_their_bytes() {
    assert_eq!(
        respond(404, "text/plain", "\u{e9}"),
        "HTTP/1.1 404 Not Found\r\nContent-Type: text/plain\r\nContent-Length: 2\r\n\
         Connection: close\r\n\r\n\u{e9}"
    );
    assert!(respond(500, "t", "").starts_with("HTTP/1.1 500 Error\r\n"));
}

fn shown(changes: Vec<Change>) -> Vec<String> {
    changes
        .iter()
        .map(|change| {
            let labels: Vec<String> =
                change.labels.iter().map(|(name, value)| format!("{name}={value}")).collect();
            format!("{} [{}] {:?}", change.name, labels.join(","), change.amount)
        })
        .collect()
}

#[test]
fn events_change_the_metrics_they_are_about() {
    assert_eq!(
        shown(observe::connection_opened()),
        ["mc_gateway_connections_total [] Count(1)", "mc_gateway_connections_active [] Up"]
    );
    assert_eq!(shown(observe::connection_closed()), ["mc_gateway_connections_active [] Down"]);
    assert_eq!(
        shown(observe::connection_rejected("no_route")),
        ["mc_gateway_connections_rejected_total [reason=no_route] Count(1)"]
    );
    assert_eq!(
        shown(observe::handshake_error("incomplete")),
        ["mc_gateway_handshake_errors_total [kind=incomplete] Count(1)"]
    );
    assert_eq!(
        shown(observe::status_request("legacy")),
        ["mc_gateway_status_requests_total [kind=legacy] Count(1)"]
    );
    assert_eq!(
        shown(observe::backend_failed("a", "timeout")),
        ["mc_gateway_backend_failures_total [backend=a,kind=timeout] Count(1)"]
    );
    assert_eq!(
        shown(observe::backend_connected("a")),
        ["mc_gateway_backend_connections_total [backend=a] Count(1)"]
    );
    assert_eq!(shown(observe::login_attempt()), ["mc_gateway_login_attempts_total [] Count(1)"]);
    assert_eq!(shown(observe::motd_rewritten()), ["mc_gateway_motd_rewrites_total [] Count(1)"]);
    assert_eq!(
        shown(observe::session_started("a")),
        ["mc_gateway_sessions_active [] Up", "mc_gateway_backend_sessions [backend=a] Up"]
    );
    let down = ["mc_gateway_sessions_active [] Down", "mc_gateway_backend_sessions [backend=a] Down"];
    let ended = shown(observe::session_ended("a", Some((4, 9))));
    assert_eq!(ended[..2], down);
    assert_eq!(
        ended[2..],
        [
            "mc_gateway_sessions_completed_total [] Count(1)",
            "mc_gateway_bytes_total [direction=to_backend] Count(4)",
            "mc_gateway_bytes_total [direction=to_client] Count(9)",
        ]
    );
    let aborted = shown(observe::session_ended("a", None));
    assert_eq!(aborted[..2], down);
    assert_eq!(aborted[3], "mc_gateway_sessions_aborted_total [] Count(1)");
    assert_eq!(
        shown(node_observe::server_unreachable()),
        ["mc_gateway_server_unreachable_total [] Count(1)"]
    );
}

#[test]
fn sampled_gauges_follow_the_registry() {
    let mut registry = registry();
    registry.backend_mut("a").unwrap().record_health(false, None);
    let lines = observe::sample_registry(&registry);
    assert_eq!(lines.len(), 4);
    assert_eq!(
        lines[2],
        Line::Sample {
            name: "mc_gateway_backend_up",
            backend: "a".into(),
            kind: Some("paper"),
            value: Reading::Whole(0),
        }
    );
}

#[test]
fn samples_come_in_the_order_of_the_names() {
    let server = |address: &str| Server {
        address: address.into(),
        group: None,
        kind: BackendKind::Paper,
        forwarding: Forwarding::Plain,
        weight: 1,
        max_connections: 0,
        health: None,
    };
    let mut config = Config::default();
    config.servers = ["m", "z", "a"].map(|name| (name.to_owned(), server("h:1"))).to_vec();
    let registry = Registry::build(Arc::new(config));
    let names: Vec<String> = collect(&registry)
        .unwrap()
        .into_iter()
        .filter_map(|line| match line {
            Line::Sample { name: "mc_gateway_backend_up", backend, .. } => Some(backend),
            _ => None,
        })
        .collect();
    assert_eq!(names, ["a", "m", "z"]);
}
