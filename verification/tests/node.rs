//! Intercepted connections and the node's configuration.

use std::sync::Arc;

use mc_gateway::config::duration::{parse, HumanDuration};
use mc_gateway::config::intercept::{default_listen, default_listen_v6, PortRange};
use mc_gateway::json::{Json, Number};
use mc_gateway::net::{parse_socket, SocketAddr};
use mc_gateway::node::config::{Config, Motd, Offline};
use mc_gateway::node::intercept::{
    after_connect, after_request, answer_offline, answer_ping, classify, relay_bytes, relay_status,
    sniff, AfterConnect, OfflineAnswer, PingAnswer, Relay, Sniff, SniffEvent,
};
use mc_gateway::node::motd::{
    kick_message, offline_status, replace_lines, rewrite_document, rewrite_status,
};
use mc_gateway::node::server::{reload, reload_warnings};
use mc_gateway::protocol::frame::{decode_frame, decode_frame_limited, encode_packet};
use mc_gateway::protocol::handshake::{NextState, HANDSHAKE_ID};
use mc_gateway::protocol::status::{encode_status_response, PING_ID, STATUS_REQUEST_ID};
use mc_gateway::protocol::varint::write_varint;
use mc_gateway::protocol::wire::{Reader, Writer};
use mc_gateway::time::Duration;

fn addr(s: &str) -> SocketAddr {
    parse_socket(s).unwrap()
}

fn range(s: &str) -> PortRange {
    PortRange::from_str(s).unwrap()
}

fn with_ad() -> Config {
    let mut config = Config::for_ports(vec![range("30000-40000")]);
    config.motd.line2 = Some("&7Hosted by &bexample.net".into());
    config
}

fn minimal() -> Config {
    let mut config = Config::for_ports(vec![range("30000-40000")]);
    config.motd.line2 = Some("&7Hosted by example.net".into());
    config
}

fn handshake(next_state: i32) -> Vec<u8> {
    let mut w = Writer::new();
    w.varint(767).string("node.example.net").u16(30123).varint(next_state);
    encode_packet(HANDSHAKE_ID, w.as_slice())
}

// ----------------------------------------------------------------- classify --

#[test]
fn a_status_ping_is_recognised_only_once_the_request_is_there() {
    let mut buf = handshake(1);
    assert_eq!(classify(&buf), None, "handshake alone: wait for the request");
    buf.extend_from_slice(&encode_packet(0x00, &[]));
    assert_eq!(classify(&buf), Some(Sniff::Status));
}

#[test]
fn a_join_is_recognised_immediately() {
    assert_eq!(classify(&handshake(2)), Some(Sniff::Join));
    assert_eq!(classify(&handshake(3)), Some(Sniff::Join), "transfer too");
}

#[test]
fn other_protocols_pass_through_without_waiting_for_more() {
    // HTTP, an RCON packet, a legacy ping, TLS, garbage.
    for bytes in [
        &b"GET / HTTP/1.1\r\nHost: x\r\n\r\n"[..],
        &[0x0a, 0x00, 0x00, 0x00, 0x01, 0x00, 0x00, 0x00, 0x03, 0x00][..],
        &[0xFE, 0x01][..],
        &[0x16, 0x03, 0x01, 0x02, 0x00, 0x01, 0x00, 0x01, 0xfc][..],
        &[0xff, 0xff, 0xff, 0xff, 0xff, 0xff][..],
    ] {
        let decision = classify(bytes);
        assert_ne!(decision, Some(Sniff::Status), "{bytes:02x?}");
    }
    assert_eq!(classify(&[0xFE, 0x01]), Some(Sniff::PassThrough));
}

#[test]
fn a_huge_declared_length_is_not_a_handshake() {
    let mut buf = Vec::new();
    write_varint(&mut buf, 5000);
    assert_eq!(classify(&buf), Some(Sniff::PassThrough));
}

#[test]
fn a_short_request_in_another_protocol_is_decided_on_its_second_byte() {
    // `G` reads as a 71-byte length, but `E` cannot be a handshake's id.
    assert_eq!(classify(b"GE"), Some(Sniff::PassThrough));
    assert_eq!(classify(b"G"), None);
}

#[test]
fn a_partial_length_prefix_waits() {
    assert_eq!(classify(&[0x80]), None);
}

#[test]
fn a_handshake_whose_length_looks_like_an_old_ping_passes_through() {
    // A payload of 254 bytes: its length prefix is 0xFE 0x01.
    let mut w = Writer::new();
    w.varint(767).string(&"x".repeat(246)).u16(1).varint(2);
    let bytes = encode_packet(HANDSHAKE_ID, w.as_slice());
    assert_eq!(bytes[0], 0xFE);
    assert_eq!(classify(&bytes), Some(Sniff::PassThrough));
}

#[test]
fn events_decide_when_the_bytes_do_not() {
    let mut buf = Vec::new();
    assert_eq!(sniff(&mut buf, SniffEvent::Received(handshake(1))), None);
    assert_eq!(sniff(&mut buf, SniffEvent::ServerSpoke), Some(Sniff::PassThrough));
    assert_eq!(sniff(&mut buf, SniffEvent::Deadline), Some(Sniff::PassThrough));
    assert_eq!(sniff(&mut buf, SniffEvent::Closed), Some(Sniff::ClientGone));
    assert_eq!(buf, handshake(1), "what was read is kept for the server");
    let request = encode_packet(STATUS_REQUEST_ID, &[]);
    assert_eq!(sniff(&mut buf, SniffEvent::Received(request)), Some(Sniff::Status));
}

#[test]
fn a_login_reaches_the_server_verbatim() {
    let mut sent = handshake(NextState::Login.as_i32());
    let mut w = Writer::new();
    w.string("Steve").bytes(&[0u8; 16]);
    sent.extend_from_slice(&encode_packet(0x00, w.as_slice()));
    let mut buf = Vec::new();
    assert_eq!(sniff(&mut buf, SniffEvent::Received(sent.clone())), Some(Sniff::Join));
    assert_eq!(buf, sent, "not a byte added, removed or changed");
}

// -------------------------------------------------------------------- relay --

/// A status document shaped like Paper's.
fn paper_status(motd: &str, online: u32) -> String {
    format!(
        r#"{{"version":{{"name":"Paper 1.21.1","protocol":767}},
            "players":{{"max":100,"online":{online},"sample":[{{"name":"Notch","id":"x"}}]}},
            "description":{{"text":"{motd}"}},
            "favicon":"data:image/png;base64,AAAA",
            "enforcesSecureChat":false}}"#
    )
}

fn relayed(json: &str, config: &Config) -> (Json, bool) {
    match relay_status(&encode_status_response(json), &config.motd) {
        Relay::Send { bytes, rewritten } => {
            let frame = decode_frame_limited(&bytes, 4 * 1024 * 1024).unwrap();
            let text = frame.reader().string(4 * 1024 * 1024).unwrap();
            (Json::parse(&text).unwrap(), rewritten)
        }
        Relay::More => panic!("the response is complete"),
    }
}

fn motd_of(status: &Json) -> &str {
    status.get("description").unwrap().get("text").unwrap().as_str().unwrap()
}

#[test]
fn the_ad_replaces_line_two_and_nothing_else() {
    let (status, rewritten) =
        relayed(&paper_status("Steve's SMP\\nwhitelist on", 4), &with_ad());
    assert!(rewritten);
    assert_eq!(motd_of(&status), "Steve's SMP\n\u{a7}7Hosted by \u{a7}bexample.net");
    assert_eq!(status.get("players").unwrap().get("online").unwrap().as_i64(), Some(4));
    assert_eq!(
        status.get("version").unwrap().get("name").unwrap().as_str(),
        Some("Paper 1.21.1")
    );
    assert_eq!(status.get("favicon").unwrap().as_str(), Some("data:image/png;base64,AAAA"));
}

#[test]
fn without_an_ad_the_response_is_byte_identical() {
    let packet = encode_status_response(&paper_status("Steve's SMP", 4));
    assert_eq!(
        relay_status(&packet, &Motd::default()),
        Relay::Send { bytes: packet.clone(), rewritten: false }
    );
}

#[test]
fn a_modpack_sized_status_response_still_gets_the_ad() {
    // Forge lists every mod in its status response; hundreds of them add up.
    let mods: Vec<String> = (0..6000)
        .map(|i| format!(r#"{{"modId":"examplemod{i}","modmarker":"1.0.0-release"}}"#))
        .collect();
    let json = format!(
        r#"{{"version":{{"name":"1.12.2","protocol":340}},"players":{{"max":20,"online":0}},
            "description":{{"text":"Modpack"}},"modinfo":{{"type":"FML","modList":[{}]}}}}"#,
        mods.join(",")
    );
    assert!(json.len() > 256 * 1024, "the test needs a response over the old limit");
    let (status, _) = relayed(&json, &with_ad());
    assert_eq!(motd_of(&status), "Modpack\n\u{a7}7Hosted by \u{a7}bexample.net");
    match status.get("modinfo").unwrap().get("modList").unwrap() {
        Json::Array(mods) => assert_eq!(mods.len(), 6000),
        other => panic!("{other:?}"),
    }
}

#[test]
fn an_unparseable_status_response_is_forwarded_as_is() {
    let mut packet = encode_status_response("definitely not json");
    packet.extend_from_slice(b"more");
    assert_eq!(
        relay_status(&packet, &with_ad().motd),
        Relay::Send { bytes: packet.clone(), rewritten: false }
    );
    let broken = [0xff; 6];
    assert_eq!(
        relay_status(&broken, &with_ad().motd),
        Relay::Send { bytes: broken.to_vec(), rewritten: false }
    );
    assert_eq!(relay_status(&packet[..3], &with_ad().motd), Relay::More);
}

#[test]
fn what_the_server_sends_behind_its_response_follows_it() {
    let packet = encode_status_response("{}");
    let mut buf = packet.clone();
    buf.extend_from_slice(b"tail");
    let mut expected = encode_status_response("{\"a\":1}");
    expected.extend_from_slice(b"tail");
    assert_eq!(
        relay_bytes(&buf, packet.len(), Some("{\"a\":1}".into())),
        Relay::Send { bytes: expected, rewritten: true }
    );
}

#[test]
fn the_latency_ping_after_the_ad_still_works() {
    let mut w = Writer::new();
    w.i64(987_654_321);
    let ping = encode_packet(PING_ID, w.as_slice());
    let mut buf = ping.clone();
    buf.extend_from_slice(b"rest");
    assert_eq!(answer_ping(&buf), PingAnswer::Pong(ping.clone()));
    let frame = decode_frame(&ping).unwrap();
    assert_eq!(Reader::new(frame.body).i64().unwrap(), 987_654_321);
    assert_eq!(answer_ping(&ping[..3]), PingAnswer::More);
    assert_eq!(answer_ping(&encode_packet(0x05, &[])), PingAnswer::Done);
    assert_eq!(answer_ping(&[0xff; 6]), PingAnswer::Done);
}

#[test]
fn a_ping_may_already_be_behind_the_request() {
    let mut sniffed = handshake(1);
    sniffed.extend_from_slice(&encode_packet(STATUS_REQUEST_ID, &[]));
    sniffed.extend_from_slice(b"xy");
    assert_eq!(after_request(&sniffed), Some(b"xy".to_vec()));
    assert_eq!(after_request(&handshake(1)), None);
}

// --------------------------------------------------------------------- motd --

#[test]
fn unset_lines_stay_the_servers_own() {
    let motd = |line1: Option<&str>, line2: Option<&str>| Motd {
        line1: line1.map(str::to_owned),
        line2: line2.map(str::to_owned),
    };
    assert_eq!(replace_lines("a\nb", &motd(None, Some("&cx"))), "a\n\u{a7}cx");
    assert_eq!(replace_lines("a\nb", &motd(Some("&cx"), None)), "\u{a7}cx\nb");
    assert_eq!(replace_lines("a", &motd(Some("x"), None)), "x");
    assert_eq!(replace_lines("", &motd(None, Some("y"))), "\ny");
    assert_eq!(replace_lines("a\nb\nc", &motd(Some("1"), Some("2"))), "1\n2");
}

#[test]
fn only_objects_are_rewritten() {
    let ad = with_ad().motd;
    assert_eq!(rewrite_status("[1]", &ad), None);
    assert_eq!(rewrite_status("{", &ad), None);
    assert_eq!(rewrite_status("{}", &Motd::default()), None);
    assert_eq!(
        rewrite_status("{\"x\":1}", &ad).as_deref(),
        Some("{\"description\":{\"text\":\"\\n\u{a7}7Hosted by \u{a7}bexample.net\"},\"x\":1}")
    );
    let document = Json::Object(vec![
        ("description".into(), Json::Text("own".into())),
        ("x".into(), Json::Bool(true)),
    ]);
    let text = "own\n\u{a7}7Hosted by \u{a7}bexample.net";
    assert_eq!(
        rewrite_document(document, &ad),
        Some(Json::Object(vec![
            (
                "description".into(),
                Json::Object(vec![("text".into(), Json::Text(text.into()))])
            ),
            ("x".into(), Json::Bool(true)),
        ]))
    );
}

#[test]
fn a_stopped_server_is_shown_as_offline() {
    let offline = Offline::default();
    assert_eq!(
        offline_status(&offline, &with_ad().motd),
        "{\"version\":{\"name\":\"\u{a7}cOffline\",\"protocol\":-1},\
         \"players\":{\"max\":0,\"online\":0},\
         \"description\":{\"text\":\"\u{a7}cThis server is offline\\n\
         \u{a7}7Hosted by \u{a7}bexample.net\"}}"
    );
    assert_eq!(kick_message("&cno"), "{\"text\":\"\u{a7}cno\"}");
    match answer_offline(Sniff::Join, &offline, &Motd::default()) {
        OfflineAnswer::Kick(Some(packet)) => {
            let text = decode_frame(&packet).unwrap().reader().string(999).unwrap();
            assert!(text.contains("offline right now"), "{text}");
        }
        other => panic!("{other:?}"),
    }
    let mut silent = Offline::default();
    silent.kick = None;
    assert_eq!(
        answer_offline(Sniff::Join, &silent, &Motd::default()),
        OfflineAnswer::Kick(None)
    );
    assert!(matches!(
        answer_offline(Sniff::Status, &offline, &Motd::default()),
        OfflineAnswer::Status(_)
    ));
    assert_eq!(
        answer_offline(Sniff::PassThrough, &offline, &Motd::default()),
        OfflineAnswer::Close
    );
    assert_eq!(
        answer_offline(Sniff::ClientGone, &offline, &Motd::default()),
        OfflineAnswer::Gone
    );
}

#[test]
fn the_server_is_tried_first() {
    let mut config = with_ad();
    assert_eq!(after_connect(true, &config), AfterConnect::Sniff);
    assert_eq!(after_connect(false, &config), AfterConnect::AnswerOffline);
    config.motd.line2 = None;
    config.offline.enabled = false;
    assert_eq!(after_connect(true, &config), AfterConnect::Pipe);
    assert_eq!(after_connect(false, &config), AfterConnect::Close);
}

// ------------------------------------------------------------------- config --

#[test]
fn a_minimal_config_gets_sensible_defaults() {
    let config = minimal();
    assert!(config.validate(true).is_ok());
    assert!(config.covers(30123));
    assert!(!config.covers(29999));
    assert_eq!(config.listen, default_listen());
    assert_eq!(config.listen_v6, default_listen_v6(), "IPv6 is on by default");
    assert_eq!(config.timeouts.handshake.get(), Duration::from_secs(5));
    assert!(!config.log.client_ip, "player addresses are not logged by default");
}

#[test]
fn port_ranges_parse_both_forms() {
    let mut config =
        Config::for_ports(vec![range("25565-25665"), PortRange::from_number(30000).unwrap()]);
    config.motd.line2 = Some("x".into());
    assert!(config.validate(true).is_ok());
    assert_eq!(
        config.ports,
        [PortRange { start: 25565, end: 25665 }, PortRange { start: 30000, end: 30000 }]
    );
    for bad in ["40000-30000", "0-10", "70000", "a-b"] {
        assert!(PortRange::from_str(bad).is_err(), "{bad}");
    }
}

#[test]
fn offline_answers_are_on_by_default_and_configurable() {
    let default = minimal().offline;
    assert!(default.enabled);
    assert!(default.kick.is_some());

    let custom = Offline {
        motd: "&cSleeping".into(),
        version: "&cZzz".into(),
        kick: None,
        ..Offline::default()
    };
    assert_eq!(custom.motd, "&cSleeping");
    assert_eq!(custom.version, "&cZzz");
    assert_eq!(custom.kick, None);
    assert!(custom.enabled, "unset keys keep their defaults");
}

#[test]
fn ipv6_can_be_turned_off() {
    let mut config = minimal();
    config.listen_v6 = None;
    assert!(config.validate(true).is_ok());
    assert_eq!(config.listen_v6, None);
}

#[test]
fn durations_are_human_text() {
    let mut config = minimal();
    config.timeouts.handshake = HumanDuration(parse("2s").unwrap());
    config.timeouts.connect = HumanDuration(parse("750ms").unwrap());
    assert_eq!(config.timeouts.handshake.get(), Duration::from_secs(2));
    assert_eq!(config.timeouts.connect.get(), Duration::from_millis(750));
}

#[test]
fn a_listener_inside_the_range_would_loop() {
    let mut config = minimal();
    config.listen = addr("127.0.0.1:30500");
    let err = config.validate(true).unwrap_err().to_text();
    assert!(err.contains("loop"), "{err}");
}

#[test]
fn listeners_must_match_their_family() {
    let mut config = minimal();
    config.listen_v6 = Some(addr("127.0.0.1:25501"));
    let err = config.validate(true).unwrap_err().to_text();
    assert!(err.contains("must be an IPv6 address"), "{err}");
}

#[test]
fn nothing_to_rewrite_is_worth_a_warning() {
    let config = Config::for_ports(vec![range("30000")]);
    let warnings = config.validate(true).unwrap();
    assert!(warnings.iter().any(|w| w.contains("passes through untouched")));
}

#[test]
fn every_problem_of_a_node_is_listed() {
    let mut config = Config::for_ports(vec![]);
    config.listen = addr("[::1]:1");
    assert_eq!(
        config.validate(true).unwrap_err().to_text(),
        "invalid configuration:\n  - `ports` is empty\n  - `listen` must be an IPv4 address"
    );
    let mut config = Config::for_ports(vec![range("1-10"), range("10-20"), range("5")]);
    config.metrics.enabled = true;
    config.metrics.bind = addr("[::]:9100");
    assert_eq!(
        config.validate(false).unwrap(),
        [
            "ports `1-10` and `10-20` overlap",
            "ports `1-10` and `5` overlap",
            "motd.line1 and motd.line2 are unset: every connection passes through untouched",
            "metrics listen on [::]:9100, which is reachable from outside",
            "interception needs Linux; this build can only check the config",
        ]
    );
}

#[test]
fn a_port_change_needs_a_restart() {
    let current = with_ad();
    let mut new_config = with_ad();
    new_config.motd.line2 = Some("&7Hosted by &bother.example".into());
    assert!(reload_warnings(&current, &new_config, vec![]).is_empty());
    new_config.ports = vec![range("30000-30500")];
    let warnings = reload_warnings(&current, &new_config, vec!["first".into()]);
    assert_eq!(warnings[0], "first");
    assert!(warnings[1].contains("restart"), "{warnings:?}");
    let mut no_v6 = with_ad();
    no_v6.listen_v6 = None;
    assert_eq!(reload_warnings(&current, &no_v6, vec![]).len(), 1);
}

#[test]
fn documents_read_as_they_were_printed() {
    let document = Json::Object(vec![
        ("a".into(), Json::Array(vec![Json::Null, Json::Bool(true)])),
        ("b".into(), Json::Text("\u{0}\"\\\n\u{e9}\u{1f600}".into())),
        ("c".into(), Json::Number(Number::Unsigned(u64::MAX))),
        ("d".into(), Json::Number(Number::Negative(i64::MIN))),
    ]);
    assert_eq!(Json::parse(&document.to_text()), Some(document));
    let mut deep = Json::Null;
    for _ in 0..127 {
        deep = Json::Array(vec![deep]);
    }
    assert!(Json::parse(&deep.to_text()).is_some());
    assert_eq!(Json::parse(&Json::Array(vec![deep]).to_text()), None);
}

#[test]
fn a_reload_changes_the_line_for_new_pings() {
    let current = Arc::new(with_ad());
    let mut next = with_ad();
    next.motd.line2 = Some("&7Hosted by &bother.example".into());
    let loaded = next.clone().accept(true);
    let (running, answer) = reload(Arc::clone(&current), loaded);
    assert_eq!(answer, Ok(vec![]));
    assert_eq!(running.motd, next.motd);

    next.ports = vec![range("30000-30500")];
    let (_, answer) = reload(Arc::clone(&running), next.accept(true));
    let warnings = answer.unwrap();
    assert!(warnings[0].contains("restart"), "a port change needs a restart: {warnings:?}");

    let broken = Config::for_ports(vec![]).accept(true);
    let (kept, answer) = reload(Arc::clone(&running), broken);
    assert!(answer.is_err(), "a broken file is rejected");
    assert_eq!(kept.motd, running.motd, "and the gateway keeps working");
}
