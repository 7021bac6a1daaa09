//! What the gateway answers to a status ping.

use mc_gateway::config::model::{Motd, OfflineMotd, PlayerSource, ProtocolPolicy};
use mc_gateway::gateway::motd::{
    build, favicon_url, png_dimensions, FaviconError, MotdContext, INCOMPATIBLE,
};
use mc_gateway::json::Json;
use mc_gateway::protocol::status::ServerStatus;

fn context() -> MotdContext<'static> {
    MotdContext { client_protocol: 767, sessions: 42, reported: 100, favicon: None, offline: false }
}

fn text_of(status: &ServerStatus) -> String {
    status.description.get("text").unwrap().as_str().unwrap().to_owned()
}

#[test]
fn auto_protocol_mirrors_the_client() {
    let motd = Motd::default();
    assert_eq!(build(&motd, context()).version.protocol, 767);

    let old_client = MotdContext { client_protocol: 47, ..context() };
    assert_eq!(build(&motd, old_client).version.protocol, 47, "1.8 sees itself as supported");
}

#[test]
fn a_fixed_protocol_is_reported_verbatim() {
    let motd = Motd { protocol: ProtocolPolicy::Fixed(767), ..Motd::default() };
    let old_client = MotdContext { client_protocol: 47, ..context() };
    assert_eq!(build(&motd, old_client).version.protocol, 767);
}

#[test]
fn player_counts_follow_the_configured_source() {
    let mut motd = Motd { online: 7, ..Motd::default() };

    motd.players = PlayerSource::Sessions;
    assert_eq!(build(&motd, context()).players.online, 42);

    motd.players = PlayerSource::Static;
    assert_eq!(build(&motd, context()).players.online, 7);

    motd.players = PlayerSource::Backends;
    assert_eq!(build(&motd, context()).players.online, 100);
}

#[test]
fn the_offline_motd_replaces_text_and_counts() {
    let motd = Motd { text: "online".into(), ..Motd::default() };
    let status = build(&motd, MotdContext { offline: true, ..context() });

    assert_eq!(status.players.online, 0);
    assert_eq!(status.version.protocol, INCOMPATIBLE);
    let text = text_of(&status);
    assert!(text.contains("Currently offline"), "{text}");
}

#[test]
fn offline_can_keep_the_entry_looking_compatible() {
    let motd = Motd {
        offline: OfflineMotd { text: "maintenance".into(), mark_incompatible: false },
        ..Motd::default()
    };
    let status = build(&motd, MotdContext { offline: true, ..context() });
    assert_eq!(status.version.protocol, 767);
}

#[test]
fn colour_codes_are_translated_in_text_and_sample() {
    let motd = Motd {
        text: "&bNetwork".into(),
        sample: vec!["&7line one".into()],
        ..Motd::default()
    };
    let status = build(&motd, context());
    assert_eq!(text_of(&status), "\u{a7}bNetwork");
    assert_eq!(status.players.sample[0].name, "\u{a7}7line one");
}

#[test]
fn the_json_survives_a_roundtrip() {
    let motd = Motd::default();
    let json = Json::parse(&build(&motd, context()).to_json()).unwrap();
    assert_eq!(json.get("players").unwrap().get("max").unwrap().as_i64(), Some(1000));
    assert!(json.get("description").unwrap().get("text").unwrap().as_str().is_some());
}

#[test]
fn favicons_are_validated_before_they_break_the_ping() {
    let not_png = favicon_url("not.png", b"definitely not a png").unwrap_err();
    assert_eq!(not_png, FaviconError::NotPng { path: "not.png".into() });
    assert_eq!(not_png.to_text(), "favicon not.png is not a PNG file");

    // A syntactically valid PNG header declaring 32x32.
    let mut small = vec![0x89, b'P', b'N', b'G', 0x0D, 0x0A, 0x1A, 0x0A];
    small.extend_from_slice(&13u32.to_be_bytes());
    small.extend_from_slice(b"IHDR");
    small.extend_from_slice(&32u32.to_be_bytes());
    small.extend_from_slice(&32u32.to_be_bytes());
    let wrong = favicon_url("small.png", &small).unwrap_err();
    assert!(matches!(wrong, FaviconError::WrongSize { width: 32, height: 32, .. }));
    assert_eq!(
        wrong.to_text(),
        "favicon small.png is 32x32; Minecraft requires exactly 64x64"
    );

    let mut correct = small.clone();
    correct[16..20].copy_from_slice(&64u32.to_be_bytes());
    correct[20..24].copy_from_slice(&64u32.to_be_bytes());
    let encoded = favicon_url("good.png", &correct).unwrap();
    assert_eq!(
        encoded,
        "data:image/png;base64,iVBORw0KGgoAAAANSUhEUgAAAEAAAABA"
    );
    assert_eq!(png_dimensions(&correct[..23]), None);
}

#[test]
fn favicon_and_json_motds_are_passed_on() {
    let motd = Motd { text: " {\"text\":\"raw\",\"bold\":true}".into(), ..Motd::default() };
    let status = build(&motd, MotdContext { favicon: Some("data:x"), ..context() });
    assert_eq!(status.favicon.as_deref(), Some("data:x"));
    assert_eq!(status.description.get("bold").unwrap().as_bool(), Some(true));
}
