//! Packets, handshakes and what is sent before login.

use mc_gateway::json::Json;
use mc_gateway::protocol::chat::component;
use mc_gateway::protocol::error::Error;
use mc_gateway::protocol::frame::{decode_frame, decode_frame_limited, encode_packet};
use mc_gateway::protocol::handshake::{version_name, Handshake, NextState, HANDSHAKE_ID};
use mc_gateway::protocol::legacy::{detect, encode_response, LegacyPing, LEGACY_KICK_ID};
use mc_gateway::protocol::login::{
    encode_disconnect, LoginStart, LOGIN_DISCONNECT_ID, LOGIN_START_ID,
};
use mc_gateway::protocol::status::{
    encode_pong, encode_status_response, PlayerInfo, PlayerSample, ServerStatus, VersionInfo,
    PONG_RESPONSE_ID, STATUS_RESPONSE_ID,
};
use mc_gateway::protocol::varint::{read_varint, varint_len, write_varint};
use mc_gateway::protocol::wire::{Reader, Writer};

const CASES: &[(i32, &[u8])] = &[
    (0, &[0x00]),
    (1, &[0x01]),
    (2, &[0x02]),
    (127, &[0x7f]),
    (128, &[0x80, 0x01]),
    (255, &[0xff, 0x01]),
    (25565, &[0xdd, 0xc7, 0x01]),
    (2097151, &[0xff, 0xff, 0x7f]),
    (2147483647, &[0xff, 0xff, 0xff, 0xff, 0x07]),
    (-1, &[0xff, 0xff, 0xff, 0xff, 0x0f]),
    (-2147483648, &[0x80, 0x80, 0x80, 0x80, 0x08]),
];

#[test]
fn matches_protocol_reference_vectors() {
    for (value, encoded) in CASES {
        let mut out = Vec::new();
        write_varint(&mut out, *value);
        assert_eq!(&out, encoded, "encoding {value}");
        assert_eq!(varint_len(*value), encoded.len(), "length of {value}");

        let mut pos = 0;
        assert_eq!(read_varint(encoded, &mut pos).unwrap(), *value);
        assert_eq!(pos, encoded.len());
    }
}

#[test]
fn truncated_varint_is_incomplete_not_an_error() {
    let mut pos = 0;
    assert_eq!(read_varint(&[0xdd, 0xc7], &mut pos), Err(Error::Incomplete));
    let mut pos = 0;
    assert_eq!(read_varint(&[], &mut pos), Err(Error::Incomplete));
}

#[test]
fn rejects_oversized_varint() {
    let mut pos = 0;
    let bomb = [0xff, 0xff, 0xff, 0xff, 0xff, 0xff];
    assert_eq!(read_varint(&bomb, &mut pos), Err(Error::VarIntTooLong));
}

#[test]
fn roundtrips_across_the_whole_range() {
    for value in (i32::MIN..=i32::MAX).step_by(0x10_0001) {
        let mut out = Vec::new();
        write_varint(&mut out, value);
        let mut pos = 0;
        assert_eq!(read_varint(&out, &mut pos).unwrap(), value);
        assert_eq!(pos, out.len());
    }
}

#[test]
fn a_varint_past_the_end_is_incomplete() {
    let mut pos = 7;
    assert_eq!(read_varint(&[0x00], &mut pos), Err(Error::Incomplete));
    assert_eq!(pos, 7);
}

#[test]
fn the_fifth_byte_is_cut_to_32_bits() {
    let mut pos = 0;
    assert_eq!(read_varint(&[0x80, 0x80, 0x80, 0x80, 0x7f], &mut pos), Ok(-268_435_456));
    assert_eq!(pos, 5);
}

#[test]
fn varints_match_the_protocol_reference_vectors() {
    let cases: &[(i32, &[u8])] = &[
        (0, &[0x00]),
        (127, &[0x7f]),
        (128, &[0x80, 0x01]),
        (25565, &[0xdd, 0xc7, 0x01]),
        (2147483647, &[0xff, 0xff, 0xff, 0xff, 0x07]),
        (-1, &[0xff, 0xff, 0xff, 0xff, 0x0f]),
    ];
    for (value, encoded) in cases {
        let mut out = Vec::new();
        write_varint(&mut out, *value);
        assert_eq!(&out, encoded, "encoding {value}");
        let mut pos = 0;
        assert_eq!(read_varint(encoded, &mut pos).unwrap(), *value);
        assert_eq!(pos, encoded.len());
    }
}

#[test]
fn truncated_input_is_incomplete_and_oversized_varints_are_errors() {
    assert_eq!(read_varint(&[0xdd, 0xc7], &mut 0), Err(Error::Incomplete));
    assert_eq!(read_varint(&[0xff; 6], &mut 0), Err(Error::VarIntTooLong));
}

#[test]
fn decodes_a_minimal_packet() {
    // len=1, id=0x00, empty body: a status request.
    let frame = decode_frame(&[0x01, 0x00]).unwrap();
    assert_eq!(frame.id, 0x00);
    assert!(frame.body.is_empty());
    assert_eq!(frame.total_len, 2);
}

#[test]
fn leaves_trailing_bytes_for_the_next_frame() {
    let mut buf = encode_packet(0x00, &[]);
    buf.extend_from_slice(&encode_packet(0x01, &[1, 2, 3, 4, 5, 6, 7, 8]));
    let first = decode_frame(&buf).unwrap();
    assert_eq!(first.total_len, 2);
    let second = decode_frame(&buf[first.total_len..]).unwrap();
    assert_eq!(second.id, 0x01);
    assert_eq!(second.body, &[1, 2, 3, 4, 5, 6, 7, 8]);
}

#[test]
fn partial_packets_are_incomplete() {
    let full = encode_packet(0x00, &[0xaa; 40]);
    for cut in 0..full.len() {
        assert_eq!(decode_frame(&full[..cut]), Err(Error::Incomplete), "cut at {cut}");
    }
    assert!(decode_frame(&full).is_ok());
}

#[test]
fn every_partial_frame_is_incomplete() {
    let full = encode_packet(0x00, &[0xaa; 40]);
    for cut in 0..full.len() {
        assert_eq!(decode_frame(&full[..cut]), Err(Error::Incomplete), "cut at {cut}");
    }
    assert_eq!(decode_frame(&full).unwrap().total_len, full.len());
}

#[test]
fn rejects_a_declared_length_bomb_without_allocating() {
    // VarInt 10 MiB length prefix, no payload.
    let mut buf = Vec::new();
    write_varint(&mut buf, 10 * 1024 * 1024);
    assert!(matches!(decode_frame(&buf), Err(Error::PacketTooLarge { .. })));
}

#[test]
fn a_declared_length_bomb_is_refused_without_allocating() {
    let mut buf = Vec::new();
    write_varint(&mut buf, 10 * 1024 * 1024);
    assert!(matches!(decode_frame(&buf), Err(Error::PacketTooLarge { .. })));
    assert_eq!(
        decode_frame_limited(&buf, 9),
        Err(Error::PacketTooLarge { max: 9, actual: 10 * 1024 * 1024 })
    );
}

#[test]
fn roundtrips_through_encode() {
    let encoded = encode_packet(0x7f, b"hello");
    let frame = decode_frame(&encoded).unwrap();
    assert_eq!(frame.id, 0x7f);
    assert_eq!(frame.body, b"hello");
    assert_eq!(frame.total_len, encoded.len());
}

#[test]
fn a_negative_length_is_an_error() {
    let mut buf = Vec::new();
    write_varint(&mut buf, -5);
    assert_eq!(decode_frame(&buf), Err(Error::NegativeLength(-5)));
}

#[test]
fn an_unexpected_id_is_reported() {
    let bytes = encode_packet(0x05, &[]);
    let frame = decode_frame(&bytes).unwrap();
    assert_eq!(frame.expect_id(0), Err(Error::UnexpectedPacket { expected: 0, actual: 5 }));
    assert_eq!(frame.expect_id(5), Ok(()));
}

#[test]
fn error_kinds_are_labels() {
    assert_eq!(Error::Incomplete.kind().0, "incomplete");
    assert!(Error::Incomplete.is_incomplete());
    assert!(!Error::NotMinecraft.is_incomplete());
    assert_eq!(Error::NotMinecraft.kind().0, "not_minecraft");
    assert_eq!(Error::StringTooLong { max: 1, actual: 2 }.kind().0, "string_too_long");
}

#[test]
fn readers_stop_where_the_data_ends() {
    let mut r = Reader::new(&[1, 2, 3, 4, 5]);
    assert_eq!(r.u8(), Ok(1));
    assert_eq!(r.u16(), Ok(0x0203));
    assert_eq!(r.position(), 3);
    assert_eq!(r.remaining(), 2);
    assert_eq!(r.i64(), Err(Error::Incomplete));
    assert_eq!(r.rest(), &[4, 5]);
    assert_eq!(r.take(2), Ok(&[4u8, 5][..]));
    assert!(r.is_empty());
}

#[test]
fn strings_are_limited_in_characters_and_bytes() {
    let mut w = Writer::new();
    w.string("h\u{e9}llo");
    assert_eq!(w.as_slice()[0], 6, "the prefix counts bytes");
    assert_eq!(Reader::new(w.as_slice()).string(5).unwrap(), "h\u{e9}llo");
    assert_eq!(
        Reader::new(w.as_slice()).string(4),
        Err(Error::StringTooLong { max: 4, actual: 5 })
    );
    assert_eq!(
        Reader::new(w.as_slice()).string(1),
        Err(Error::StringTooLong { max: 4, actual: 6 })
    );
    assert_eq!(Reader::new(&[2, 0xff, 0xfe]).string(9), Err(Error::InvalidUtf8));
}

fn handshake(address: &str, next_state: i32) -> Vec<u8> {
    let mut w = Writer::new();
    w.varint(767).string(address).u16(25565).varint(next_state);
    encode_packet(HANDSHAKE_ID, w.as_slice())
}

#[test]
fn decodes_a_vanilla_handshake() {
    let bytes = handshake("survival.example.net", 2);
    let frame = decode_frame(&bytes).unwrap();
    let hs = Handshake::decode(&frame).unwrap();
    assert_eq!(hs.protocol_version, 767);
    assert_eq!(hs.server_port, 25565);
    assert_eq!(hs.next_state, NextState::Login);
    assert_eq!(hs.hostname(), "survival.example.net");
    assert!(!hs.is_modded_handshake());
    assert_eq!(hs.version_name(), Some("1.21.x"));
}

#[test]
fn strips_forge_markers_from_the_routing_host() {
    for marker in ["\0FML\0", "\0FML2\0", "\0FML3\0", "\0FORGE"] {
        let bytes = handshake(&format!("modded.example.net{marker}"), 2);
        let frame = decode_frame(&bytes).unwrap();
        let hs = Handshake::decode(&frame).unwrap();
        assert_eq!(hs.hostname(), "modded.example.net", "marker {marker:?}");
        assert!(hs.is_modded_handshake(), "marker {marker:?}");
    }
}

#[test]
fn strips_bungeecord_forwarding_payload() {
    let bytes = handshake("hub.example.net\x00203.0.113.7\x0011111111222233334444555555555555", 2);
    let frame = decode_frame(&bytes).unwrap();
    assert_eq!(Handshake::decode(&frame).unwrap().hostname(), "hub.example.net");
}

#[test]
fn normalises_srv_trailing_dot_and_case() {
    let bytes = handshake("Survival.Example.NET.", 1);
    let frame = decode_frame(&bytes).unwrap();
    let hs = Handshake::decode(&frame).unwrap();
    assert_eq!(hs.hostname(), "survival.example.net");
    assert_eq!(hs.next_state, NextState::Status);
}

#[test]
fn transfer_state_routes_like_login() {
    let bytes = handshake("example.net", 3);
    let frame = decode_frame(&bytes).unwrap();
    let hs = Handshake::decode(&frame).unwrap();
    assert_eq!(hs.next_state, NextState::Transfer);
    assert!(hs.next_state.is_join());
}

#[test]
fn rejects_an_unknown_next_state() {
    let bytes = handshake("example.net", 9);
    let frame = decode_frame(&bytes).unwrap();
    assert_eq!(Handshake::decode(&frame), Err(Error::UnknownNextState(9)));
}

#[test]
fn reencodes_byte_identically() {
    let bytes = handshake("modded.example.net\0FML2\0", 2);
    let frame = decode_frame(&bytes).unwrap();
    let hs = Handshake::decode(&frame).unwrap();
    assert_eq!(hs.encode(), bytes);
}

#[test]
fn handshakes_roundtrip() {
    for next_state in [NextState::Status, NextState::Login, NextState::Transfer] {
        let handshake = Handshake {
            protocol_version: 767,
            server_address: "node.example.net\0FML2\0".into(),
            server_port: 30123,
            next_state,
        };
        let bytes = handshake.encode();
        assert_eq!(Handshake::decode(&decode_frame(&bytes).unwrap()).unwrap(), handshake);
    }
}

#[test]
fn an_unknown_next_state_is_rejected() {
    let mut w = Writer::new();
    w.varint(767).string("x").u16(1).varint(9);
    let bytes = encode_packet(HANDSHAKE_ID, w.as_slice());
    assert_eq!(
        Handshake::decode(&decode_frame(&bytes).unwrap()),
        Err(Error::UnknownNextState(9))
    );
}

#[test]
fn extra_data_is_what_follows_the_first_nul() {
    let mut hs = Handshake {
        protocol_version: 4,
        server_address: "a\0b\0c".into(),
        server_port: 1,
        next_state: NextState::Status,
    };
    assert_eq!(hs.extra_data(), Some("b\0c"));
    hs.server_address = "plain".into();
    assert_eq!(hs.extra_data(), None);
    assert_eq!(version_name(4), Some("1.7.2-1.7.5"));
    assert_eq!(version_name(110), Some("1.9.x"));
    assert_eq!(version_name(111), None);
    assert_eq!(NextState::Transfer.as_str(), "transfer");
}

fn decode_utf16_payload(packet: &[u8]) -> String {
    assert_eq!(packet[0], LEGACY_KICK_ID);
    let len = u16::from_be_bytes([packet[1], packet[2]]) as usize;
    let units: Vec<u16> =
        packet[3..].chunks_exact(2).map(|c| u16::from_be_bytes([c[0], c[1]])).collect();
    assert_eq!(units.len(), len, "declared length must match the payload");
    String::from_utf16(&units).unwrap()
}

#[test]
fn detects_both_legacy_forms() {
    assert_eq!(detect(&[0xFE, 0x01, 0xFA]), Some(LegacyPing::Post14));
    assert_eq!(detect(&[0xFE, 0x00]), Some(LegacyPing::Pre13));
    assert_eq!(detect(&[0xFE]), Some(LegacyPing::Pre13));
}

#[test]
fn ignores_modern_handshakes() {
    // A modern handshake starts with a length VarInt, never 0xFE.
    assert_eq!(detect(&[0x10, 0x00, 0xf7, 0x05]), None);
    assert_eq!(detect(&[]), None);
}

#[test]
fn builds_the_1_6_reply() {
    let packet = encode_response(LegacyPing::Post14, 127, "1.21", "My Network", 5, 100);
    let text = decode_utf16_payload(&packet);
    let fields: Vec<&str> = text.split('\u{0}').collect();
    assert_eq!(fields, ["\u{a7}1", "127", "1.21", "My Network", "5", "100"]);
}

#[test]
fn builds_the_pre_1_3_reply() {
    let packet = encode_response(LegacyPing::Pre13, 127, "1.21", "My Network", 5, 100);
    assert_eq!(decode_utf16_payload(&packet), "My Network\u{a7}5\u{a7}100");
}

#[test]
fn sanitises_motd_so_fields_cannot_be_forged() {
    let packet =
        encode_response(LegacyPing::Post14, 127, "1.21", "\u{a7}aEvil\u{0}999\nsecond", 5, 100);
    let text = decode_utf16_payload(&packet);
    let fields: Vec<&str> = text.split('\u{0}').collect();
    assert_eq!(fields.len(), 6, "injected delimiters must not add fields");
    assert_eq!(fields[3], "Evil 999");
}

#[test]
fn characters_beyond_the_basic_plane_take_two_units() {
    let packet = encode_response(LegacyPing::Pre13, 0, "", "\u{1f600}", -1, 0);
    assert_eq!(decode_utf16_payload(&packet), "\u{1f600}\u{a7}-1\u{a7}0");
    assert_eq!(packet[2], 2 + 5);
}

#[test]
fn decodes_a_modern_login_start() {
    let mut w = Writer::new();
    w.string("Notch").bytes(&0x0693_9A3B_1DFD_4E0F_8FBC_3D8C_2A7E_1B4Du128.to_be_bytes());
    let packet = encode_packet(LOGIN_START_ID, w.as_slice());
    let login = LoginStart::decode(&decode_frame(&packet).unwrap()).unwrap();
    assert_eq!(login.name, "Notch");
    assert_eq!(login.uuid_string().unwrap(), "06939a3b-1dfd-4e0f-8fbc-3d8c2a7e1b4d");
}

#[test]
fn decodes_a_legacy_login_start_without_uuid() {
    let mut w = Writer::new();
    w.string("Notch");
    let packet = encode_packet(LOGIN_START_ID, w.as_slice());
    let login = LoginStart::decode(&decode_frame(&packet).unwrap()).unwrap();
    assert_eq!(login.name, "Notch");
    assert_eq!(login.uuid, None);
}

#[test]
fn disconnect_carries_a_chat_component() {
    let packet = encode_disconnect(&component("&cBackend offline"));
    let frame = decode_frame(&packet).unwrap();
    assert_eq!(frame.id, LOGIN_DISCONNECT_ID);
    let json = Json::parse(&frame.reader().string(262144).unwrap()).unwrap();
    assert_eq!(json.get("text").unwrap().as_str(), Some("\u{a7}cBackend offline"));
}

fn sample() -> ServerStatus {
    ServerStatus {
        version: VersionInfo { name: "MyNetwork".into(), protocol: 767 },
        players: PlayerInfo { max: 1000, online: 123, sample: vec![] },
        description: component("&bMy Network"),
        favicon: None,
        enforces_secure_chat: Some(false),
    }
}

#[test]
fn serialises_the_documented_shape() {
    let json = Json::parse(&sample().to_json()).unwrap();
    let version = json.get("version").unwrap();
    let players = json.get("players").unwrap();
    assert_eq!(version.get("protocol").unwrap().as_i64(), Some(767));
    assert_eq!(players.get("online").unwrap().as_i64(), Some(123));
    assert_eq!(players.get("max").unwrap().as_i64(), Some(1000));
    assert_eq!(json.get("enforcesSecureChat").unwrap().as_bool(), Some(false));
    assert!(json.get("favicon").is_none(), "absent favicon must be omitted");
    let text = json.get("description").unwrap().get("text").unwrap().as_str().unwrap();
    assert!(text.contains("My Network"));
}

#[test]
fn the_status_document_is_written_field_by_field() {
    let mut status = sample();
    status.players.sample = vec![PlayerSample::line("a\"b".into()), PlayerSample::line("c".into())];
    status.favicon = Some("data:x".into());
    status.enforces_secure_chat = None;
    assert_eq!(
        status.to_json(),
        "{\"version\":{\"name\":\"MyNetwork\",\"protocol\":767},\
         \"players\":{\"max\":1000,\"online\":123,\"sample\":[\
         {\"name\":\"a\\\"b\",\"id\":\"00000000-0000-0000-0000-000000000000\"},\
         {\"name\":\"c\",\"id\":\"00000000-0000-0000-0000-000000000000\"}]},\
         \"description\":{\"text\":\"\u{a7}bMy Network\"},\"favicon\":\"data:x\"}"
    );
}

#[test]
fn status_response_roundtrips_through_a_frame() {
    let json = sample().to_json();
    let packet = encode_status_response(&json);
    let frame = decode_frame(&packet).unwrap();
    assert_eq!(frame.id, STATUS_RESPONSE_ID);
    assert_eq!(frame.reader().string(32767).unwrap(), json);
}

#[test]
fn a_status_response_roundtrips() {
    let packet = encode_status_response(r#"{"description":"hi"}"#);
    let frame = decode_frame(&packet).unwrap();
    assert_eq!(frame.id, STATUS_RESPONSE_ID);
    assert_eq!(frame.reader().string(1000).unwrap(), r#"{"description":"hi"}"#);
}

#[test]
fn pong_echoes_the_payload() {
    let packet = encode_pong(-8_070_430_567_881_151_616);
    let frame = decode_frame(&packet).unwrap();
    assert_eq!(frame.id, PONG_RESPONSE_ID);
    let mut r: Reader<'_> = frame.reader();
    assert_eq!(r.i64().unwrap(), -8_070_430_567_881_151_616);
}

#[test]
fn errors_are_put_into_words() {
    let words = |error: Error| error.to_text();
    assert_eq!(words(Error::Incomplete), "need more bytes");
    assert_eq!(words(Error::VarIntTooLong), "VarInt is longer than 5 bytes");
    assert_eq!(words(Error::StringTooLong { max: 16, actual: 17 }), "string too long: 17 > 16");
    assert_eq!(words(Error::NegativeLength(-3)), "negative length prefix: -3");
    assert_eq!(words(Error::InvalidUtf8), "invalid UTF-8 in string field");
    assert_eq!(
        words(Error::PacketTooLarge { max: 9, actual: 10 }),
        "packet of 10 bytes exceeds the 9 byte limit"
    );
    assert_eq!(
        words(Error::UnexpectedPacket { expected: 0, actual: 0x1f }),
        "expected packet id 0x00, got 0x1f"
    );
    assert_eq!(
        words(Error::UnexpectedPacket { expected: 256, actual: -1 }),
        "expected packet id 0x100, got 0xffffffff"
    );
    assert_eq!(words(Error::UnknownNextState(9)), "unknown next_state 9 in handshake");
    assert_eq!(words(Error::NotMinecraft), "not a Minecraft handshake");
}

#[test]
fn an_empty_frame_is_not_waited_for() {
    for bytes in [&[0x00][..], &[0x00, 0x01, 0x00], &[0x01, 0x80], &[0x02, 0x80, 0x80, 0x00]] {
        let error = decode_frame(bytes).unwrap_err();
        assert_eq!(error, Error::NotMinecraft, "{bytes:02x?}");
        assert!(!error.is_incomplete());
    }
    assert!(decode_frame(&[0x02, 0x00]).unwrap_err().is_incomplete());
    assert!(decode_frame(&[]).unwrap_err().is_incomplete());
}
