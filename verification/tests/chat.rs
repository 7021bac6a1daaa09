//! Colour codes and chat components.

use mc_gateway::json::{Json, Number};
use mc_gateway::protocol::chat::{
    component, component_from, component_to_plain, strip_formatting, translate_colors,
};
use mc_gateway::protocol::legacy_text::to_legacy;

fn json(text: &str) -> Json {
    Json::parse(text).unwrap()
}

#[test]
fn chat_translates_legacy_codes() {
    assert_eq!(translate_colors("&aHello &lWorld"), "\u{a7}aHello \u{a7}lWorld");
    assert_eq!(translate_colors("100&& counted"), "100& counted");
    assert_eq!(translate_colors("&zunknown"), "&zunknown");
}

#[test]
fn chat_translates_hex_codes() {
    assert_eq!(
        translate_colors("&#00AAFFblue"),
        "\u{a7}x\u{a7}0\u{a7}0\u{a7}A\u{a7}A\u{a7}F\u{a7}Fblue"
    );
    assert_eq!(translate_colors("&#xyzzyy nope"), "&#xyzzyy nope");
}

#[test]
fn ampersands_at_the_end_stay() {
    assert_eq!(translate_colors("a&"), "a&");
    assert_eq!(translate_colors("&#12345"), "&#12345");
    assert_eq!(translate_colors("&R&K"), "\u{a7}R\u{a7}K");
    assert_eq!(translate_colors("&g"), "&g");
}

#[test]
fn a_lone_section_sign_at_the_end_is_dropped() {
    assert_eq!(strip_formatting("x\u{a7}"), "x");
    assert_eq!(strip_formatting("\u{a7}\u{a7}\u{a7}ay"), "y");
}

#[test]
fn passes_raw_json_through() {
    let value = component(r#"{"text":"hi","bold":true}"#);
    assert_eq!(value.get("bold").unwrap().as_bool(), Some(true));
    assert_eq!(value.get("text").unwrap().as_str(), Some("hi"));
}

#[test]
fn wraps_plain_text() {
    assert_eq!(component("&ahi").get("text").unwrap().as_str(), Some("\u{a7}ahi"));
    assert_eq!(
        component("{not json").get("text").unwrap().as_str(),
        Some("{not json"),
        "what only looks like JSON is text"
    );
}

#[test]
fn a_component_is_the_document_or_the_text() {
    assert_eq!(component_from("&a", Some(Json::Null)), Json::Null);
    assert_eq!(
        component_from("&a", None),
        Json::Object(vec![("text".into(), Json::Text("\u{a7}a".into()))])
    );
}

#[test]
fn flattens_components_for_legacy_clients() {
    let value = json(r#"{"text": "A", "extra": [{"text": "B"}, "C"]}"#);
    assert_eq!(component_to_plain(&value), "ABC");
    assert_eq!(strip_formatting("\u{a7}aGreen"), "Green");
    assert_eq!(component_to_plain(&json("[1, \"x\", null]")), "x");
}

#[test]
fn a_plain_component_needs_no_codes() {
    assert_eq!(to_legacy(&json(r#"{"text": "A Minecraft Server"}"#)), "A Minecraft Server");
    assert_eq!(to_legacy(&json(r#""bare string""#)), "bare string");
}

#[test]
fn named_colours_and_formats_become_legacy_codes() {
    let value = json(r#"{"text": "Hello", "color": "gold", "bold": true}"#);
    assert_eq!(to_legacy(&value), "\u{a7}r\u{a7}6\u{a7}lHello");
}

#[test]
fn hex_colours_use_the_1_16_form() {
    let value = json(r##"{"text": "blue", "color": "#00AAFF"}"##);
    assert_eq!(
        to_legacy(&value),
        "\u{a7}r\u{a7}x\u{a7}0\u{a7}0\u{a7}A\u{a7}A\u{a7}F\u{a7}Fblue"
    );
}

#[test]
fn children_inherit_the_parent_style() {
    let value = json(
        r#"{"text": "A", "color": "red",
            "extra": [{"text": "B"}, {"text": "C", "color": "green"}]}"#,
    );
    // B keeps red from its parent; C switches to green.
    assert_eq!(to_legacy(&value), "\u{a7}r\u{a7}cAB\u{a7}r\u{a7}aC");
}

#[test]
fn a_reset_precedes_every_style_change() {
    let value = json(r#"{"extra": [{"text": "bold", "bold": true}, {"text": "plain"}]}"#);
    // Without the reset, "plain" would still be bold on the client.
    assert_eq!(to_legacy(&value), "\u{a7}r\u{a7}lbold\u{a7}rplain");
}

#[test]
fn newlines_survive_so_lines_stay_splittable() {
    let value = json(r#"{"text": "first\nsecond", "color": "gray"}"#);
    let legacy = to_legacy(&value);
    assert_eq!(legacy.lines().count(), 2);
    assert_eq!(strip_formatting(&legacy), "first\nsecond");
}

#[test]
fn a_real_backend_motd_roundtrips_to_plain_text() {
    // The shape vanilla and Paper actually send.
    let value = json(
        r#"{"extra": [
                {"text": "A Minecraft Server", "color": "white"},
                {"text": "\n"},
                {"text": "powered by Paper", "color": "gray", "italic": true}
            ],
            "text": ""}"#,
    );
    assert_eq!(strip_formatting(&to_legacy(&value)), "A Minecraft Server\npowered by Paper");
}

#[test]
fn the_first_item_of_a_list_styles_the_rest() {
    let value = json(r#"[{"text": "A", "color": "dark_grey"}, "B", {"text": "C", "bold": true}]"#);
    assert_eq!(to_legacy(&value), "\u{a7}r\u{a7}8AB\u{a7}r\u{a7}8\u{a7}lC");
    let value = json(r#"{"translate": "x", "with": ["one", {"text": "two", "strikethrough": true}]}"#);
    assert_eq!(to_legacy(&value), "one\u{a7}r\u{a7}mtwo");
}

#[test]
fn numbers_keep_their_kind() {
    assert_eq!(json("7"), Json::Number(Number::Unsigned(7)));
    assert_eq!(json("-7"), Json::Number(Number::Negative(-7)));
    assert_eq!(json("1.5"), Json::Number(Number::Real("1.5".into())));
    assert_eq!(json("18446744073709551615").as_i64(), None);
    assert_eq!(json("[1.5,-2,3,true,null,\"a\\\"b\"]").to_text(), "[1.5,-2,3,true,null,\"a\\\"b\"]");
    assert_eq!(json("{\"b\":1,\"a\":{}}").copy().to_text(), "{\"a\":{},\"b\":1}");
    assert_eq!(Json::parse("{"), None);
}
