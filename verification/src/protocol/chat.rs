//! Chat components and legacy `§` colour codes, as far as MOTD lines need them.

use vstd::prelude::*;
use vstd::string::StringExecFns;

use crate::json::{parse_json, parsed, Json, JsonValue};
use crate::text::{from_chars, is_space, sub_chars, to_chars, trim_start, trim_start_chars};

verus! {

/// Section sign used by the legacy colour codes.
pub const SECTION: char = '\u{00a7}';

/// Whether `c` is a hexadecimal digit.
pub open spec fn is_hex(c: char) -> bool {
    '0' <= c <= '9' || 'a' <= c <= 'f' || 'A' <= c <= 'F'
}

/// Whether `c` is a colour or format code, in either case: `0` to `9`, `a` to
/// `f`, `k` to `o` and `r`.
pub open spec fn is_code(c: char) -> bool {
    is_hex(c) || 'k' <= c <= 'o' || 'K' <= c <= 'O' || c == 'r' || c == 'R'
}

/// Each character with a section sign in front.
pub open spec fn sectioned(s: Seq<char>) -> Seq<char>
    decreases s.len(),
{
    if s.len() == 0 {
        Seq::empty()
    } else {
        sectioned(s.drop_last()) + seq![SECTION, s.last()]
    }
}

/// Whether `s` starts with `#rrggbb`.
pub open spec fn starts_with_hex_color(s: Seq<char>) -> bool {
    s.len() >= 7 && s[0] == '#' && forall|i: int| 1 <= i < 7 ==> is_hex(#[trigger] s[i])
}

/// `s` with its `&` codes translated. `&&` is a literal ampersand, `&#rrggbb` a
/// hex colour, and an ampersand before anything else stays as it is.
pub open spec fn translated(s: Seq<char>) -> Seq<char>
    decreases s.len(),
{
    if s.len() == 0 {
        Seq::empty()
    } else if s[0] != '&' {
        seq![s[0]] + translated(s.skip(1))
    } else if s.len() > 1 && s[1] == '&' {
        seq!['&'] + translated(s.skip(2))
    } else if starts_with_hex_color(s.skip(1)) {
        seq![SECTION, 'x'] + sectioned(s.subrange(2, 8)) + translated(s.skip(8))
    } else if s.len() > 1 && is_code(s[1]) {
        seq![SECTION, s[1]] + translated(s.skip(2))
    } else {
        seq!['&'] + translated(s.skip(1))
    }
}

/// Whether `c` is a hexadecimal digit.
pub fn is_hex_char(c: char) -> (yes: bool)
    ensures
        yes == is_hex(c),
{
    ('0' <= c && c <= '9') || ('a' <= c && c <= 'f') || ('A' <= c && c <= 'F')
}

/// Whether `c` is a colour or format code.
pub fn is_code_char(c: char) -> (yes: bool)
    ensures
        yes == is_code(c),
{
    is_hex_char(c) || ('k' <= c && c <= 'o') || ('K' <= c && c <= 'O') || c == 'r' || c == 'R'
}

/// Whether all characters are hexadecimal digits.
pub(crate) fn all_hex(chars: &[char]) -> (yes: bool)
    ensures
        yes == (forall|i: int| 0 <= i < chars@.len() ==> is_hex(#[trigger] chars@[i])),
{
    let mut i: usize = 0;
    while i < chars.len()
        invariant
            i <= chars@.len(),
            forall|j: int| 0 <= j < i ==> is_hex(#[trigger] chars@[j]),
        decreases chars@.len() - i,
    {
        if !is_hex_char(chars[i]) {
            return false;
        }
        i = i + 1;
    }
    true
}

/// Appends each character with a section sign in front.
pub(crate) fn push_sectioned(out: &mut String, chars: &[char])
    ensures
        final(out)@ == old(out)@ + sectioned(chars@),
{
    let mut i: usize = 0;
    assert(chars@.take(0) =~= Seq::<char>::empty());
    assert(out@ =~= out@ + sectioned(chars@.take(0)));
    while i < chars.len()
        invariant
            i <= chars@.len(),
            out@ == old(out)@ + sectioned(chars@.take(i as int)),
        decreases chars@.len() - i,
    {
        let ghost before = out@;
        out.push(SECTION);
        out.push(chars[i]);
        proof {
            let more = chars@.take(i + 1);
            assert(more.drop_last() =~= chars@.take(i as int));
            assert(out@ =~= old(out)@ + sectioned(more));
        }
        i = i + 1;
    }
    assert(chars@.take(i as int) =~= chars@);
}

/// Translates `&`-prefixed colour codes into the `§` codes the client expects,
/// including `&#rrggbb` for the 1.16+ hex palette.
///
/// `&&` is an escape for a literal ampersand.
pub fn translate_colors(input: &str) -> (out: String)
    ensures
        out@ == translated(input@),
{
    let chars: Vec<char> = to_chars(input);
    let mut out = String::new();
    let mut i: usize = 0;
    proof {
        assert(chars@.skip(0) =~= chars@);
        assert(out@ + translated(chars@) =~= translated(chars@));
    }
    while i < chars.len()
        invariant
            i <= chars@.len(),
            out@ + translated(chars@.skip(i as int)) == translated(chars@),
        decreases chars@.len() - i,
    {
        let ghost rest = chars@.skip(i as int);
        let ghost before = out@;
        let left: usize = chars.len() - i;
        let c: char = chars[i];
        if c != '&' {
            out.push(c);
            proof {
                assert(rest.skip(1) =~= chars@.skip(i + 1));
                assert(out@ + translated(rest.skip(1)) =~= before + translated(rest));
            }
            i = i + 1;
        } else if left > 1 && chars[i + 1] == '&' {
            out.push('&');
            proof {
                assert(rest.skip(2) =~= chars@.skip(i + 2));
                assert(out@ + translated(rest.skip(2)) =~= before + translated(rest));
            }
            i = i + 2;
        } else {
            let hex: bool = left >= 8 && chars[i + 1] == '#' && all_hex(
                sub_chars(chars.as_slice(), i + 2, i + 8),
            );
            proof {
                if left >= 8 {
                    let digits = chars@.subrange(i + 2, i + 8);
                    assert forall|j: int| 1 <= j < 7 implies rest.skip(1)[j] == #[trigger] digits[j
                        - 1] by {}
                    if hex {
                        assert forall|j: int| 1 <= j < 7 implies is_hex(#[trigger] rest.skip(1)[j]) by {
                            assert(rest.skip(1)[j] == digits[j - 1]);
                        }
                    } else if starts_with_hex_color(rest.skip(1)) {
                        assert forall|j: int| 0 <= j < digits.len() implies is_hex(#[trigger] digits[j]) by {
                            assert(rest.skip(1)[j + 1] == digits[j]);
                        }
                    }
                }
                assert(hex == starts_with_hex_color(rest.skip(1)));
            }
            if hex {
                out.push(SECTION);
                out.push('x');
                push_sectioned(&mut out, sub_chars(chars.as_slice(), i + 2, i + 8));
                proof {
                    assert(rest.subrange(2, 8) =~= chars@.subrange(i + 2, i + 8));
                    assert(rest.skip(8) =~= chars@.skip(i + 8));
                    assert(out@ + translated(rest.skip(8)) =~= before + translated(rest));
                }
                i = i + 8;
            } else if left > 1 && is_code_char(chars[i + 1]) {
                out.push(SECTION);
                out.push(chars[i + 1]);
                proof {
                    assert(rest.skip(2) =~= chars@.skip(i + 2));
                    assert(out@ + translated(rest.skip(2)) =~= before + translated(rest));
                }
                i = i + 2;
            } else {
                out.push('&');
                proof {
                    assert(rest.skip(1) =~= chars@.skip(i + 1));
                    assert(out@ + translated(rest.skip(1)) =~= before + translated(rest));
                }
                i = i + 1;
            }
        }
    }
    proof {
        assert(chars@.skip(i as int) =~= Seq::<char>::empty());
        assert(out@ + translated(Seq::<char>::empty()) =~= out@);
    }
    out
}

/// `s` without its formatting codes: each section sign goes with the character
/// behind it.
pub open spec fn stripped(s: Seq<char>) -> Seq<char>
    decreases s.len(),
{
    if s.len() == 0 {
        Seq::empty()
    } else if s[0] == SECTION {
        if s.len() > 1 {
            stripped(s.skip(2))
        } else {
            Seq::empty()
        }
    } else {
        seq![s[0]] + stripped(s.skip(1))
    }
}

/// Strips formatting, for the legacy ping response and for logging.
pub fn strip_formatting(input: &str) -> (out: String)
    ensures
        out@ == stripped(input@),
{
    let chars: Vec<char> = to_chars(input);
    let mut out = String::new();
    let mut i: usize = 0;
    proof {
        assert(chars@.skip(0) =~= chars@);
        assert(out@ + stripped(chars@) =~= stripped(chars@));
    }
    while i < chars.len()
        invariant
            i <= chars@.len(),
            chars@ == input@,
            out@ + stripped(chars@.skip(i as int)) == stripped(chars@),
        decreases chars@.len() - i,
    {
        let ghost rest = chars@.skip(i as int);
        if chars[i] == SECTION {
            if chars.len() - i == 1 {
                assert(rest[0] == SECTION);
                assert(stripped(rest) =~= Seq::<char>::empty());
                assert(out@ + stripped(rest) =~= out@);
                return out;
            }
            assert(rest.skip(2) =~= chars@.skip(i + 2));
            i = i + 2;
        } else {
            let ghost before = out@;
            out.push(chars[i]);
            proof {
                assert(rest.skip(1) =~= chars@.skip(i + 1));
                assert(out@ + stripped(rest.skip(1)) =~= before + stripped(rest));
            }
            i = i + 1;
        }
    }
    proof {
        assert(chars@.skip(i as int) =~= Seq::<char>::empty());
        assert(out@ + stripped(Seq::<char>::empty()) =~= out@);
    }
    out
}

/// Whether configured text looks like a JSON component rather than plain text.
pub open spec fn looks_like_json(text: Seq<char>) -> bool {
    let trimmed = trim_start(text);
    trimmed.len() > 0 && (trimmed[0] == '{' || trimmed[0] == '[')
}

/// The component for configured text, given what the text spells as JSON.
pub open spec fn component_value(text: Seq<char>, document: Option<JsonValue>) -> JsonValue {
    match document {
        Some(value) => value,
        None => JsonValue::Object(seq![("text"@, JsonValue::Text(translated(text)))]),
    }
}

/// The JSON document that configured text spells, if it looks like one.
pub open spec fn pasted_json(text: Seq<char>) -> Option<JsonValue> {
    if looks_like_json(text) {
        parsed(trim_start(text))
    } else {
        None
    }
}

/// The component for `text`, given the document that it spells as JSON, if any.
pub fn component_from(text: &str, document: Option<Json>) -> (component: Json)
    ensures
        component.value() == match document {
            Some(json) => component_value(text@, Some(json.value())),
            None => component_value(text@, None),
        },
{
    match document {
        Some(json) => json,
        None => {
            let mut entries: Vec<(String, Json)> = Vec::new();
            let text_json = Json::Text(translate_colors(text));
            assert(text_json.value() == JsonValue::Text(translated(text@)));
            entries.push(("text".to_owned(), text_json));
            let json = Json::Object(entries);
            assert(json.value()->Object_0 =~= seq![("text"@, JsonValue::Text(translated(text@)))]);
            json
        },
    }
}

/// Builds a chat component from configured text.
///
/// A value that already looks like JSON is passed through untouched, so anyone
/// who wants full component control (hover events, gradients rendered by a
/// generator) can paste raw JSON into the config.
pub fn component(text: &str) -> (component: Json)
    ensures
        component.value() == component_value(text@, pasted_json(text@)),
{
    let chars: Vec<char> = to_chars(text);
    let trimmed = trim_start_chars(chars.as_slice());
    let document = if trimmed.len() > 0 && (trimmed[0] == '{' || trimmed[0] == '[') {
        parse_json(from_chars(trimmed).as_str())
    } else {
        None
    };
    component_from(text, document)
}

/// The text of a component and of all that hangs below it.
pub open spec fn plain(value: JsonValue) -> Seq<char>
    decreases value, 0nat,
{
    match value {
        JsonValue::Text(text) => text,
        JsonValue::Array(items) => plain_list(items, items.len()),
        JsonValue::Object(entries) => {
            let text = match value.member("text"@) {
                Some(JsonValue::Text(text)) => text,
                _ => Seq::empty(),
            };
            let at = crate::json::entry_index(entries, "extra"@) as int;
            let extra = if at < entries.len() {
                match entries[at].1 {
                    JsonValue::Array(items) => plain_list(items, items.len()),
                    _ => Seq::empty(),
                }
            } else {
                Seq::empty()
            };
            text + extra
        },
        _ => Seq::empty(),
    }
}

/// The texts of the first `n` components of a list, one after the other.
pub open spec fn plain_list(items: Seq<JsonValue>, n: nat) -> Seq<char>
    decreases items, n,
{
    if n == 0 || n > items.len() {
        Seq::empty()
    } else {
        plain_list(items, (n - 1) as nat) + plain(items[n - 1])
    }
}

/// Appends the texts of a list of components.
fn push_plain_list(out: &mut String, items: &Vec<Json>)
    ensures
        final(out)@ == old(out)@ + plain_list(
            Json::Array(*items).value()->Array_0,
            items@.len(),
        ),
    decreases *items,
{
    let ghost values = Json::Array(*items).value()->Array_0;
    let mut i: usize = 0;
    assert(out@ =~= out@ + plain_list(values, 0));
    while i < items.len()
        invariant
            i <= items@.len(),
            values == Json::Array(*items).value()->Array_0,
            out@ == old(out)@ + plain_list(values, i as nat),
        decreases items@.len() - i,
    {
        let text = component_to_plain(&items[i]);
        let ghost before = out@;
        out.append(text.as_str());
        i = i + 1;
        assert(values[i - 1] == items@[i - 1].value());
        assert(out@ =~= old(out)@ + plain_list(values, i as nat));
    }
}

/// Flattens a chat component back to plain text (legacy ping has no JSON).
pub fn component_to_plain(value: &Json) -> (text: String)
    ensures
        text@ == plain(value.value()),
    decreases value,
{
    match value {
        Json::Text(text) => text.clone(),
        Json::Array(items) => {
            let mut out = String::new();
            push_plain_list(&mut out, items);
            assert(out@ =~= plain(value.value()));
            out
        },
        Json::Object(_) => {
            let mut out = String::new();
            if let Some(Json::Text(text)) = value.get("text") {
                out.append(text.as_str());
            }
            let ghost own = out@;
            if let Some(Json::Array(extra)) = value.get("extra") {
                push_plain_list(&mut out, extra);
            }
            assert(out@ =~= plain(value.value()));
            out
        },
        _ => String::new(),
    }
}

// -------------------------------------------------------------------- laws --

/// `s` with every ampersand doubled.
pub open spec fn escaped(s: Seq<char>) -> Seq<char>
    decreases s.len(),
{
    if s.len() == 0 {
        Seq::empty()
    } else if s[0] == '&' {
        seq!['&', '&'] + escaped(s.skip(1))
    } else {
        seq![s[0]] + escaped(s.skip(1))
    }
}

/// Doubling the ampersands of any text protects it from translation.
pub proof fn doubled_ampersands_are_literal(s: Seq<char>)
    ensures
        translated(escaped(s)) == s,
    decreases s.len(),
{
    let e = escaped(s);
    if s.len() > 0 {
        doubled_ampersands_are_literal(s.skip(1));
        if s[0] == '&' {
            assert(e.skip(2) =~= escaped(s.skip(1)));
        } else {
            assert(e.skip(1) =~= escaped(s.skip(1)));
        }
        assert(translated(e) =~= s);
    } else {
        assert(translated(e) =~= s);
    }
}

/// Text without an ampersand is not changed.
pub proof fn text_without_codes_is_kept(s: Seq<char>)
    requires
        !s.contains('&'),
    ensures
        translated(s) == s,
    decreases s.len(),
{
    if s.len() > 0 {
        assert(s.contains(s[0]));
        assert forall|c: char| s.skip(1).contains(c) implies s.contains(c) by {
            let i = choose|i: int| 0 <= i < s.skip(1).len() && s.skip(1)[i] == c;
            assert(s[i + 1] == c);
        }
        text_without_codes_is_kept(s.skip(1));
    }
    assert(translated(s) =~= s);
}

/// Stripped text holds no section sign, so stripping it again changes nothing.
pub proof fn stripping_is_final(s: Seq<char>)
    ensures
        !stripped(s).contains(SECTION),
        stripped(stripped(s)) == stripped(s),
    decreases s.len(),
{
    if s.len() > 0 && s[0] != SECTION {
        let rest = stripped(s.skip(1));
        stripping_is_final(s.skip(1));
        assert(stripped(s).skip(1) =~= rest);
        if stripped(s).contains(SECTION) {
            let i = choose|i: int| 0 <= i < stripped(s).len() && stripped(s)[i] == SECTION;
            assert(rest[i - 1] == SECTION);
        }
        assert(stripped(stripped(s)) =~= stripped(s));
    } else if s.len() > 1 {
        stripping_is_final(s.skip(2));
    }
}

/// Text without a section sign has no formatting to strip.
pub proof fn unformatted_text_is_kept(s: Seq<char>)
    requires
        !s.contains(SECTION),
    ensures
        stripped(s) == s,
    decreases s.len(),
{
    if s.len() > 0 {
        assert(s.contains(s[0]));
        assert forall|c: char| s.skip(1).contains(c) implies s.contains(c) by {
            let i = choose|i: int| 0 <= i < s.skip(1).len() && s.skip(1)[i] == c;
            assert(s[i + 1] == c);
        }
        unformatted_text_is_kept(s.skip(1));
    }
    assert(stripped(s) =~= s);
}

/// Codes in front of a text disappear with the stripping.
pub proof fn lemma_codes_strip(codes: Seq<char>, rest: Seq<char>)
    ensures
        stripped(sectioned(codes) + rest) == stripped(rest),
    decreases codes.len(),
{
    if codes.len() > 0 {
        let pair = seq![SECTION, codes.last()];
        lemma_codes_strip(codes.drop_last(), pair + rest);
        assert(sectioned(codes) + rest =~= sectioned(codes.drop_last()) + (pair + rest));
        assert((pair + rest).skip(2) =~= rest);
    } else {
        assert(sectioned(codes) + rest =~= rest);
    }
}

/// Unformatted text in front stays in front.
pub proof fn lemma_text_strip(text: Seq<char>, rest: Seq<char>)
    requires
        !text.contains(SECTION),
    ensures
        stripped(text + rest) == text + stripped(rest),
    decreases text.len(),
{
    if text.len() > 0 {
        assert(text.contains(text[0]));
        assert forall|c: char| text.skip(1).contains(c) implies text.contains(c) by {
            let i = choose|i: int| 0 <= i < text.skip(1).len() && text.skip(1)[i] == c;
            assert(text[i + 1] == c);
        }
        lemma_text_strip(text.skip(1), rest);
        assert((text + rest).skip(1) =~= text.skip(1) + rest);
        assert(stripped(text + rest) =~= text + stripped(rest));
    } else {
        assert(text + rest =~= rest);
        assert(text + stripped(rest) =~= stripped(rest));
    }
}

/// The codes are exactly the listed characters.
pub proof fn lemma_listed_codes(c: char)
    ensures
        is_code(c) == "0123456789abcdefklmnorABCDEFKLMNOR"@.contains(c),
        is_hex(c) == "0123456789abcdefABCDEF"@.contains(c),
{
    reveal_strlit("0123456789abcdefklmnorABCDEFKLMNOR");
    reveal_strlit("0123456789abcdefABCDEF");
    let codes = "0123456789abcdefklmnorABCDEFKLMNOR"@;
    let digits = "0123456789abcdefABCDEF"@;
    assert(codes =~= seq![
        '0', '1', '2', '3', '4', '5', '6', '7', '8', '9', 'a', 'b', 'c', 'd', 'e', 'f',
        'k', 'l', 'm', 'n', 'o', 'r', 'A', 'B', 'C', 'D', 'E', 'F', 'K', 'L', 'M', 'N',
        'O', 'R',
    ]);
    assert(digits =~= seq![
        '0', '1', '2', '3', '4', '5', '6', '7', '8', '9', 'a', 'b', 'c', 'd', 'e', 'f',
        'A', 'B', 'C', 'D', 'E', 'F',
    ]);
    lemma_listed(codes, c);
    lemma_listed(digits, c);
}

/// A character is in a text where it is one of its characters.
proof fn lemma_listed(list: Seq<char>, c: char)
    ensures
        list.contains(c) == (exists|i: int| 0 <= i < list.len() && list[i] == c),
{
}

/// Each of the codes `0` to `9`, `a` to `f`, `k` to `o` and `r`, in either case,
/// takes a section sign for the ampersand in front of it, and the rest of the
/// text is translated by itself. Behind any other character, but for the two
/// that begin an escape and a hex colour, the ampersand is text.
pub proof fn listed_codes_are_translated(c: char, rest: Seq<char>)
    ensures
        "0123456789abcdefklmnorABCDEFKLMNOR"@.contains(c) ==> translated(seq!['&', c] + rest)
            == seq!['\u{00a7}', c] + translated(rest),
        !"0123456789abcdefklmnorABCDEFKLMNOR"@.contains(c) && c != '&' && c != '#' ==> translated(
            seq!['&', c] + rest,
        ) == seq!['&', c] + translated(rest),
{
    lemma_listed_codes(c);
    lemma_listed_codes('&');
    lemma_listed_codes('#');
    let s = seq!['&', c] + rest;
    assert(s.skip(2) =~= rest);
    assert(s.skip(1) =~= seq![c] + rest);
    assert((seq![c] + rest).skip(1) =~= rest);
    assert(translated(seq![c] + rest) == seq![c] + translated(rest) || c == '&');
    if !is_code(c) && c != '&' && c != '#' {
        assert(translated(s) =~= seq!['&', c] + translated(rest));
    }
}

/// An ampersand with six hexadecimal digits behind a `#` is a hex colour: an `x`
/// and the six digits, each with its section sign. With anything else behind it
/// the ampersand is text, and so is the `#`.
pub proof fn hex_colours_are_translated(digits: Seq<char>, rest: Seq<char>)
    requires
        digits.len() == 6,
    ensures
        (forall|i: int|
            0 <= i < 6 ==> "0123456789abcdefABCDEF"@.contains(#[trigger] digits[i])) ==> translated(
            seq!['&', '#'] + digits + rest,
        ) == seq![
            '\u{00a7}', 'x', '\u{00a7}', digits[0], '\u{00a7}', digits[1], '\u{00a7}', digits[2],
            '\u{00a7}', digits[3], '\u{00a7}', digits[4], '\u{00a7}', digits[5],
        ] + translated(rest),
        (exists|i: int|
            0 <= i < 6 && !"0123456789abcdefABCDEF"@.contains(#[trigger] digits[i])) ==> translated(
            seq!['&', '#'] + digits + rest,
        ) == seq!['&', '#'] + translated(digits + rest),
{
    let s = seq!['&', '#'] + digits + rest;
    assert forall|i: int| 0 <= i < 6 implies is_hex(#[trigger] digits[i])
        == "0123456789abcdefABCDEF"@.contains(digits[i]) by {
        lemma_listed_codes(digits[i]);
    }
    assert(s.subrange(2, 8) =~= digits);
    assert(s.skip(8) =~= rest);
    assert forall|i: int| 1 <= i < 7 implies #[trigger] s.skip(1)[i] == digits[i - 1] by {}
    if forall|i: int| 0 <= i < 6 ==> is_hex(#[trigger] digits[i]) {
        assert(starts_with_hex_color(s.skip(1)));
        lemma_sectioned_six(digits);
        assert(translated(s) =~= seq!['\u{00a7}', 'x'] + sectioned(digits) + translated(rest));
        assert(translated(s) =~= seq![
            '\u{00a7}', 'x', '\u{00a7}', digits[0], '\u{00a7}', digits[1], '\u{00a7}', digits[2],
            '\u{00a7}', digits[3], '\u{00a7}', digits[4], '\u{00a7}', digits[5],
        ] + translated(rest));
    } else {
        let i = choose|i: int| 0 <= i < 6 && !is_hex(#[trigger] digits[i]);
        assert(s.skip(1)[i + 1] == digits[i]);
        assert(!starts_with_hex_color(s.skip(1)));
        lemma_listed_codes('#');
        assert(s.skip(1) =~= seq!['#'] + (digits + rest));
        assert((seq!['#'] + (digits + rest)).skip(1) =~= digits + rest);
        assert(translated(s.skip(1)) == seq!['#'] + translated(digits + rest));
        assert(translated(s) =~= seq!['&', '#'] + translated(digits + rest));
    }
}

proof fn lemma_sectioned_six(digits: Seq<char>)
    requires
        digits.len() == 6,
    ensures
        sectioned(digits) == seq![
            '\u{00a7}', digits[0], '\u{00a7}', digits[1], '\u{00a7}', digits[2], '\u{00a7}',
            digits[3], '\u{00a7}', digits[4], '\u{00a7}', digits[5],
        ],
{
    reveal_with_fuel(sectioned, 7);
    assert(sectioned(digits) =~= seq![
        '\u{00a7}', digits[0], '\u{00a7}', digits[1], '\u{00a7}', digits[2], '\u{00a7}', digits[3],
        '\u{00a7}', digits[4], '\u{00a7}', digits[5],
    ]);
}

/// A hex colour that is cut short is text.
pub proof fn short_hex_colours_are_text(rest: Seq<char>)
    requires
        rest.len() < 6,
    ensures
        translated(seq!['&', '#'] + rest) == seq!['&', '#'] + translated(rest),
{
    let s = seq!['&', '#'] + rest;
    lemma_listed_codes('#');
    assert(s.skip(1) =~= seq!['#'] + rest);
    assert((seq!['#'] + rest).skip(1) =~= rest);
    assert(translated(s.skip(1)) == seq!['#'] + translated(rest));
    assert(translated(s) =~= seq!['&', '#'] + translated(rest));
}

/// Two ampersands are one, an ampersand at the end is text, and so is every
/// other character; what follows is translated by itself.
pub proof fn other_text_is_translated_one_by_one(c: char, rest: Seq<char>)
    ensures
        translated(Seq::empty()) == Seq::<char>::empty(),
        translated(seq!['&']) == seq!['&'],
        translated(seq!['&', '&'] + rest) == seq!['&'] + translated(rest),
        c != '&' ==> translated(seq![c] + rest) == seq![c] + translated(rest),
{
    let none = Seq::<char>::empty();
    let sign = seq!['&'];
    assert(sign.skip(1) =~= none);
    assert(translated(none) =~= none);
    assert(translated(sign) == seq!['&'] + translated(none));
    assert(translated(sign) =~= seq!['&']);
    assert((seq!['&', '&'] + rest).skip(2) =~= rest);
    assert((seq![c] + rest).skip(1) =~= rest);
}

/// A section sign takes the character behind it away, whatever that is; every
/// other character stays.
pub proof fn stripping_goes_one_by_one(c: char, rest: Seq<char>)
    ensures
        stripped(Seq::empty()) == Seq::<char>::empty(),
        stripped(seq!['\u{00a7}']) == Seq::<char>::empty(),
        stripped(seq!['\u{00a7}', c] + rest) == stripped(rest),
        c != '\u{00a7}' ==> stripped(seq![c] + rest) == seq![c] + stripped(rest),
{
    assert((seq!['\u{00a7}', c] + rest).skip(2) =~= rest);
    assert((seq![c] + rest).skip(1) =~= rest);
}

/// Configured text that begins, behind white space, with a brace or a bracket
/// and spells a JSON document is that document. Everything else is text with
/// its codes translated.
pub proof fn pasted_json_is_passed_on(space: Seq<char>, c: char, rest: Seq<char>)
    requires
        forall|i: int| 0 <= i < space.len() ==> is_space(#[trigger] space[i]),
        !is_space(c),
    ensures
        ({
            let text = space + seq![c] + rest;
            let component = component_value(text, pasted_json(text));
            let translation = JsonValue::Object(seq![("text"@, JsonValue::Text(translated(text)))]);
            if c == '{' || c == '[' {
                match parsed(seq![c] + rest) {
                    Some(document) => component == document,
                    None => component == translation,
                }
            } else {
                component == translation
            }
        }),
{
    lemma_leading_space(space, seq![c] + rest);
    assert(space + seq![c] + rest =~= space + (seq![c] + rest));
    assert(trim_start(seq![c] + rest) == seq![c] + rest);
}

proof fn lemma_leading_space(space: Seq<char>, rest: Seq<char>)
    requires
        forall|i: int| 0 <= i < space.len() ==> is_space(#[trigger] space[i]),
    ensures
        trim_start(space + rest) == trim_start(rest),
    decreases space.len(),
{
    if space.len() > 0 {
        let s = space + rest;
        assert(s[0] == space[0]);
        assert forall|i: int| 0 <= i < space.skip(1).len() implies is_space(
            #[trigger] space.skip(1)[i],
        ) by {
            assert(space.skip(1)[i] == space[i + 1]);
        }
        lemma_leading_space(space.skip(1), rest);
        assert(s.skip(1) =~= space.skip(1) + rest);
        assert(s.drop_first() =~= space.skip(1) + rest);
    } else {
        assert(space + rest =~= rest);
    }
}

/// The plain text of a component: a text is itself, a list is its items one
/// after the other, an object is its own text and then its `extra`, and nothing
/// else has a text.
pub proof fn plain_text_is_read_in_order(
    text: Seq<char>,
    items: Seq<JsonValue>,
    more: Seq<JsonValue>,
    b: bool,
)
    ensures
        plain(JsonValue::Text(text)) == text,
        plain(JsonValue::Array(items + more)) == plain(JsonValue::Array(items)) + plain(
            JsonValue::Array(more),
        ),
        items.len() == 1 ==> plain(JsonValue::Array(items)) == plain(items[0]),
        plain(
            JsonValue::Object(
                seq![("text"@, JsonValue::Text(text)), ("extra"@, JsonValue::Array(items))],
            ),
        ) == text + plain(JsonValue::Array(items)),
        plain(JsonValue::Object(seq![("extra"@, JsonValue::Array(items))])) == plain(
            JsonValue::Array(items),
        ),
        plain(JsonValue::Object(seq![("text"@, JsonValue::Text(text))])) == text,
        plain(JsonValue::Null) == Seq::<char>::empty(),
        plain(JsonValue::Bool(b)) == Seq::<char>::empty(),
{
    let none = Seq::<char>::empty();
    reveal_strlit("text");
    reveal_strlit("extra");
    assert("text"@.len() != "extra"@.len());
    lemma_plain_list(items, more, more.len());
    assert((items + more).len() == items.len() + more.len());
    if items.len() == 1 {
        reveal_with_fuel(plain_list, 2);
        assert(plain_list(items, 1) =~= plain(items[0]));
    }
    let both = seq![("text"@, JsonValue::Text(text)), ("extra"@, JsonValue::Array(items))];
    crate::json::lemma_entry_index_is(both, "text"@, 0);
    crate::json::lemma_entry_index_is(both, "extra"@, 1);
    let extra = seq![("extra"@, JsonValue::Array(items))];
    crate::json::lemma_entry_index_is(extra, "text"@, 1);
    crate::json::lemma_entry_index_is(extra, "extra"@, 0);
    assert(none + plain_list(items, items.len()) =~= plain_list(items, items.len()));
    let own = seq![("text"@, JsonValue::Text(text))];
    crate::json::lemma_entry_index_is(own, "text"@, 0);
    crate::json::lemma_entry_index_is(own, "extra"@, 1);
    assert(text + none =~= text);
}

proof fn lemma_plain_list(items: Seq<JsonValue>, more: Seq<JsonValue>, n: nat)
    requires
        n <= more.len(),
    ensures
        plain_list(items + more, items.len() + n) == plain_list(items, items.len()) + plain_list(
            more,
            n,
        ),
    decreases n,
{
    let all = items + more;
    if n > 0 {
        lemma_plain_list(items, more, (n - 1) as nat);
        assert(all[items.len() + n - 1] == more[n - 1]);
        assert(plain_list(all, items.len() + n) =~= plain_list(items, items.len()) + plain_list(
            more,
            n,
        ));
    } else {
        lemma_plain_prefix(items, more, items.len());
        assert(plain_list(items, items.len()) + plain_list(more, 0) =~= plain_list(
            items,
            items.len(),
        ));
    }
}

proof fn lemma_plain_prefix(items: Seq<JsonValue>, more: Seq<JsonValue>, n: nat)
    requires
        n <= items.len(),
    ensures
        plain_list(items + more, n) == plain_list(items, n),
    decreases n,
{
    if n > 0 {
        lemma_plain_prefix(items, more, (n - 1) as nat);
        assert((items + more)[n - 1] == items[n - 1]);
    }
}

} // verus!
