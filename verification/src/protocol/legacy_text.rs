//! Chat components as legacy `§`-coded text.

use vstd::prelude::*;
use vstd::string::StringExecFns;

use crate::json::{entry_index, Json, JsonValue};
use crate::protocol::chat::{
    all_hex, is_hex, lemma_codes_strip, lemma_listed_codes, lemma_text_strip, push_sectioned,
    sectioned, starts_with_hex_color, stripped, SECTION,
};
use crate::text::{copy_chars, same_chars, same_text, sub_chars, to_chars};

verus! {

/// The formatting state a component carries, after inheritance.
#[derive(Debug)]
pub struct Style {
    /// The colour's code characters: `a`, or `x00aaff` for hex.
    pub color: Option<Vec<char>>,
    pub bold: bool,
    pub italic: bool,
    pub underlined: bool,
    pub strikethrough: bool,
    pub obfuscated: bool,
}

/// A style as a value.
pub ghost struct StyleValue {
    pub color: Option<Seq<char>>,
    pub bold: bool,
    pub italic: bool,
    pub underlined: bool,
    pub strikethrough: bool,
    pub obfuscated: bool,
}

/// No colour and no format.
pub open spec fn default_style() -> StyleValue {
    StyleValue {
        color: None,
        bold: false,
        italic: false,
        underlined: false,
        strikethrough: false,
        obfuscated: false,
    }
}

/// The code characters of a named colour, or of the 1.16+ hex form.
pub open spec fn color_codes(name: Seq<char>) -> Option<Seq<char>> {
    if name.len() == 7 && starts_with_hex_color(name) {
        Some(seq!['x'] + name.skip(1))
    } else if name == "black"@ {
        Some(seq!['0'])
    } else if name == "dark_blue"@ {
        Some(seq!['1'])
    } else if name == "dark_green"@ {
        Some(seq!['2'])
    } else if name == "dark_aqua"@ {
        Some(seq!['3'])
    } else if name == "dark_red"@ {
        Some(seq!['4'])
    } else if name == "dark_purple"@ {
        Some(seq!['5'])
    } else if name == "gold"@ {
        Some(seq!['6'])
    } else if name == "gray"@ || name == "grey"@ {
        Some(seq!['7'])
    } else if name == "dark_gray"@ || name == "dark_grey"@ {
        Some(seq!['8'])
    } else if name == "blue"@ {
        Some(seq!['9'])
    } else if name == "green"@ {
        Some(seq!['a'])
    } else if name == "aqua"@ {
        Some(seq!['b'])
    } else if name == "red"@ {
        Some(seq!['c'])
    } else if name == "light_purple"@ {
        Some(seq!['d'])
    } else if name == "yellow"@ {
        Some(seq!['e'])
    } else if name == "white"@ {
        Some(seq!['f'])
    } else {
        None
    }
}

/// A flag of a component, or what it inherits where it has none.
pub open spec fn flag(value: JsonValue, name: Seq<char>, inherited: bool) -> bool {
    match value.member(name) {
        Some(JsonValue::Bool(b)) => b,
        _ => inherited,
    }
}

impl StyleValue {
    /// A component's own fields on top of what it inherits.
    pub open spec fn inherit(self, object: JsonValue) -> StyleValue {
        let own_color = match object.member("color"@) {
            Some(JsonValue::Text(name)) => color_codes(name),
            _ => None,
        };
        StyleValue {
            color: if own_color is Some {
                own_color
            } else {
                self.color
            },
            bold: flag(object, "bold"@, self.bold),
            italic: flag(object, "italic"@, self.italic),
            underlined: flag(object, "underlined"@, self.underlined),
            strikethrough: flag(object, "strikethrough"@, self.strikethrough),
            obfuscated: flag(object, "obfuscated"@, self.obfuscated),
        }
    }

    /// The code characters that switch to this style: a reset, the colour and
    /// the formats.
    pub open spec fn codes(self) -> Seq<char> {
        let color = match self.color {
            Some(color) => color,
            None => Seq::empty(),
        };
        seq!['r'] + color + one_if(self.bold, 'l') + one_if(self.italic, 'o') + one_if(
            self.underlined,
            'n',
        ) + one_if(self.strikethrough, 'm') + one_if(self.obfuscated, 'k')
    }
}

/// The character where `present` holds, else nothing.
pub open spec fn one_if(present: bool, c: char) -> Seq<char> {
    if present {
        seq![c]
    } else {
        Seq::empty()
    }
}

/// What has been written so far, and the style it was last written in.
pub ghost struct Written {
    pub out: Seq<char>,
    pub style: Option<StyleValue>,
}

/// `text` written in `style` behind what is there. Codes are written only where
/// the style changes, and not for plain text at the very start.
pub open spec fn text_written(text: Seq<char>, style: StyleValue, before: Written) -> Written {
    if text.len() == 0 {
        before
    } else {
        let unchanged = before.style == Some(style);
        let default_start = before.style is None && style == default_style();
        let codes = if unchanged || default_start {
            Seq::empty()
        } else {
            sectioned(style.codes())
        };
        Written { out: before.out + codes + text, style: Some(style) }
    }
}

/// The style for the items of a list behind the first: the first one styles
/// the rest.
pub open spec fn list_style(items: Seq<JsonValue>, inherited: StyleValue) -> StyleValue {
    if items.len() > 0 && items[0] is Object {
        inherited.inherit(items[0])
    } else {
        inherited
    }
}

/// A component, with what it inherits, written behind what is there.
pub open spec fn written(value: JsonValue, inherited: StyleValue, before: Written) -> Written
    decreases value, 0nat,
{
    match value {
        JsonValue::Text(text) => text_written(text, inherited, before),
        JsonValue::Array(items) => list_written(
            items,
            items.len(),
            inherited,
            list_style(items, inherited),
            before,
        ),
        JsonValue::Object(entries) => {
            let style = inherited.inherit(value);
            let own = match value.member("text"@) {
                Some(JsonValue::Text(text)) => text_written(text, style, before),
                _ => before,
            };
            let with = entry_index(entries, "with"@) as int;
            let args = if with < entries.len() {
                match entries[with].1 {
                    JsonValue::Array(items) => list_written(items, items.len(), style, style, own),
                    _ => own,
                }
            } else {
                own
            };
            let extra = entry_index(entries, "extra"@) as int;
            if extra < entries.len() {
                match entries[extra].1 {
                    JsonValue::Array(items) => list_written(items, items.len(), style, style, args),
                    _ => args,
                }
            } else {
                args
            }
        },
        _ => before,
    }
}

/// The first `n` components of a list written one after the other.
pub open spec fn list_written(
    items: Seq<JsonValue>,
    n: nat,
    first: StyleValue,
    rest: StyleValue,
    before: Written,
) -> Written
    decreases items, n,
{
    if n == 0 || n > items.len() {
        before
    } else {
        let style = if n == 1 {
            first
        } else {
            rest
        };
        written(items[n - 1], style, list_written(items, (n - 1) as nat, first, rest, before))
    }
}

/// A component as legacy text.
pub open spec fn legacy_text(value: JsonValue) -> Seq<char> {
    written(value, default_style(), Written { out: Seq::empty(), style: None }).out
}

/// The code characters for a colour's name.
fn color_code(name: &str) -> (codes: Option<Vec<char>>)
    ensures
        match color_codes(name@) {
            Some(value) => codes is Some && codes->Some_0@ == value,
            None => codes is None,
        },
{
    let chars = to_chars(name);
    if chars.len() == 7 && chars[0] == '#' {
        let digits = sub_chars(chars.as_slice(), 1, 7);
        assert(digits@ =~= name@.skip(1));
        if all_hex(digits) {
            assert forall|i: int| 1 <= i < 7 implies is_hex(#[trigger] name@[i]) by {
                assert(name@[i] == digits@[i - 1]);
            }
            let mut codes: Vec<char> = Vec::new();
            codes.push('x');
            let mut i: usize = 1;
            while i < 7
                invariant
                    1 <= i <= 7,
                    chars@ == name@,
                    chars@.len() == 7,
                    codes@ == seq!['x'] + name@.subrange(1, i as int),
                decreases 7 - i,
            {
                codes.push(chars[i]);
                i = i + 1;
                assert(codes@ =~= seq!['x'] + name@.subrange(1, i as int));
            }
            assert(codes@ =~= seq!['x'] + name@.skip(1));
            return Some(codes);
        }
        assert(!starts_with_hex_color(name@)) by {
            let i = choose|i: int| 0 <= i < digits@.len() && !is_hex(#[trigger] digits@[i]);
            assert(!is_hex(name@[i + 1]));
        }
    }
    let code: char = if same_text(name, "black") {
        '0'
    } else if same_text(name, "dark_blue") {
        '1'
    } else if same_text(name, "dark_green") {
        '2'
    } else if same_text(name, "dark_aqua") {
        '3'
    } else if same_text(name, "dark_red") {
        '4'
    } else if same_text(name, "dark_purple") {
        '5'
    } else if same_text(name, "gold") {
        '6'
    } else if same_text(name, "gray") || same_text(name, "grey") {
        '7'
    } else if same_text(name, "dark_gray") || same_text(name, "dark_grey") {
        '8'
    } else if same_text(name, "blue") {
        '9'
    } else if same_text(name, "green") {
        'a'
    } else if same_text(name, "aqua") {
        'b'
    } else if same_text(name, "red") {
        'c'
    } else if same_text(name, "light_purple") {
        'd'
    } else if same_text(name, "yellow") {
        'e'
    } else if same_text(name, "white") {
        'f'
    } else {
        return None;
    };
    let mut codes: Vec<char> = Vec::new();
    codes.push(code);
    assert(codes@ =~= seq![code]);
    Some(codes)
}

/// A flag of a component, or what it inherits where it has none.
fn flag_of(object: &Json, name: &str, inherited: bool) -> (b: bool)
    ensures
        b == flag(object.value(), name@, inherited),
{
    match object.get(name) {
        Some(value) => match value.as_bool() {
            Some(b) => b,
            None => inherited,
        },
        None => inherited,
    }
}

/// Whether two optional colours are the same.
fn same_color(a: &Option<Vec<char>>, b: &Option<Vec<char>>) -> (same: bool)
    ensures
        same == match (*a, *b) {
            (Some(a), Some(b)) => a@ == b@,
            (None, None) => true,
            _ => false,
        },
{
    match (a, b) {
        (Some(a), Some(b)) => same_chars(a.as_slice(), b.as_slice()),
        (None, None) => true,
        _ => false,
    }
}

impl View for Style {
    type V = StyleValue;

    open spec fn view(&self) -> StyleValue {
        StyleValue {
            color: match self.color {
                Some(color) => Some(color@),
                None => None,
            },
            bold: self.bold,
            italic: self.italic,
            underlined: self.underlined,
            strikethrough: self.strikethrough,
            obfuscated: self.obfuscated,
        }
    }
}

impl Default for Style {
    fn default() -> (style: Self)
        ensures
            style@ == default_style(),
    {
        Style {
            color: None,
            bold: false,
            italic: false,
            underlined: false,
            strikethrough: false,
            obfuscated: false,
        }
    }
}

impl Style {
    /// The same style once more.
    fn copy(&self) -> (style: Style)
        ensures
            style@ == self@,
    {
        let color = match &self.color {
            Some(color) => Some(copy_chars(color.as_slice())),
            None => None,
        };
        Style {
            color,
            bold: self.bold,
            italic: self.italic,
            underlined: self.underlined,
            strikethrough: self.strikethrough,
            obfuscated: self.obfuscated,
        }
    }

    /// Whether this is the same style.
    fn same(&self, other: &Style) -> (same: bool)
        ensures
            same == (self@ == other@),
    {
        same_color(&self.color, &other.color) && self.bold == other.bold && self.italic
            == other.italic && self.underlined == other.underlined && self.strikethrough
            == other.strikethrough && self.obfuscated == other.obfuscated
    }

    /// Applies a component's own fields on top of what it inherited.
    fn inherit(&self, object: &Json) -> (style: Style)
        ensures
            style@ == self@.inherit(object.value()),
    {
        let own_color = match object.get("color") {
            Some(Json::Text(name)) => color_code(name.as_str()),
            _ => None,
        };
        let color = match own_color {
            Some(color) => Some(color),
            None => match &self.color {
                Some(color) => Some(copy_chars(color.as_slice())),
                None => None,
            },
        };
        Style {
            color,
            bold: flag_of(object, "bold", self.bold),
            italic: flag_of(object, "italic", self.italic),
            underlined: flag_of(object, "underlined", self.underlined),
            strikethrough: flag_of(object, "strikethrough", self.strikethrough),
            obfuscated: flag_of(object, "obfuscated", self.obfuscated),
        }
    }

    /// Appends the codes that switch to this style. The reset comes first,
    /// because legacy codes are stateful: without it the previous segment's
    /// bold would bleed into this one.
    fn write_codes(&self, out: &mut String)
        ensures
            final(out)@ == old(out)@ + sectioned(self@.codes()),
    {
        let mut codes: Vec<char> = Vec::new();
        codes.push('r');
        if let Some(color) = &self.color {
            codes.extend_from_slice(color.as_slice());
            assert(codes@ =~= seq!['r'] + color@);
        }
        if self.bold {
            codes.push('l');
        }
        if self.italic {
            codes.push('o');
        }
        if self.underlined {
            codes.push('n');
        }
        if self.strikethrough {
            codes.push('m');
        }
        if self.obfuscated {
            codes.push('k');
        }
        assert(codes@ =~= self@.codes());
        push_sectioned(out, codes.as_slice());
    }
}

/// The style that was last written, as a value.
pub open spec fn emitted_style(emitted: Option<Style>) -> Option<StyleValue> {
    match emitted {
        Some(style) => Some(style@),
        None => None,
    }
}

/// Appends `text` in `style`.
fn push_text(text: &str, style: &Style, out: &mut String, emitted: &mut Option<Style>)
    ensures
        (Written { out: final(out)@, style: emitted_style(*final(emitted)) }) == text_written(
            text@,
            style@,
            Written { out: old(out)@, style: emitted_style(*old(emitted)) },
        ),
{
    if text.is_empty() {
        return;
    }
    let unchanged: bool = match emitted {
        Some(last) => last.same(style),
        None => false,
    };
    let default_start: bool = emitted.is_none() && style.same(&Style::default());
    if !unchanged && !default_start {
        style.write_codes(out);
    } else {
        assert(out@ =~= old(out)@ + Seq::<char>::empty());
    }
    *emitted = Some(style.copy());
    out.append(text);
}

/// Appends a list of components.
fn walk_list(
    items: &Vec<Json>,
    first: &Style,
    rest: &Style,
    out: &mut String,
    emitted: &mut Option<Style>,
)
    ensures
        (Written { out: final(out)@, style: emitted_style(*final(emitted)) }) == list_written(
            Json::Array(*items).value()->Array_0,
            items@.len(),
            first@,
            rest@,
            Written { out: old(out)@, style: emitted_style(*old(emitted)) },
        ),
    decreases *items,
{
    let ghost values = Json::Array(*items).value()->Array_0;
    let ghost start = Written { out: out@, style: emitted_style(*emitted) };
    let mut i: usize = 0;
    while i < items.len()
        invariant
            i <= items@.len(),
            values == Json::Array(*items).value()->Array_0,
            (Written { out: out@, style: emitted_style(*emitted) }) == list_written(
                values,
                i as nat,
                first@,
                rest@,
                start,
            ),
        decreases items@.len() - i,
    {
        assert(values[i as int] == items@[i as int].value());
        if i == 0 {
            walk(&items[i], first, out, emitted);
        } else {
            walk(&items[i], rest, out, emitted);
        }
        i = i + 1;
    }
}

/// Appends a component and all that hangs below it.
fn walk(value: &Json, inherited: &Style, out: &mut String, emitted: &mut Option<Style>)
    ensures
        (Written { out: final(out)@, style: emitted_style(*final(emitted)) }) == written(
            value.value(),
            inherited@,
            Written { out: old(out)@, style: emitted_style(*old(emitted)) },
        ),
    decreases value,
{
    match value {
        Json::Text(text) => push_text(text.as_str(), inherited, out, emitted),
        Json::Array(items) => {
            // In an array the first element styles the rest.
            let rest = if items.len() > 0 {
                proof {
                    assert(value.value()->Array_0[0] == items@[0].value());
                }
                match &items[0] {
                    Json::Object(_) => inherited.inherit(&items[0]),
                    _ => inherited.copy(),
                }
            } else {
                inherited.copy()
            };
            assert(rest@ == list_style(value.value()->Array_0, inherited@));
            walk_list(items, inherited, &rest, out, emitted);
        },
        Json::Object(_) => {
            let style = inherited.inherit(value);
            if let Some(Json::Text(text)) = value.get("text") {
                push_text(text.as_str(), &style, out, emitted);
            }
            // A translate component without a resolver is better skipped than
            // rendered as its key; the `with` arguments are still real text.
            if let Some(Json::Array(args)) = value.get("with") {
                walk_list(args, &style, &style, out, emitted);
            }
            if let Some(Json::Array(extra)) = value.get("extra") {
                walk_list(extra, &style, &style, out, emitted);
            }
        },
        _ => {},
    }
}

/// Flattens a chat component into a legacy `§`-coded string.
///
/// This is how a backend's MOTD becomes editable: component trees can nest
/// arbitrarily, but a MOTD is really just two lines of coloured text, and a
/// legacy string is a shape that can be split on `\n` and put back together.
/// Every client understands it, including 1.7.
pub fn to_legacy(value: &Json) -> (text: String)
    ensures
        text@ == legacy_text(value.value()),
{
    let mut out = String::new();
    let mut emitted: Option<Style> = None;
    walk(value, &Style::default(), &mut out, &mut emitted);
    out
}

// -------------------------------------------------------------------- laws --

/// All texts of a component in the order in which they are shown.
pub open spec fn shown(value: JsonValue) -> Seq<char>
    decreases value, 0nat,
{
    match value {
        JsonValue::Text(text) => text,
        JsonValue::Array(items) => shown_list(items, items.len()),
        JsonValue::Object(entries) => {
            let own = match value.member("text"@) {
                Some(JsonValue::Text(text)) => text,
                _ => Seq::empty(),
            };
            let with = entry_index(entries, "with"@) as int;
            let args = if with < entries.len() {
                match entries[with].1 {
                    JsonValue::Array(items) => shown_list(items, items.len()),
                    _ => Seq::empty(),
                }
            } else {
                Seq::empty()
            };
            let extra = entry_index(entries, "extra"@) as int;
            let children = if extra < entries.len() {
                match entries[extra].1 {
                    JsonValue::Array(items) => shown_list(items, items.len()),
                    _ => Seq::empty(),
                }
            } else {
                Seq::empty()
            };
            own + args + children
        },
        _ => Seq::empty(),
    }
}

/// The texts of the first `n` components of a list.
pub open spec fn shown_list(items: Seq<JsonValue>, n: nat) -> Seq<char>
    decreases items, n,
{
    if n == 0 || n > items.len() {
        Seq::empty()
    } else {
        shown_list(items, (n - 1) as nat) + shown(items[n - 1])
    }
}

/// `s` ends with no section sign that waits for its code.
pub open spec fn closed_text(s: Seq<char>) -> bool {
    forall|rest: Seq<char>| #[trigger] stripped(s + rest) == stripped(s) + stripped(rest)
}

proof fn lemma_no_section_parts(a: Seq<char>, b: Seq<char>)
    requires
        !(a + b).contains(SECTION),
    ensures
        !a.contains(SECTION),
        !b.contains(SECTION),
{
    if a.contains(SECTION) {
        let i = choose|i: int| 0 <= i < a.len() && a[i] == SECTION;
        assert((a + b)[i] == SECTION);
    }
    if b.contains(SECTION) {
        let i = choose|i: int| 0 <= i < b.len() && b[i] == SECTION;
        assert((a + b)[a.len() + i] == SECTION);
    }
}

proof fn lemma_text_written_strips(text: Seq<char>, style: StyleValue, before: Written)
    requires
        closed_text(before.out),
        !text.contains(SECTION),
    ensures
        closed_text(text_written(text, style, before).out),
        stripped(text_written(text, style, before).out) == stripped(before.out) + text,
{
    let after = text_written(text, style, before);
    if text.len() == 0 {
        assert(stripped(before.out) + text =~= stripped(before.out));
    } else {
        let codes = if after.out == before.out + Seq::<char>::empty() + text {
            Seq::<char>::empty()
        } else {
            style.codes()
        };
        assert(sectioned(Seq::<char>::empty()) =~= Seq::<char>::empty());
        assert(after.out =~= before.out + sectioned(codes) + text);
        assert forall|rest: Seq<char>| #[trigger]
            stripped(after.out + rest) == stripped(before.out) + text + stripped(rest) by {
            assert(after.out + rest =~= before.out + (sectioned(codes) + (text + rest)));
            lemma_codes_strip(codes, text + rest);
            lemma_text_strip(text, rest);
            assert(stripped(before.out) + (text + stripped(rest)) =~= stripped(before.out) + text
                + stripped(rest));
        }
        let none = Seq::<char>::empty();
        assert(after.out + none =~= after.out);
        assert(stripped(none) =~= none);
        assert(stripped(after.out + none) == stripped(before.out) + text + stripped(none));
        assert(stripped(before.out) + text + none =~= stripped(before.out) + text);
    }
}

proof fn lemma_written_strips(value: JsonValue, inherited: StyleValue, before: Written)
    requires
        closed_text(before.out),
        !shown(value).contains(SECTION),
    ensures
        closed_text(written(value, inherited, before).out),
        stripped(written(value, inherited, before).out) == stripped(before.out) + shown(value),
    decreases value, 0nat,
{
    let none = Seq::<char>::empty();
    assert(stripped(before.out) + none =~= stripped(before.out));
    match value {
        JsonValue::Text(text) => {
            lemma_text_written_strips(text, inherited, before);
        },
        JsonValue::Array(items) => {
            lemma_list_strips(items, items.len(), inherited, list_style(items, inherited), before);
        },
        JsonValue::Object(entries) => {
            let style = inherited.inherit(value);
            let own_text = match value.member("text"@) {
                Some(JsonValue::Text(text)) => text,
                _ => none,
            };
            let own = text_written(own_text, style, before);
            let with = entry_index(entries, "with"@) as int;
            let args_items = if with < entries.len() {
                match entries[with].1 {
                    JsonValue::Array(items) => items,
                    _ => Seq::empty(),
                }
            } else {
                Seq::empty()
            };
            let extra = entry_index(entries, "extra"@) as int;
            let extra_items = if extra < entries.len() {
                match entries[extra].1 {
                    JsonValue::Array(items) => items,
                    _ => Seq::empty(),
                }
            } else {
                Seq::empty()
            };
            let args_text = shown_list(args_items, args_items.len());
            let extra_text = shown_list(extra_items, extra_items.len());
            assert(shown(value) =~= own_text + args_text + extra_text);
            lemma_no_section_parts(own_text + args_text, extra_text);
            lemma_no_section_parts(own_text, args_text);
            lemma_text_written_strips(own_text, style, before);
            if with < entries.len() && entries[with].1 is Array {
                lemma_list_strips(args_items, args_items.len(), style, style, own);
            } else {
                assert(stripped(own.out) + args_text =~= stripped(own.out));
            }
            let args = list_written(args_items, args_items.len(), style, style, own);
            if extra < entries.len() && entries[extra].1 is Array {
                lemma_list_strips(extra_items, extra_items.len(), style, style, args);
            } else {
                assert(stripped(args.out) + extra_text =~= stripped(args.out));
            }
            assert(stripped(before.out) + own_text + args_text + extra_text =~= stripped(before.out)
                + shown(value));
        },
        _ => {},
    }
}

proof fn lemma_list_strips(
    items: Seq<JsonValue>,
    n: nat,
    first: StyleValue,
    rest: StyleValue,
    before: Written,
)
    requires
        n <= items.len(),
        closed_text(before.out),
        !shown_list(items, n).contains(SECTION),
    ensures
        closed_text(list_written(items, n, first, rest, before).out),
        stripped(list_written(items, n, first, rest, before).out) == stripped(before.out)
            + shown_list(items, n),
    decreases items, n,
{
    if n == 0 {
        assert(stripped(before.out) + shown_list(items, n) =~= stripped(before.out));
    } else {
        let m = (n - 1) as nat;
        let style = if n == 1 {
            first
        } else {
            rest
        };
        lemma_no_section_parts(shown_list(items, m), shown(items[n - 1]));
        lemma_list_strips(items, m, first, rest, before);
        lemma_written_strips(items[n - 1], style, list_written(items, m, first, rest, before));
        assert(stripped(before.out) + shown_list(items, m) + shown(items[n - 1]) =~= stripped(
            before.out,
        ) + shown_list(items, n));
    }
}

/// Legacy text only adds formatting codes: without them it is the texts of the
/// component, line breaks included, in the order in which they are shown.
pub proof fn legacy_text_keeps_the_words(value: JsonValue)
    requires
        !shown(value).contains(SECTION),
    ensures
        stripped(legacy_text(value)) == shown(value),
{
    let start = Written { out: Seq::empty(), style: None };
    assert forall|rest: Seq<char>| #[trigger]
        stripped(start.out + rest) == stripped(start.out) + stripped(rest) by {
        assert(start.out + rest =~= rest);
        assert(stripped(start.out) + stripped(rest) =~= stripped(rest));
    }
    lemma_written_strips(value, default_style(), start);
    assert(stripped(start.out) + shown(value) =~= shown(value));
}

/// A bare string needs no codes.
pub proof fn bare_text_needs_no_codes(text: Seq<char>)
    ensures
        legacy_text(JsonValue::Text(text)) == text,
{
    assert(Seq::<char>::empty() + Seq::<char>::empty() + text =~= text);
    if text.len() == 0 {
        assert(text =~= Seq::<char>::empty());
    }
}

/// How a client shows a character: the digits of its colour, and the formats.
pub ghost struct Look {
    pub color: Seq<char>,
    pub bold: bool,
    pub italic: bool,
    pub underlined: bool,
    pub strikethrough: bool,
    pub obfuscated: bool,
}

/// How a client shows text before any code.
pub open spec fn plain_look() -> Look {
    Look {
        color: Seq::empty(),
        bold: false,
        italic: false,
        underlined: false,
        strikethrough: false,
        obfuscated: false,
    }
}

/// What a code changes for a client. A reset ends everything, a colour ends the
/// formats, and an `x` is followed by the six digits of a hex colour.
pub open spec fn look_after(look: Look, code: char) -> Look {
    if code == 'r' {
        plain_look()
    } else if code == 'l' {
        Look { bold: true, ..look }
    } else if code == 'o' {
        Look { italic: true, ..look }
    } else if code == 'n' {
        Look { underlined: true, ..look }
    } else if code == 'm' {
        Look { strikethrough: true, ..look }
    } else if code == 'k' {
        Look { obfuscated: true, ..look }
    } else if code == 'x' {
        Look { color: seq!['x'], ..plain_look() }
    } else if "0123456789abcdefABCDEF"@.contains(code) {
        if look.color.len() > 0 && look.color[0] == 'x' && look.color.len() < 7 {
            Look { color: look.color.push(code), ..plain_look() }
        } else {
            Look { color: seq![code], ..plain_look() }
        }
    } else {
        look
    }
}

/// What a client shows of a text with codes: each character and its look.
pub open spec fn reading(s: Seq<char>, look: Look) -> Seq<(char, Look)>
    decreases s.len(),
{
    if s.len() == 0 {
        Seq::empty()
    } else if s[0] == '\u{00a7}' {
        if s.len() > 1 {
            reading(s.skip(2), look_after(look, s[1]))
        } else {
            Seq::empty()
        }
    } else {
        seq![(s[0], look)] + reading(s.skip(1), look)
    }
}

/// The texts of a component in the order in which they are shown, each with the
/// components that style it, the outermost first: the objects that it stands
/// in, and the first of a list for those behind it.
pub open spec fn styled_texts(value: JsonValue, above: Seq<JsonValue>) -> Seq<
    (Seq<char>, Seq<JsonValue>),
>
    decreases value, 0nat,
{
    match value {
        JsonValue::Text(text) => seq![(text, above)],
        JsonValue::Array(items) => styled_list(
            items,
            items.len(),
            above,
            if items.len() > 0 && items[0] is Object {
                above.push(items[0])
            } else {
                above
            },
        ),
        JsonValue::Object(entries) => {
            let chain = above.push(value);
            let own = match value.member("text"@) {
                Some(JsonValue::Text(text)) => seq![(text, chain)],
                _ => Seq::empty(),
            };
            let with = entry_index(entries, "with"@) as int;
            let args = if with < entries.len() {
                match entries[with].1 {
                    JsonValue::Array(items) => styled_list(items, items.len(), chain, chain),
                    _ => Seq::empty(),
                }
            } else {
                Seq::empty()
            };
            let extra = entry_index(entries, "extra"@) as int;
            let children = if extra < entries.len() {
                match entries[extra].1 {
                    JsonValue::Array(items) => styled_list(items, items.len(), chain, chain),
                    _ => Seq::empty(),
                }
            } else {
                Seq::empty()
            };
            own + args + children
        },
        _ => Seq::empty(),
    }
}

/// The texts of the first `n` components of a list with the components that
/// style them.
pub open spec fn styled_list(
    items: Seq<JsonValue>,
    n: nat,
    first: Seq<JsonValue>,
    rest: Seq<JsonValue>,
) -> Seq<(Seq<char>, Seq<JsonValue>)>
    decreases items, n,
{
    if n == 0 || n > items.len() {
        Seq::empty()
    } else {
        styled_list(items, (n - 1) as nat, first, rest) + styled_texts(
            items[n - 1],
            if n == 1 {
                first
            } else {
                rest
            },
        )
    }
}

/// Whether component `k` of a chain is the last that says anything about a flag.
pub open spec fn last_word(chain: Seq<JsonValue>, key: Seq<char>, k: int) -> bool {
    &&& 0 <= k < chain.len()
    &&& chain[k].member(key) is Some
    &&& chain[k].member(key)->Some_0 is Bool
    &&& forall|j: int|
        k < j < chain.len() ==> !((#[trigger] chain[j]).member(key) is Some && chain[j].member(
            key,
        )->Some_0 is Bool)
}

/// Whether a flag holds below a chain of components: the last one that says
/// anything about it says yes.
pub open spec fn in_force(chain: Seq<JsonValue>, key: Seq<char>) -> bool {
    exists|k: int| #[trigger]
        last_word(chain, key, k) && chain[k].member(key) == Some(JsonValue::Bool(true))
}

/// The colour below a chain of components: that of the last one that names one.
pub open spec fn color_in_force(chain: Seq<JsonValue>) -> Seq<char>
    decreases chain.len(),
{
    if chain.len() == 0 {
        Seq::empty()
    } else {
        match chain.last().member("color"@) {
            Some(JsonValue::Text(name)) => match color_codes(name) {
                Some(codes) => codes,
                None => color_in_force(chain.drop_last()),
            },
            _ => color_in_force(chain.drop_last()),
        }
    }
}

/// How a text below a chain of components is to be shown.
pub open spec fn look_below(chain: Seq<JsonValue>) -> Look {
    Look {
        color: color_in_force(chain),
        bold: in_force(chain, "bold"@),
        italic: in_force(chain, "italic"@),
        underlined: in_force(chain, "underlined"@),
        strikethrough: in_force(chain, "strikethrough"@),
        obfuscated: in_force(chain, "obfuscated"@),
    }
}

/// A text with every character shown alike.
pub open spec fn painted(text: Seq<char>, look: Look) -> Seq<(char, Look)> {
    text.map_values(|c: char| (c, look))
}

/// Texts one after the other, each shown as the components above it ask.
pub open spec fn all_painted(texts: Seq<(Seq<char>, Seq<JsonValue>)>) -> Seq<(char, Look)>
    decreases texts.len(),
{
    if texts.len() == 0 {
        Seq::empty()
    } else {
        all_painted(texts.drop_last()) + painted(texts.last().0, look_below(texts.last().1))
    }
}

/// A style as a client shows it.
spec fn look_of(style: StyleValue) -> Look {
    Look {
        color: match style.color {
            Some(color) => color,
            None => Seq::empty(),
        },
        bold: style.bold,
        italic: style.italic,
        underlined: style.underlined,
        strikethrough: style.strikethrough,
        obfuscated: style.obfuscated,
    }
}

spec fn look_written(style: Option<StyleValue>) -> Look {
    match style {
        Some(style) => look_of(style),
        None => plain_look(),
    }
}

/// A colour is one digit, or an `x` and six digits.
spec fn fit_color(style: StyleValue) -> bool {
    match style.color {
        None => true,
        Some(color) => color.len() == 1 && is_hex(color[0]) || color.len() == 7 && color[0] == 'x'
            && forall|i: int| 1 <= i < 7 ==> is_hex(#[trigger] color[i]),
    }
}

/// A style that is what the components above ask for.
spec fn agrees_with(style: StyleValue, chain: Seq<JsonValue>) -> bool {
    fit_color(style) && look_of(style) == look_below(chain) && (style.color is Some ==> style.color
        != Some(Seq::<char>::empty()))
}

spec fn look_codes(look: Look, codes: Seq<char>) -> Look
    decreases codes.len(),
{
    if codes.len() == 0 {
        look
    } else {
        look_after(look_codes(look, codes.drop_last()), codes.last())
    }
}

proof fn lemma_look_codes(look: Look, a: Seq<char>, b: Seq<char>)
    ensures
        look_codes(look, a + b) == look_codes(look_codes(look, a), b),
    decreases b.len(),
{
    if b.len() > 0 {
        lemma_look_codes(look, a, b.drop_last());
        assert((a + b).drop_last() =~= a + b.drop_last());
        assert((a + b).last() == b.last());
    } else {
        assert(a + b =~= a);
    }
}

proof fn lemma_one_code(look: Look, present: bool, c: char)
    ensures
        look_codes(look, one_if(present, c)) == if present {
            look_after(look, c)
        } else {
            look
        },
{
    if present {
        assert(one_if(present, c).drop_last() =~= Seq::<char>::empty());
        assert(look_codes(look, Seq::<char>::empty()) == look);
    }
}

proof fn lemma_color_look(color: Seq<char>)
    requires
        color.len() == 1 && is_hex(color[0]) || color.len() == 7 && color[0] == 'x' && forall|
            i: int,
        |
            1 <= i < 7 ==> is_hex(#[trigger] color[i]),
    ensures
        look_codes(plain_look(), color) == (Look { color, ..plain_look() }),
{
    let none = Seq::<char>::empty();
    lemma_hex_is_listed();
    if color.len() == 1 {
        assert(color.drop_last() =~= none);
        assert(look_codes(plain_look(), none) == plain_look());
        assert(seq![color[0]] =~= color);
    } else {
        lemma_hex_look(color, 7);
        assert(color.take(7) =~= color);
    }
}

proof fn lemma_hex_is_listed()
    ensures
        forall|c: char| is_hex(c) == #[trigger] "0123456789abcdefABCDEF"@.contains(c),
{
    assert forall|c: char| is_hex(c) == #[trigger] "0123456789abcdefABCDEF"@.contains(c) by {
        lemma_listed_codes(c);
    }
}

proof fn lemma_hex_look(color: Seq<char>, n: int)
    requires
        color.len() == 7,
        color[0] == 'x',
        forall|i: int| 1 <= i < 7 ==> is_hex(#[trigger] color[i]),
        1 <= n <= 7,
    ensures
        look_codes(plain_look(), color.take(n)) == (Look { color: color.take(n), ..plain_look() }),
    decreases n,
{
    let none = Seq::<char>::empty();
    lemma_hex_is_listed();
    let codes = color.take(n);
    if n == 1 {
        assert(codes.drop_last() =~= none);
        assert(look_codes(plain_look(), none) == plain_look());
        assert(seq!['x'] =~= codes);
    } else {
        lemma_hex_look(color, n - 1);
        assert(codes.drop_last() =~= color.take(n - 1));
        assert(codes.last() == color[n - 1]);
        assert(is_hex(color[n - 1]));
        assert(color.take(n - 1).push(color[n - 1]) =~= codes);
        assert(color.take(n - 1)[0] == 'x');
    }
}

/// The codes of a style bring a client to that style from any other.
proof fn lemma_codes_look(look: Look, style: StyleValue)
    requires
        fit_color(style),
    ensures
        look_codes(look, style.codes()) == look_of(style),
{
    let none = Seq::<char>::empty();
    let color = match style.color {
        Some(color) => color,
        None => none,
    };
    let c0 = seq!['r'];
    let c1 = c0 + color;
    let c2 = c1 + one_if(style.bold, 'l');
    let c3 = c2 + one_if(style.italic, 'o');
    let c4 = c3 + one_if(style.underlined, 'n');
    let c5 = c4 + one_if(style.strikethrough, 'm');
    assert(c0.drop_last() =~= none);
    assert(look_codes(look, none) == look);
    assert(look_codes(look, c0) == plain_look());
    lemma_look_codes(look, c0, color);
    if style.color is Some {
        lemma_color_look(color);
    } else {
        assert(look_codes(plain_look(), none) == plain_look());
    }
    lemma_look_codes(look, c1, one_if(style.bold, 'l'));
    lemma_look_codes(look, c2, one_if(style.italic, 'o'));
    lemma_look_codes(look, c3, one_if(style.underlined, 'n'));
    lemma_look_codes(look, c4, one_if(style.strikethrough, 'm'));
    lemma_look_codes(look, c5, one_if(style.obfuscated, 'k'));
    lemma_one_code(look_codes(look, c1), style.bold, 'l');
    lemma_one_code(look_codes(look, c2), style.italic, 'o');
    lemma_one_code(look_codes(look, c3), style.underlined, 'n');
    lemma_one_code(look_codes(look, c4), style.strikethrough, 'm');
    lemma_one_code(look_codes(look, c5), style.obfuscated, 'k');
}

proof fn lemma_codes_read(codes: Seq<char>, rest: Seq<char>, look: Look)
    ensures
        reading(sectioned(codes) + rest, look) == reading(rest, look_codes(look, codes)),
    decreases codes.len(),
{
    if codes.len() > 0 {
        let pair = seq![SECTION, codes.last()];
        lemma_codes_read(codes.drop_last(), pair + rest, look);
        assert(sectioned(codes) + rest =~= sectioned(codes.drop_last()) + (pair + rest));
        assert((pair + rest).skip(2) =~= rest);
        assert((pair + rest)[0] == SECTION && (pair + rest)[1] == codes.last());
    } else {
        assert(sectioned(codes) + rest =~= rest);
    }
}

proof fn lemma_text_reads(text: Seq<char>, rest: Seq<char>, look: Look)
    requires
        !text.contains(SECTION),
    ensures
        reading(text + rest, look) == painted(text, look) + reading(rest, look),
    decreases text.len(),
{
    if text.len() > 0 {
        assert(text.contains(text[0]));
        let less = text.skip(1);
        if less.contains(SECTION) {
            let i = choose|i: int| 0 <= i < less.len() && less[i] == SECTION;
            assert(text[i + 1] == SECTION);
        }
        lemma_text_reads(less, rest, look);
        assert((text + rest).skip(1) =~= less + rest);
        assert(reading(text + rest, look) =~= painted(text, look) + reading(rest, look));
    } else {
        assert(text + rest =~= rest);
        assert(painted(text, look) + reading(rest, look) =~= reading(rest, look));
    }
}

/// What was written so far is read by itself, and leaves a client at the style
/// that was last written.
spec fn reads_closed(w: Written) -> bool {
    forall|rest: Seq<char>| #[trigger]
        reading(w.out + rest, plain_look()) == reading(w.out, plain_look()) + reading(
            rest,
            look_written(w.style),
        )
}

spec fn read_so_far(w: Written) -> Seq<(char, Look)> {
    reading(w.out, plain_look())
}

proof fn lemma_text_written_reads(
    text: Seq<char>,
    style: StyleValue,
    chain: Seq<JsonValue>,
    before: Written,
)
    requires
        reads_closed(before),
        !text.contains(SECTION),
        agrees_with(style, chain),
    ensures
        reads_closed(text_written(text, style, before)),
        read_so_far(text_written(text, style, before)) == read_so_far(before) + painted(
            text,
            look_below(chain),
        ),
{
    let after = text_written(text, style, before);
    let none = Seq::<char>::empty();
    let look = look_of(style);
    if text.len() == 0 {
        assert(read_so_far(before) + painted(text, look) =~= read_so_far(before));
    } else {
        let unchanged = before.style == Some(style) || (before.style is None && style
            == default_style());
        let codes = if unchanged {
            none
        } else {
            style.codes()
        };
        assert(sectioned(none) =~= none);
        assert(after.out =~= before.out + sectioned(codes) + text);
        assert(look_codes(look_written(before.style), codes) == look) by {
            if unchanged {
                assert(look_codes(look_written(before.style), none) == look_written(before.style));
            } else {
                lemma_codes_look(look_written(before.style), style);
            }
        }
        assert forall|rest: Seq<char>| #[trigger]
            reading(after.out + rest, plain_look()) == read_so_far(before) + painted(text, look)
                + reading(rest, look) by {
            assert(after.out + rest =~= before.out + (sectioned(codes) + (text + rest)));
            lemma_codes_read(codes, text + rest, look_written(before.style));
            lemma_text_reads(text, rest, look);
            assert(read_so_far(before) + (painted(text, look) + reading(rest, look))
                =~= read_so_far(before) + painted(text, look) + reading(rest, look));
        }
        assert(after.out + none =~= after.out);
        assert(reading(none, look) =~= Seq::<(char, Look)>::empty());
        assert(reading(after.out + none, plain_look()) == read_so_far(before) + painted(text, look)
            + reading(none, look));
        assert(read_so_far(after) =~= read_so_far(before) + painted(text, look));
    }
}

proof fn lemma_last_word(above: Seq<JsonValue>, value: JsonValue, key: Seq<char>, inherited: bool)
    requires
        inherited == in_force(above, key),
    ensures
        flag(value, key, inherited) == in_force(above.push(value), key),
{
    let chain = above.push(value);
    let n = above.len() as int;
    assert(chain[n] == value);
    assert forall|k: int| 0 <= k < n implies #[trigger] chain[k] == above[k] by {}
    if value.member(key) is Some && value.member(key)->Some_0 is Bool {
        assert(last_word(chain, key, n));
        if in_force(chain, key) {
            let k = choose|k: int| #[trigger]
                last_word(chain, key, k) && chain[k].member(key) == Some(JsonValue::Bool(true));
            if k < n {
                assert(!(chain[n].member(key) is Some && chain[n].member(key)->Some_0 is Bool));
            }
        }
        if value.member(key) == Some(JsonValue::Bool(true)) {
            assert(in_force(chain, key));
        }
    } else {
        if in_force(above, key) {
            let k = choose|k: int| #[trigger]
                last_word(above, key, k) && above[k].member(key) == Some(JsonValue::Bool(true));
            assert forall|j: int| k < j < chain.len() implies !((#[trigger] chain[j]).member(
                key,
            ) is Some && chain[j].member(key)->Some_0 is Bool) by {
                if j < n {
                    assert(chain[j] == above[j]);
                }
            }
            assert(last_word(chain, key, k));
        }
        if in_force(chain, key) {
            let k = choose|k: int| #[trigger]
                last_word(chain, key, k) && chain[k].member(key) == Some(JsonValue::Bool(true));
            assert(k < n);
            assert forall|j: int| k < j < above.len() implies !((#[trigger] above[j]).member(
                key,
            ) is Some && above[j].member(key)->Some_0 is Bool) by {
                assert(chain[j] == above[j]);
            }
            assert(last_word(above, key, k));
        }
    }
}

proof fn lemma_inherit_agrees(style: StyleValue, above: Seq<JsonValue>, value: JsonValue)
    requires
        agrees_with(style, above),
    ensures
        agrees_with(style.inherit(value), above.push(value)),
{
    lemma_last_word(above, value, "bold"@, style.bold);
    lemma_last_word(above, value, "italic"@, style.italic);
    lemma_last_word(above, value, "underlined"@, style.underlined);
    lemma_last_word(above, value, "strikethrough"@, style.strikethrough);
    lemma_last_word(above, value, "obfuscated"@, style.obfuscated);
    assert(above.push(value).drop_last() =~= above);
    assert(above.push(value).last() == value);
    if let Some(JsonValue::Text(name)) = value.member("color"@) {
        if let Some(codes) = color_codes(name) {
            lemma_color_fits(name);
            assert(codes.len() > 0);
        }
    }
}

proof fn lemma_color_fits(name: Seq<char>)
    requires
        color_codes(name) is Some,
    ensures
        fit_color(StyleValue { color: color_codes(name), ..default_style() }),
        color_codes(name)->Some_0.len() > 0,
{
    let codes = color_codes(name)->Some_0;
    if name.len() == 7 && starts_with_hex_color(name) {
        assert forall|i: int| 1 <= i < 7 implies is_hex(#[trigger] codes[i]) by {
            assert(codes[i] == name[i]);
        }
    }
}

proof fn lemma_all_painted(
    a: Seq<(Seq<char>, Seq<JsonValue>)>,
    b: Seq<(Seq<char>, Seq<JsonValue>)>,
)
    ensures
        all_painted(a + b) == all_painted(a) + all_painted(b),
    decreases b.len(),
{
    if b.len() > 0 {
        lemma_all_painted(a, b.drop_last());
        assert((a + b).drop_last() =~= a + b.drop_last());
        assert((a + b).last() == b.last());
        assert(all_painted(a + b) =~= all_painted(a) + all_painted(b));
    } else {
        assert(a + b =~= a);
        assert(all_painted(a) + all_painted(b) =~= all_painted(a));
    }
}

proof fn lemma_one_painted(text: Seq<char>, chain: Seq<JsonValue>)
    ensures
        all_painted(seq![(text, chain)]) == painted(text, look_below(chain)),
{
    let one = seq![(text, chain)];
    let none = Seq::<(Seq<char>, Seq<JsonValue>)>::empty();
    assert(one.drop_last() =~= none);
    assert(all_painted(none) =~= Seq::<(char, Look)>::empty());
    assert(all_painted(one) =~= painted(text, look_below(chain)));
}

proof fn lemma_written_reads(
    value: JsonValue,
    inherited: StyleValue,
    above: Seq<JsonValue>,
    before: Written,
)
    requires
        reads_closed(before),
        !shown(value).contains(SECTION),
        agrees_with(inherited, above),
    ensures
        reads_closed(written(value, inherited, before)),
        read_so_far(written(value, inherited, before)) == read_so_far(before) + all_painted(
            styled_texts(value, above),
        ),
    decreases value, 0nat,
{
    let none = Seq::<(Seq<char>, Seq<JsonValue>)>::empty();
    let nothing = Seq::<(char, Look)>::empty();
    assert(all_painted(none) =~= nothing);
    assert(read_so_far(before) + nothing =~= read_so_far(before));
    match value {
        JsonValue::Text(text) => {
            lemma_text_written_reads(text, inherited, above, before);
            lemma_one_painted(text, above);
        },
        JsonValue::Array(items) => {
            let rest = if items.len() > 0 && items[0] is Object {
                above.push(items[0])
            } else {
                above
            };
            if items.len() > 0 {
                lemma_inherit_agrees(inherited, above, items[0]);
            }
            lemma_list_reads(
                items,
                items.len(),
                inherited,
                list_style(items, inherited),
                above,
                rest,
                before,
            );
        },
        JsonValue::Object(entries) => {
            let style = inherited.inherit(value);
            let chain = above.push(value);
            lemma_inherit_agrees(inherited, above, value);
            let own_text = match value.member("text"@) {
                Some(JsonValue::Text(text)) => text,
                _ => Seq::empty(),
            };
            let own_part = match value.member("text"@) {
                Some(JsonValue::Text(text)) => seq![(text, chain)],
                _ => none,
            };
            let own = text_written(own_text, style, before);
            let with = entry_index(entries, "with"@) as int;
            let has_args = with < entries.len() && entries[with].1 is Array;
            let args_items = if has_args {
                entries[with].1->Array_0
            } else {
                Seq::empty()
            };
            let extra = entry_index(entries, "extra"@) as int;
            let has_extra = extra < entries.len() && entries[extra].1 is Array;
            let extra_items = if has_extra {
                entries[extra].1->Array_0
            } else {
                Seq::empty()
            };
            let args_text = shown_list(args_items, args_items.len());
            let extra_text = shown_list(extra_items, extra_items.len());
            assert(shown(value) =~= own_text + args_text + extra_text);
            lemma_no_section_parts(own_text + args_text, extra_text);
            lemma_no_section_parts(own_text, args_text);
            lemma_text_written_reads(own_text, style, chain, before);
            lemma_one_painted(own_text, chain);
            assert(read_so_far(own) == read_so_far(before) + all_painted(own_part)) by {
                if own_part.len() == 0 {
                    assert(painted(own_text, look_below(chain)) =~= nothing);
                }
            }
            let args_part = styled_list(args_items, args_items.len(), chain, chain);
            let extra_part = styled_list(extra_items, extra_items.len(), chain, chain);
            assert(styled_texts(value, above) =~= own_part + args_part + extra_part);
            let args = list_written(args_items, args_items.len(), style, style, own);
            if has_args {
                lemma_list_reads(
                    args_items,
                    args_items.len(),
                    style,
                    style,
                    chain,
                    chain,
                    own,
                );
            } else {
                assert(args_part =~= none);
                assert(read_so_far(own) + nothing =~= read_so_far(own));
            }
            if has_extra {
                lemma_list_reads(
                    extra_items,
                    extra_items.len(),
                    style,
                    style,
                    chain,
                    chain,
                    args,
                );
            } else {
                assert(extra_part =~= none);
                assert(read_so_far(args) + nothing =~= read_so_far(args));
            }
            lemma_all_painted(own_part + args_part, extra_part);
            lemma_all_painted(own_part, args_part);
            assert(read_so_far(before) + all_painted(own_part) + all_painted(args_part)
                + all_painted(extra_part) =~= read_so_far(before) + all_painted(
                styled_texts(value, above),
            ));
        },
        _ => {},
    }
}

proof fn lemma_list_reads(
    items: Seq<JsonValue>,
    n: nat,
    first: StyleValue,
    rest: StyleValue,
    first_chain: Seq<JsonValue>,
    rest_chain: Seq<JsonValue>,
    before: Written,
)
    requires
        n <= items.len(),
        reads_closed(before),
        !shown_list(items, n).contains(SECTION),
        agrees_with(first, first_chain),
        agrees_with(rest, rest_chain),
    ensures
        reads_closed(list_written(items, n, first, rest, before)),
        read_so_far(list_written(items, n, first, rest, before)) == read_so_far(before)
            + all_painted(styled_list(items, n, first_chain, rest_chain)),
    decreases items, n,
{
    let nothing = Seq::<(char, Look)>::empty();
    if n == 0 {
        assert(all_painted(styled_list(items, n, first_chain, rest_chain)) =~= nothing);
        assert(read_so_far(before) + nothing =~= read_so_far(before));
    } else {
        let m = (n - 1) as nat;
        let style = if n == 1 {
            first
        } else {
            rest
        };
        let chain = if n == 1 {
            first_chain
        } else {
            rest_chain
        };
        lemma_no_section_parts(shown_list(items, m), shown(items[n - 1]));
        lemma_list_reads(items, m, first, rest, first_chain, rest_chain, before);
        lemma_written_reads(
            items[n - 1],
            style,
            chain,
            list_written(items, m, first, rest, before),
        );
        lemma_all_painted(
            styled_list(items, m, first_chain, rest_chain),
            styled_texts(items[n - 1], chain),
        );
        assert(read_so_far(before) + all_painted(styled_list(items, m, first_chain, rest_chain))
            + all_painted(styled_texts(items[n - 1], chain)) =~= read_so_far(before) + all_painted(
            styled_list(items, n, first_chain, rest_chain),
        ));
    }
}

/// A client that reads the legacy text sees what the component asks for: every
/// text, in order, bold, italic, underlined, struck through or obfuscated where
/// the last of the components above it that says anything about that says yes,
/// and in the colour of the last that names one.
pub proof fn formats_are_shown_as_inherited(value: JsonValue)
    requires
        !shown(value).contains(SECTION),
    ensures
        reading(legacy_text(value), plain_look()) == all_painted(
            styled_texts(value, Seq::empty()),
        ),
{
    let start = Written { out: Seq::empty(), style: None };
    let none = Seq::<JsonValue>::empty();
    let nothing = Seq::<(char, Look)>::empty();
    assert(reading(start.out, plain_look()) =~= nothing);
    assert forall|rest: Seq<char>| #[trigger]
        reading(start.out + rest, plain_look()) == reading(start.out, plain_look()) + reading(
            rest,
            look_written(start.style),
        ) by {
        assert(start.out + rest =~= rest);
        assert(nothing + reading(rest, plain_look()) =~= reading(rest, plain_look()));
    }
    assert(agrees_with(default_style(), none));
    lemma_written_reads(value, default_style(), none, start);
    assert(nothing + all_painted(styled_texts(value, none)) =~= all_painted(
        styled_texts(value, none),
    ));
}

/// The text in the `extra` of an object is shown with the formats that the
/// object sets: a client reads it bold where the object says `"bold": true`, and
/// so on for each of the five.
pub proof fn children_are_shown_in_their_parents_formats(
    entries: Seq<(Seq<char>, JsonValue)>,
    text: Seq<char>,
    i: int,
)
    requires
        ({
            let parent = JsonValue::Object(entries);
            &&& parent.member("extra"@) == Some(
                JsonValue::Array(seq![JsonValue::Text(text)]),
            )
            &&& parent.member("text"@) is None
            &&& parent.member("with"@) is None
        }),
        !text.contains(SECTION),
        0 <= i < text.len(),
    ensures
        ({
            let parent = JsonValue::Object(entries);
            let seen = reading(legacy_text(parent), plain_look());
            let yes = Some(JsonValue::Bool(true));
            &&& seen.len() == text.len()
            &&& seen[i].0 == text[i]
            &&& seen[i].1.bold == (parent.member("bold"@) == yes)
            &&& seen[i].1.italic == (parent.member("italic"@) == yes)
            &&& seen[i].1.underlined == (parent.member("underlined"@) == yes)
            &&& seen[i].1.strikethrough == (parent.member("strikethrough"@) == yes)
            &&& seen[i].1.obfuscated == (parent.member("obfuscated"@) == yes)
        }),
{
    let parent = JsonValue::Object(entries);
    let items = seq![JsonValue::Text(text)];
    let none = Seq::<JsonValue>::empty();
    let chain = none.push(parent);
    reveal_with_fuel(shown_list, 2);
    reveal_with_fuel(styled_list, 2);
    assert(shown_list(items, 1) =~= text);
    assert(shown(parent) =~= text);
    formats_are_shown_as_inherited(parent);
    assert(styled_list(items, 1, chain, chain) =~= seq![(text, chain)]);
    assert(styled_texts(parent, none) =~= seq![(text, chain)]);
    lemma_one_painted(text, chain);
    lemma_own_word(parent, "bold"@);
    lemma_own_word(parent, "italic"@);
    lemma_own_word(parent, "underlined"@);
    lemma_own_word(parent, "strikethrough"@);
    lemma_own_word(parent, "obfuscated"@);
}

proof fn lemma_own_word(value: JsonValue, key: Seq<char>)
    ensures
        in_force(Seq::<JsonValue>::empty().push(value), key) == (value.member(key) == Some(
            JsonValue::Bool(true),
        )),
{
    let none = Seq::<JsonValue>::empty();
    assert(!in_force(none, key));
    lemma_last_word(none, value, key, false);
}

/// The legacy text of a text in a named colour.
#[verifier::opaque]
pub open spec fn shown_in(color: Seq<char>, text: Seq<char>) -> Seq<char> {
    legacy_text(
        JsonValue::Object(
            seq![("text"@, JsonValue::Text(text)), ("color"@, JsonValue::Text(color))],
        ),
    )
}

proof fn lemma_shown_in(color: Seq<char>, text: Seq<char>)
    requires
        text.len() > 0,
    ensures
        shown_in(color, text) == match color_codes(color) {
            Some(codes) => sectioned(seq!['r'] + codes) + text,
            None => text,
        },
{
    reveal(shown_in);
    let entries = seq![("text"@, JsonValue::Text(text)), ("color"@, JsonValue::Text(color))];
    let value = JsonValue::Object(entries);
    reveal_strlit("text");
    reveal_strlit("color");
    reveal_strlit("with");
    reveal_strlit("extra");
    reveal_strlit("bold");
    reveal_strlit("italic");
    reveal_strlit("underlined");
    reveal_strlit("strikethrough");
    reveal_strlit("obfuscated");
    assert("text"@.len() != "color"@.len());
    assert("with"@[0] != "text"@[0] && "with"@.len() != "color"@.len());
    assert("extra"@[0] != "color"@[0] && "extra"@.len() != "text"@.len());
    assert("bold"@[0] != "text"@[0] && "bold"@.len() != "color"@.len());
    assert("italic"@.len() == 6 && "underlined"@.len() == 10);
    assert("strikethrough"@.len() == 13 && "obfuscated"@.len() == 10);
    crate::json::lemma_entry_index_is(entries, "text"@, 0);
    crate::json::lemma_entry_index_is(entries, "color"@, 1);
    crate::json::lemma_entry_index_is(entries, "with"@, 2);
    crate::json::lemma_entry_index_is(entries, "extra"@, 2);
    crate::json::lemma_entry_index_is(entries, "bold"@, 2);
    crate::json::lemma_entry_index_is(entries, "italic"@, 2);
    crate::json::lemma_entry_index_is(entries, "underlined"@, 2);
    crate::json::lemma_entry_index_is(entries, "strikethrough"@, 2);
    crate::json::lemma_entry_index_is(entries, "obfuscated"@, 2);
    let style = default_style().inherit(value);
    assert(style == (StyleValue { color: color_codes(color), ..default_style() }));
    let none = Seq::<char>::empty();
    if let Some(codes) = color_codes(color) {
        assert(style.codes() =~= seq!['r'] + codes);
        assert(none + sectioned(style.codes()) + text =~= sectioned(seq!['r'] + codes) + text);
    } else {
        assert(style == default_style());
        assert(none + none + text =~= text);
    }
}

proof fn lemma_one_colour(name: Seq<char>, c: char, text: Seq<char>)
    requires
        text.len() > 0,
        color_codes(name) == Some(seq![c]),
    ensures
        shown_in(name, text) == seq!['\u{00a7}', 'r', '\u{00a7}', c] + text,
{
    lemma_shown_in(name, text);
    let codes = seq!['r'] + seq![c];
    reveal_with_fuel(sectioned, 3);
    assert(codes.drop_last() =~= seq!['r']);
    assert(sectioned(codes) =~= seq!['\u{00a7}', 'r', '\u{00a7}', c]);
}

proof fn lemma_color_names()
    ensures
        color_codes("black"@) == Some(seq!['0']),
        color_codes("dark_blue"@) == Some(seq!['1']),
        color_codes("dark_green"@) == Some(seq!['2']),
        color_codes("dark_aqua"@) == Some(seq!['3']),
        color_codes("dark_red"@) == Some(seq!['4']),
        color_codes("dark_purple"@) == Some(seq!['5']),
        color_codes("gold"@) == Some(seq!['6']),
        color_codes("gray"@) == Some(seq!['7']),
        color_codes("grey"@) == Some(seq!['7']),
        color_codes("dark_gray"@) == Some(seq!['8']),
        color_codes("dark_grey"@) == Some(seq!['8']),
        color_codes("blue"@) == Some(seq!['9']),
        color_codes("green"@) == Some(seq!['a']),
        color_codes("aqua"@) == Some(seq!['b']),
        color_codes("red"@) == Some(seq!['c']),
        color_codes("light_purple"@) == Some(seq!['d']),
        color_codes("yellow"@) == Some(seq!['e']),
        color_codes("white"@) == Some(seq!['f']),
{
    reveal_strlit("black");
    reveal_strlit("dark_blue");
    reveal_strlit("dark_green");
    reveal_strlit("dark_aqua");
    reveal_strlit("dark_red");
    reveal_strlit("dark_purple");
    reveal_strlit("gold");
    reveal_strlit("gray");
    reveal_strlit("grey");
    reveal_strlit("dark_gray");
    reveal_strlit("dark_grey");
    reveal_strlit("blue");
    reveal_strlit("green");
    reveal_strlit("aqua");
    reveal_strlit("red");
    reveal_strlit("light_purple");
    reveal_strlit("yellow");
    reveal_strlit("white");
    assert("black"@.len() == 5);
    assert("dark_blue"@.len() == 9);
    assert("dark_green"@.len() == 10);
    assert("dark_aqua"@.len() == 9);
    assert("dark_red"@.len() == 8);
    assert("dark_purple"@.len() == 11);
    assert("gold"@.len() == 4);
    assert("gray"@.len() == 4);
    assert("grey"@.len() == 4);
    assert("dark_gray"@.len() == 9);
    assert("dark_grey"@.len() == 9);
    assert("blue"@.len() == 4);
    assert("green"@.len() == 5);
    assert("aqua"@.len() == 4);
    assert("red"@.len() == 3);
    assert("light_purple"@.len() == 12);
    assert("yellow"@.len() == 6);
    assert("white"@.len() == 5);
    assert("dark_aqua"@[5] == 'a' && "dark_blue"@[5] == 'b');
    assert("gray"@[1] == 'r' && "gold"@[1] == 'o');
    assert("grey"@[1] == 'r' && "gold"@[1] == 'o');
    assert("grey"@[2] == 'e' && "gray"@[2] == 'a');
    assert("dark_gray"@[5] == 'g' && "dark_blue"@[5] == 'b');
    assert("dark_gray"@[5] == 'g' && "dark_aqua"@[5] == 'a');
    assert("dark_grey"@[5] == 'g' && "dark_blue"@[5] == 'b');
    assert("dark_grey"@[5] == 'g' && "dark_aqua"@[5] == 'a');
    assert("dark_grey"@[7] == 'e' && "dark_gray"@[7] == 'a');
    assert("blue"@[0] == 'b' && "gold"@[0] == 'g');
    assert("blue"@[0] == 'b' && "gray"@[0] == 'g');
    assert("blue"@[0] == 'b' && "grey"@[0] == 'g');
    assert("green"@[0] == 'g' && "black"@[0] == 'b');
    assert("aqua"@[0] == 'a' && "gold"@[0] == 'g');
    assert("aqua"@[0] == 'a' && "gray"@[0] == 'g');
    assert("aqua"@[0] == 'a' && "grey"@[0] == 'g');
    assert("aqua"@[0] == 'a' && "blue"@[0] == 'b');
    assert("white"@[0] == 'w' && "black"@[0] == 'b');
    assert("white"@[0] == 'w' && "green"@[0] == 'g');
    assert(forall|name: Seq<char>| name.len() == 7 && #[trigger] starts_with_hex_color(name) ==> name[0]
        == '#');
}

/// Each colour that a component can name has its code, behind a reset.
pub proof fn named_colours_have_their_codes(text: Seq<char>)
    requires
        text.len() > 0,
    ensures
        shown_in("black"@, text) == seq!['\u{00a7}', 'r', '\u{00a7}', '0'] + text,
        shown_in("dark_blue"@, text) == seq!['\u{00a7}', 'r', '\u{00a7}', '1'] + text,
        shown_in("dark_green"@, text) == seq!['\u{00a7}', 'r', '\u{00a7}', '2'] + text,
        shown_in("dark_aqua"@, text) == seq!['\u{00a7}', 'r', '\u{00a7}', '3'] + text,
        shown_in("dark_red"@, text) == seq!['\u{00a7}', 'r', '\u{00a7}', '4'] + text,
        shown_in("dark_purple"@, text) == seq!['\u{00a7}', 'r', '\u{00a7}', '5'] + text,
        shown_in("gold"@, text) == seq!['\u{00a7}', 'r', '\u{00a7}', '6'] + text,
        shown_in("gray"@, text) == seq!['\u{00a7}', 'r', '\u{00a7}', '7'] + text,
        shown_in("grey"@, text) == seq!['\u{00a7}', 'r', '\u{00a7}', '7'] + text,
        shown_in("dark_gray"@, text) == seq!['\u{00a7}', 'r', '\u{00a7}', '8'] + text,
        shown_in("dark_grey"@, text) == seq!['\u{00a7}', 'r', '\u{00a7}', '8'] + text,
        shown_in("blue"@, text) == seq!['\u{00a7}', 'r', '\u{00a7}', '9'] + text,
        shown_in("green"@, text) == seq!['\u{00a7}', 'r', '\u{00a7}', 'a'] + text,
        shown_in("aqua"@, text) == seq!['\u{00a7}', 'r', '\u{00a7}', 'b'] + text,
        shown_in("red"@, text) == seq!['\u{00a7}', 'r', '\u{00a7}', 'c'] + text,
        shown_in("light_purple"@, text) == seq!['\u{00a7}', 'r', '\u{00a7}', 'd'] + text,
        shown_in("yellow"@, text) == seq!['\u{00a7}', 'r', '\u{00a7}', 'e'] + text,
        shown_in("white"@, text) == seq!['\u{00a7}', 'r', '\u{00a7}', 'f'] + text,
{
    lemma_color_names();
    lemma_one_colour("black"@, '0', text);
    lemma_one_colour("dark_blue"@, '1', text);
    lemma_one_colour("dark_green"@, '2', text);
    lemma_one_colour("dark_aqua"@, '3', text);
    lemma_one_colour("dark_red"@, '4', text);
    lemma_one_colour("dark_purple"@, '5', text);
    lemma_one_colour("gold"@, '6', text);
    lemma_one_colour("gray"@, '7', text);
    lemma_one_colour("grey"@, '7', text);
    lemma_one_colour("dark_gray"@, '8', text);
    lemma_one_colour("dark_grey"@, '8', text);
    lemma_one_colour("blue"@, '9', text);
    lemma_one_colour("green"@, 'a', text);
    lemma_one_colour("aqua"@, 'b', text);
    lemma_one_colour("red"@, 'c', text);
    lemma_one_colour("light_purple"@, 'd', text);
    lemma_one_colour("yellow"@, 'e', text);
    lemma_one_colour("white"@, 'f', text);
}

/// A hex colour is an `x` and its six digits, each with its section sign.
pub proof fn hex_colours_have_their_digits(digits: Seq<char>, text: Seq<char>)
    requires
        text.len() > 0,
        digits.len() == 6,
        forall|i: int| 0 <= i < 6 ==> "0123456789abcdefABCDEF"@.contains(#[trigger] digits[i]),
    ensures
        shown_in(seq!['#'] + digits, text) == seq![
            '\u{00a7}', 'r', '\u{00a7}', 'x', '\u{00a7}', digits[0], '\u{00a7}', digits[1],
            '\u{00a7}', digits[2], '\u{00a7}', digits[3], '\u{00a7}', digits[4], '\u{00a7}',
            digits[5],
        ] + text,
{
    let name = seq!['#'] + digits;
    lemma_hex_is_listed();
    assert forall|i: int| 1 <= i < 7 implies is_hex(#[trigger] name[i]) by {
        assert(name[i] == digits[i - 1]);
    }
    assert(name.skip(1) =~= digits);
    lemma_shown_in(name, text);
    let codes = seq!['r'] + (seq!['x'] + digits);
    reveal_with_fuel(sectioned, 9);
    assert(sectioned(codes) =~= seq![
        '\u{00a7}', 'r', '\u{00a7}', 'x', '\u{00a7}', digits[0], '\u{00a7}', digits[1], '\u{00a7}',
        digits[2], '\u{00a7}', digits[3], '\u{00a7}', digits[4], '\u{00a7}', digits[5],
    ]);
}

/// A name that is none of these, and no hex colour either, is no colour.
pub proof fn other_names_are_no_colour(name: Seq<char>, text: Seq<char>)
    requires
        text.len() > 0,
        !seq![
            "black"@, "dark_blue"@, "dark_green"@, "dark_aqua"@, "dark_red"@,
            "dark_purple"@, "gold"@, "gray"@, "grey"@, "dark_gray"@, "dark_grey"@,
            "blue"@, "green"@, "aqua"@, "red"@, "light_purple"@, "yellow"@, "white"@,
        ].contains(name),
        name.len() != 7 || name[0] != '#' || exists|i: int|
            1 <= i < 7 && !"0123456789abcdefABCDEF"@.contains(#[trigger] name[i]),
    ensures
        shown_in(name, text) == text,
{
    let names = seq![
        "black"@, "dark_blue"@, "dark_green"@, "dark_aqua"@, "dark_red"@,
        "dark_purple"@, "gold"@, "gray"@, "grey"@, "dark_gray"@, "dark_grey"@,
        "blue"@, "green"@, "aqua"@, "red"@, "light_purple"@, "yellow"@, "white"@,
    ];
    lemma_hex_is_listed();
    assert(names[0] != name);
    assert(names[1] != name);
    assert(names[2] != name);
    assert(names[3] != name);
    assert(names[4] != name);
    assert(names[5] != name);
    assert(names[6] != name);
    assert(names[7] != name);
    assert(names[8] != name);
    assert(names[9] != name);
    assert(names[10] != name);
    assert(names[11] != name);
    assert(names[12] != name);
    assert(names[13] != name);
    assert(names[14] != name);
    assert(names[15] != name);
    assert(names[16] != name);
    assert(names[17] != name);
    lemma_shown_in(name, text);
}

} // verus!
