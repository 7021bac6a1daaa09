//! JSON documents.

use vstd::prelude::*;

use crate::text::{same_text, text_less};

verus! {

/// A JSON number.
#[derive(Debug, Clone, PartialEq, Eq)]
pub enum Number {
    /// A whole number that is not negative.
    Unsigned(u64),
    /// A whole number below zero.
    Negative(i64),
    /// Any other number, as it is printed.
    Real(String),
}

/// A JSON document.
#[derive(Debug, PartialEq, Eq)]
pub enum Json {
    /// `null`
    Null,
    /// `true` or `false`
    Bool(bool),
    /// A number.
    Number(Number),
    /// A string.
    Text(String),
    /// A list.
    Array(Vec<Json>),
    /// Keys and values.
    Object(Vec<(String, Json)>),
}

/// A JSON number as a value.
pub ghost enum NumberValue {
    Whole(int),
    Real(Seq<char>),
}

/// A JSON document as a value.
pub ghost enum JsonValue {
    Null,
    Bool(bool),
    Number(NumberValue),
    Text(Seq<char>),
    Array(Seq<JsonValue>),
    Object(Seq<(Seq<char>, JsonValue)>),
}

impl View for Number {
    type V = NumberValue;

    open spec fn view(&self) -> NumberValue {
        match self {
            Number::Unsigned(n) => NumberValue::Whole(*n as int),
            Number::Negative(n) => NumberValue::Whole(*n as int),
            Number::Real(text) => NumberValue::Real(text@),
        }
    }
}

/// Where `key` first stands among the entries of an object, or their number.
pub open spec fn entry_index(entries: Seq<(Seq<char>, JsonValue)>, key: Seq<char>) -> nat
    decreases entries.len(),
{
    if entries.len() == 0 || entries[0].0 == key {
        0
    } else {
        1 + entry_index(entries.drop_first(), key)
    }
}

/// What `entry_index` finds.
pub proof fn lemma_entry_index(entries: Seq<(Seq<char>, JsonValue)>, key: Seq<char>)
    ensures
        entry_index(entries, key) <= entries.len(),
        entry_index(entries, key) < entries.len() ==> entries[entry_index(
            entries,
            key,
        ) as int].0 == key,
        forall|i: int| 0 <= i < entry_index(entries, key) ==> (#[trigger] entries[i]).0 != key,
    decreases entries.len(),
{
    if entries.len() > 0 && entries[0].0 != key {
        lemma_entry_index(entries.drop_first(), key);
        assert forall|i: int| 0 <= i < entry_index(entries, key) implies (
        #[trigger] entries[i]).0 != key by {
            if i > 0 {
                assert(entries[i] == entries.drop_first()[i - 1]);
            }
        }
    }
}

/// The first place of a key is the place with no such key before it.
pub proof fn lemma_entry_index_is(entries: Seq<(Seq<char>, JsonValue)>, key: Seq<char>, at: int)
    requires
        0 <= at <= entries.len(),
        at < entries.len() ==> entries[at].0 == key,
        forall|i: int| 0 <= i < at ==> (#[trigger] entries[i]).0 != key,
    ensures
        entry_index(entries, key) == at,
{
    lemma_entry_index(entries, key);
}

impl JsonValue {
    /// The value that stands under `key`, if this is an object that has it.
    pub open spec fn member(self, key: Seq<char>) -> Option<JsonValue> {
        match self {
            JsonValue::Object(entries) => if entry_index(entries, key) < entries.len() {
                Some(entries[entry_index(entries, key) as int].1)
            } else {
                None
            },
            _ => None,
        }
    }

    /// The string that this is.
    pub open spec fn text(self) -> Option<Seq<char>> {
        match self {
            JsonValue::Text(text) => Some(text),
            _ => None,
        }
    }

    /// The truth value that this is.
    pub open spec fn truth(self) -> Option<bool> {
        match self {
            JsonValue::Bool(b) => Some(b),
            _ => None,
        }
    }

    /// The whole number that this is, if it fits an `i64`.
    pub open spec fn whole(self) -> Option<i64> {
        match self {
            JsonValue::Number(NumberValue::Whole(n)) => if i64::MIN <= n <= i64::MAX {
                Some(n as i64)
            } else {
                None
            },
            _ => None,
        }
    }

    /// The items of the list that this is.
    pub open spec fn items(self) -> Option<Seq<JsonValue>> {
        match self {
            JsonValue::Array(items) => Some(items),
            _ => None,
        }
    }
}

impl Json {
    /// The document as a value.
    pub open spec fn value(&self) -> JsonValue
        decreases self,
    {
        match self {
            Json::Null => JsonValue::Null,
            Json::Bool(b) => JsonValue::Bool(*b),
            Json::Number(n) => JsonValue::Number(n@),
            Json::Text(text) => JsonValue::Text(text@),
            Json::Array(items) => JsonValue::Array(
                Seq::new(
                    items@.len(),
                    |i: int|
                        if 0 <= i < items@.len() {
                            items@[i].value()
                        } else {
                            JsonValue::Null
                        },
                ),
            ),
            Json::Object(entries) => JsonValue::Object(
                Seq::new(
                    entries@.len(),
                    |i: int|
                        if 0 <= i < entries@.len() {
                            (entries@[i].0@, entries@[i].1.value())
                        } else {
                            (Seq::empty(), JsonValue::Null)
                        },
                ),
            ),
        }
    }
}

impl Json {
    /// The value under `key`, if this is an object that has it.
    pub fn get(&self, key: &str) -> (member: Option<&Json>)
        ensures
            match self.value().member(key@) {
                Some(value) => member is Some && member->Some_0.value() == value
                    && decreases_to!(self => member->Some_0),
                None => member is None,
            },
    {
        match self {
            Json::Object(entries) => {
                let ghost values = self.value()->Object_0;
                let mut i: usize = 0;
                while i < entries.len()
                    invariant
                        i <= entries@.len(),
                        *self is Object,
                        *entries == self->Object_0,
                        self.value() == JsonValue::Object(values),
                        values.len() == entries@.len(),
                        forall|j: int|
                            0 <= j < entries@.len() ==> (#[trigger] values[j]) == (
                                entries@[j].0@,
                                entries@[j].1.value(),
                            ),
                        forall|j: int| 0 <= j < i ==> (#[trigger] values[j]).0 != key@,
                    decreases entries@.len() - i,
                {
                    if same_text(entries[i].0.as_str(), key) {
                        proof {
                            assert(values[i as int].0 == key@);
                            lemma_entry_index_is(values, key@, i as int);
                        }
                        return Some(&entries[i].1);
                    }
                    assert(values[i as int].0 != key@);
                    i = i + 1;
                }
                proof {
                    lemma_entry_index_is(values, key@, i as int);
                }
                None
            },
            _ => None,
        }
    }

    /// The string that this is.
    pub fn as_str(&self) -> (text: Option<&str>)
        ensures
            match self.value().text() {
                Some(value) => text is Some && text->Some_0@ == value,
                None => text is None,
            },
    {
        match self {
            Json::Text(text) => Some(text.as_str()),
            _ => None,
        }
    }

    /// The truth value that this is.
    pub fn as_bool(&self) -> (truth: Option<bool>)
        ensures
            truth == self.value().truth(),
    {
        match self {
            Json::Bool(b) => Some(*b),
            _ => None,
        }
    }

    /// The whole number that this is, if it fits an `i64`.
    pub fn as_i64(&self) -> (n: Option<i64>)
        ensures
            n == self.value().whole(),
    {
        match self {
            Json::Number(Number::Unsigned(n)) => if *n <= 0x7fff_ffff_ffff_ffff {
                Some(*n as i64)
            } else {
                None
            },
            Json::Number(Number::Negative(n)) => Some(*n),
            _ => None,
        }
    }

    /// The same document once more.
    pub fn copy(&self) -> (json: Json)
        ensures
            json.value() == self.value(),
        decreases self,
    {
        match self {
            Json::Null => Json::Null,
            Json::Bool(b) => Json::Bool(*b),
            Json::Number(Number::Unsigned(n)) => Json::Number(Number::Unsigned(*n)),
            Json::Number(Number::Negative(n)) => Json::Number(Number::Negative(*n)),
            Json::Number(Number::Real(text)) => Json::Number(Number::Real(text.clone())),
            Json::Text(text) => Json::Text(text.clone()),
            Json::Array(items) => {
                let mut copies: Vec<Json> = Vec::new();
                let mut i: usize = 0;
                while i < items.len()
                    invariant
                        i <= items@.len(),
                        *self is Array,
                        *items == self->Array_0,
                        copies@.len() == i,
                        forall|j: int|
                            0 <= j < i ==> (#[trigger] copies@[j]).value() == items@[j].value(),
                    decreases items@.len() - i,
                {
                    copies.push(items[i].copy());
                    i = i + 1;
                }
                let json = Json::Array(copies);
                assert(json.value()->Array_0 =~= self.value()->Array_0);
                json
            },
            Json::Object(entries) => {
                let mut copies: Vec<(String, Json)> = Vec::new();
                let mut i: usize = 0;
                while i < entries.len()
                    invariant
                        i <= entries@.len(),
                        *self is Object,
                        *entries == self->Object_0,
                        copies@.len() == i,
                        forall|j: int|
                            0 <= j < i ==> (#[trigger] copies@[j]).1.value()
                                == entries@[j].1.value() && copies@[j].0@ == entries@[j].0@,
                    decreases entries@.len() - i,
                {
                    let value = entries[i].1.copy();
                    copies.push((entries[i].0.clone(), value));
                    i = i + 1;
                }
                let json = Json::Object(copies);
                assert(json.value()->Object_0 =~= self.value()->Object_0);
                json
            },
        }
    }
}

// -------------------------------------------------------------- serde_json --

/// A document as `serde_json` holds it.
#[verifier::external_type_specification]
#[verifier::external_body]
pub struct ExValue(serde_json::Value);

/// The document that `serde_json` reads from a text, if the text is JSON.
pub uninterp spec fn parsed(text: Seq<char>) -> Option<JsonValue>;

/// The text that `serde_json` prints for a document.
pub uninterp spec fn printed(value: JsonValue) -> Seq<char>;

/// How many lists and objects `serde_json` reads inside one another.
pub const READ_DEPTH: usize = 127;

/// Whether a document is printed so that the same document is read from the
/// text: it holds no fractions, the keys of its objects ascend, and lists and
/// objects stand at most `depth` deep inside one another.
pub open spec fn readable(value: JsonValue, depth: nat) -> bool
    decreases depth,
{
    match value {
        JsonValue::Number(NumberValue::Real(_)) => false,
        JsonValue::Array(items) => depth > 0 && forall|i: int|
            0 <= i < items.len() ==> readable(#[trigger] items[i], (depth - 1) as nat),
        JsonValue::Object(entries) => {
            &&& depth > 0
            &&& forall|i: int|
                0 <= i < entries.len() ==> readable((#[trigger] entries[i]).1, (depth - 1) as nat)
            &&& forall|i: int, j: int|
                0 <= i < j < entries.len() ==> text_less(
                    (#[trigger] entries[i]).0,
                    (#[trigger] entries[j]).0,
                )
        },
        _ => true,
    }
}

/// Takes a `serde_json::Value` apart, variant by variant. Nothing is claimed of
/// it here: `parse_json` states what the whole conversion gives.
#[verifier::external_body]
fn json_of(value: serde_json::Value) -> Json {
    match value {
        serde_json::Value::Null => Json::Null,
        serde_json::Value::Bool(b) => Json::Bool(b),
        serde_json::Value::Number(n) => Json::Number(match (n.as_u64(), n.as_i64()) {
            (Some(n), _) => Number::Unsigned(n),
            (None, Some(n)) => Number::Negative(n),
            (None, None) => Number::Real(n.to_string()),
        }),
        serde_json::Value::String(s) => Json::Text(s),
        serde_json::Value::Array(items) => Json::Array(items.into_iter().map(json_of).collect()),
        serde_json::Value::Object(map) =>
            Json::Object(map.into_iter().map(|(key, value)| (key, json_of(value))).collect()),
    }
}

/// Builds a `serde_json::Value`, variant by variant. Nothing is claimed of it
/// here: `print_json` states what the whole conversion gives.
#[verifier::external_body]
fn value_of(json: &Json) -> serde_json::Value {
    match json {
        Json::Null => serde_json::Value::Null,
        Json::Bool(b) => serde_json::Value::from(*b),
        Json::Number(Number::Unsigned(n)) => serde_json::Value::from(*n),
        Json::Number(Number::Negative(n)) => serde_json::Value::from(*n),
        Json::Number(Number::Real(text)) =>
            serde_json::Value::from(text.parse().ok().and_then(serde_json::Number::from_f64)),
        Json::Text(text) => serde_json::Value::from(text.as_str()),
        Json::Array(items) => items.iter().map(value_of).collect(),
        Json::Object(entries) =>
            entries.iter().map(|(key, value)| (key.as_str(), value_of(value))).collect(),
    }
}

/// `serde_json::from_str`: the document that `text` spells. Which texts are
/// JSON, and what they spell, is left to `serde_json` under a name.
#[verifier::external_body]
pub(crate) fn parse_json(text: &str) -> (json: Option<Json>)
    ensures
        match json {
            Some(json) => parsed(text@) == Some(json.value()),
            None => parsed(text@) is None,
        },
{
    serde_json::from_str::<serde_json::Value>(text).ok().map(json_of)
}

/// `serde_json::Value::to_string`: the document as compact text. What is printed
/// is left to `serde_json` under a name; `serde_json::from_str` gives back what
/// was printed, as long as no fraction is rounded, no keys are put in another
/// order, and the document is not too deep to be read.
#[verifier::external_body]
pub(crate) fn print_json(json: &Json) -> (text: String)
    ensures
        text@ == printed(json.value()),
        readable(json.value(), READ_DEPTH as nat) ==> parsed(text@) == Some(json.value()),
{
    value_of(json).to_string()
}

impl Json {
    /// The document that `text` spells, if it is JSON.
    pub fn parse(text: &str) -> (json: Option<Json>)
        ensures
            match json {
                Some(json) => parsed(text@) == Some(json.value()),
                None => parsed(text@) is None,
            },
    {
        parse_json(text)
    }

    /// The document as compact text.
    pub fn to_text(&self) -> (text: String)
        ensures
            text@ == printed(self.value()),
            readable(self.value(), READ_DEPTH as nat) ==> parsed(text@) == Some(self.value()),
    {
        print_json(self)
    }
}

/// An object answers for a key with the first value that stands under it; other
/// keys, and documents that are no object, have nothing to say.
pub proof fn objects_answer_for_their_keys(
    entries: Seq<(Seq<char>, JsonValue)>,
    key: Seq<char>,
    at: int,
    other: JsonValue,
)
    ensures
        0 <= at < entries.len() && entries[at].0 == key && (forall|i: int|
            0 <= i < at ==> (#[trigger] entries[i]).0 != key) ==> JsonValue::Object(entries).member(
            key,
        ) == Some(entries[at].1),
        (forall|i: int| 0 <= i < entries.len() ==> (#[trigger] entries[i]).0 != key)
            ==> JsonValue::Object(entries).member(key) is None,
        !(other is Object) ==> other.member(key) is None,
{
    lemma_entry_index(entries, key);
}

/// Only a string is a text, only a truth value a truth, only a list has items,
/// and only a number without a fraction that fits 64 bits is a whole number.
pub proof fn documents_are_what_they_are(
    text: Seq<char>,
    truth: bool,
    items: Seq<JsonValue>,
    n: int,
    fraction: Seq<char>,
)
    ensures
        JsonValue::Text(text).text() == Some(text),
        JsonValue::Bool(truth).truth() == Some(truth),
        JsonValue::Array(items).items() == Some(items),
        -0x8000_0000_0000_0000 <= n <= 0x7fff_ffff_ffff_ffff ==> JsonValue::Number(
            NumberValue::Whole(n),
        ).whole() == Some(n as i64),
        n < -0x8000_0000_0000_0000 || n > 0x7fff_ffff_ffff_ffff ==> JsonValue::Number(
            NumberValue::Whole(n),
        ).whole() is None,
        JsonValue::Number(NumberValue::Real(fraction)).whole() is None,
        JsonValue::Text(text).whole() is None,
        JsonValue::Text(text).truth() is None,
        JsonValue::Bool(truth).text() is None,
        JsonValue::Number(NumberValue::Whole(n)).text() is None,
        JsonValue::Null.text() is None,
        JsonValue::Null.items() is None,
{
}

} // verus!
