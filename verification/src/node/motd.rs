//! Putting the node owner's lines into a server's MOTD, and answering for a
//! server that is not there.

use vstd::prelude::*;
use vstd::string::StringExecFns;

use crate::json::{
    entry_index, lemma_entry_index, lemma_entry_index_is, parse_json, parsed, print_json, printed,
    readable, Json, JsonValue, READ_DEPTH,
};
use crate::node::config::{Motd, Offline};
use crate::protocol::chat::{translate_colors, translated};
use crate::protocol::legacy_text::{legacy_text, to_legacy};
use crate::protocol::status::{
    status_json, PlayerInfo, PlayerSample, ServerStatus, StatusValue, VersionInfo,
};
use crate::text::{
    comes_before, lemma_split_first, lemma_split_none, lemma_text_less_trans, lemma_text_order,
    opt_text, push_chars, same_text, split, split_chars, text_less, to_chars, views,
};

verus! {

/// One line of the MOTD: the owner's, or else the server's own.
pub open spec fn line_or(owner: Option<Seq<char>>, own: Option<Seq<char>>) -> Option<Seq<char>> {
    match owner {
        Some(line) => Some(translated(line)),
        None => own,
    }
}

/// A MOTD with the owner's lines in place of the server's. A MOTD has two lines;
/// where the owner sets none, the server's own stays.
pub open spec fn with_lines(
    text: Seq<char>,
    line1: Option<Seq<char>>,
    line2: Option<Seq<char>>,
) -> Seq<char> {
    let lines = split(text, '\n');
    let own2 = if lines.len() > 1 {
        Some(lines[1])
    } else {
        None
    };
    let first = line_or(line1, Some(lines[0]))->Some_0;
    match line_or(line2, own2) {
        Some(second) => first + seq!['\n'] + second,
        None => first,
    }
}

/// A component that is plain text.
pub open spec fn text_component(text: Seq<char>) -> JsonValue {
    JsonValue::Object(seq![("text"@, JsonValue::Text(text))])
}

/// The MOTD that a status document shows, as legacy text.
pub open spec fn shown_motd(document: JsonValue) -> Seq<char> {
    match document.member("description"@) {
        Some(description) => legacy_text(description),
        None => Seq::empty(),
    }
}

/// Where a key belongs among entries: before the first key that it precedes.
pub open spec fn key_place(entries: Seq<(Seq<char>, JsonValue)>, key: Seq<char>) -> nat
    decreases entries.len(),
{
    if entries.len() == 0 || text_less(key, entries[0].0) {
        0
    } else {
        1 + key_place(entries.drop_first(), key)
    }
}

/// Entries with the value under `key` replaced, or added where the key belongs.
pub open spec fn replaced(
    entries: Seq<(Seq<char>, JsonValue)>,
    key: Seq<char>,
    value: JsonValue,
) -> Seq<(Seq<char>, JsonValue)> {
    let at = entry_index(entries, key) as int;
    if at < entries.len() {
        entries.update(at, (key, value))
    } else {
        entries.insert(key_place(entries, key) as int, (key, value))
    }
}

proof fn lemma_key_place(entries: Seq<(Seq<char>, JsonValue)>, key: Seq<char>)
    ensures
        key_place(entries, key) <= entries.len(),
        key_place(entries, key) < entries.len() ==> text_less(
            key,
            entries[key_place(entries, key) as int].0,
        ),
        forall|i: int|
            0 <= i < key_place(entries, key) ==> !text_less(key, (#[trigger] entries[i]).0),
    decreases entries.len(),
{
    if entries.len() > 0 && !text_less(key, entries[0].0) {
        let rest = entries.drop_first();
        lemma_key_place(rest, key);
        assert forall|i: int| 0 <= i < key_place(entries, key) implies !text_less(
            key,
            (#[trigger] entries[i]).0,
        ) by {
            if i > 0 {
                assert(entries[i] == rest[i - 1]);
            }
        }
    }
}

proof fn lemma_key_place_is(entries: Seq<(Seq<char>, JsonValue)>, key: Seq<char>, at: int)
    requires
        0 <= at <= entries.len(),
        at < entries.len() ==> text_less(key, entries[at].0),
        forall|i: int| 0 <= i < at ==> !text_less(key, (#[trigger] entries[i]).0),
    ensures
        key_place(entries, key) == at,
{
    lemma_key_place(entries, key);
}

/// A status document with the owner's lines in its MOTD; nothing where it is not
/// a status document, or where there are no lines.
pub open spec fn rewritten(
    document: JsonValue,
    line1: Option<Seq<char>>,
    line2: Option<Seq<char>>,
) -> Option<JsonValue> {
    match document {
        JsonValue::Object(entries) => if line1 is None && line2 is None {
            None
        } else {
            Some(
                JsonValue::Object(
                    replaced(
                        entries,
                        "description"@,
                        text_component(with_lines(shown_motd(document), line1, line2)),
                    ),
                ),
            )
        },
        _ => None,
    }
}

fn text_json(text: String) -> (json: Json)
    ensures
        json.value() == text_component(text@),
{
    let mut entries: Vec<(String, Json)> = Vec::new();
    let inner = Json::Text(text);
    assert(inner.value() == JsonValue::Text(text@));
    entries.push(("text".to_owned(), inner));
    let json = Json::Object(entries);
    assert(json.value()->Object_0 =~= seq![("text"@, JsonValue::Text(text@))]);
    json
}

/// A MOTD with the owner's lines in place of the server's.
pub fn replace_lines(text: &str, motd: &Motd) -> (out: String)
    ensures
        out@ == with_lines(text@, opt_text(motd.line1), opt_text(motd.line2)),
{
    let chars = to_chars(text);
    let lines = split_chars(chars.as_slice(), '\n');
    let ghost spelled = split(text@, '\n');
    assert(views(lines@).len() == lines@.len());
    assert(spelled.len() > 0);
    assert(forall|i: int| 0 <= i < lines@.len() ==> spelled[i] == lines@[i]@);
    let mut out = String::new();
    match &motd.line1 {
        Some(line) => out.append(translate_colors(line.as_str()).as_str()),
        None => push_chars(&mut out, lines[0].as_slice()),
    }
    let ghost first = out@;
    assert(first =~= line_or(opt_text(motd.line1), Some(spelled[0]))->Some_0);
    match &motd.line2 {
        Some(line) => {
            out.push('\n');
            out.append(translate_colors(line.as_str()).as_str());
        },
        None => if lines.len() > 1 {
            out.push('\n');
            push_chars(&mut out, lines[1].as_slice());
        },
    }
    assert(out@ =~= with_lines(text@, opt_text(motd.line1), opt_text(motd.line2)));
    out
}

/// Puts the owner's lines into a status document.
pub fn rewrite_document(document: Json, motd: &Motd) -> (r: Option<Json>)
    ensures
        match rewritten(document.value(), opt_text(motd.line1), opt_text(motd.line2)) {
            Some(value) => r is Some && r->Some_0.value() == value,
            None => r is None,
        },
{
    if !motd.rewrites_anything() {
        return None;
    }
    let ghost value = document.value();
    let own: String = match document.get("description") {
        Some(description) => to_legacy(description),
        None => String::new(),
    };
    assert(own@ =~= shown_motd(value));
    let text = replace_lines(own.as_str(), motd);
    let ghost component = text_component(text@);
    match document {
        Json::Object(old_entries) => {
            let ghost values = value->Object_0;
            let mut entries = old_entries;
            let mut i: usize = 0;
            while i < entries.len() && !same_text(entries[i].0.as_str(), "description")
                invariant
                    i <= entries@.len(),
                    values.len() == entries@.len(),
                    forall|j: int|
                        0 <= j < entries@.len() ==> (#[trigger] values[j]) == (
                            entries@[j].0@,
                            entries@[j].1.value(),
                        ),
                    forall|j: int| 0 <= j < i ==> (#[trigger] values[j]).0 != "description"@,
                decreases entries@.len() - i,
            {
                assert(values[i as int].0 != "description"@);
                i = i + 1;
            }
            proof {
                if i < entries@.len() {
                    assert(values[i as int].0 == "description"@);
                }
                lemma_entry_index_is(values, "description"@, i as int);
            }
            if i < entries.len() {
                let replacement = text_json(text);
                entries.set(i, ("description".to_owned(), replacement));
                let json = Json::Object(entries);
                assert(json.value()->Object_0 =~= replaced(values, "description"@, component));
                return Some(json);
            }
            let addition = text_json(text);
            let mut at: usize = 0;
            while at < entries.len() && !comes_before("description", entries[at].0.as_str())
                invariant
                    at <= entries@.len(),
                    values.len() == entries@.len(),
                    forall|j: int|
                        0 <= j < entries@.len() ==> (#[trigger] values[j]) == (
                            entries@[j].0@,
                            entries@[j].1.value(),
                        ),
                    forall|j: int|
                        0 <= j < at ==> !text_less("description"@, (#[trigger] values[j]).0),
                decreases entries@.len() - at,
            {
                assert(!text_less("description"@, values[at as int].0));
                at = at + 1;
            }
            proof {
                if at < entries@.len() {
                    assert(text_less("description"@, values[at as int].0));
                }
                lemma_key_place_is(values, "description"@, at as int);
            }
            entries.insert(at, ("description".to_owned(), addition));
            let json = Json::Object(entries);
            assert(json.value()->Object_0 =~= replaced(values, "description"@, component));
            Some(json)
        },
        _ => None,
    }
}

/// Puts the owner's lines into the status response of a server. Nothing comes
/// back where the response is not a JSON object, or where there are no lines:
/// then it is forwarded as it is.
pub fn rewrite_status(json: &str, motd: &Motd) -> (r: Option<String>)
    ensures
        match parsed(json@) {
            Some(document) => match rewritten(
                document,
                opt_text(motd.line1),
                opt_text(motd.line2),
            ) {
                Some(value) => {
                    &&& r is Some
                    &&& r->Some_0@ == printed(value)
                    &&& readable(value, READ_DEPTH as nat) ==> parsed(r->Some_0@) == Some(value)
                },
                None => r is None,
            },
            None => r is None,
        },
{
    match parse_json(json) {
        Some(document) => match rewrite_document(document, motd) {
            Some(document) => Some(print_json(&document)),
            None => None,
        },
        None => None,
    }
}

/// A protocol number that no client speaks.
pub const NO_PROTOCOL: i32 = -1;

/// The status that is shown for a server that is not there.
pub open spec fn offline_value(offline: Offline, motd: Motd) -> StatusValue {
    StatusValue {
        version_name: translated(offline.version@),
        protocol: NO_PROTOCOL,
        max: 0,
        online: 0,
        sample: Seq::empty(),
        description: text_component(
            with_lines(translated(offline.motd@), opt_text(motd.line1), opt_text(motd.line2)),
        ),
        favicon: None,
        enforces_secure_chat: None,
    }
}

/// The status document for a server that is not there. No client speaks its
/// protocol, so all of them show the version text in red.
pub fn offline_status(offline: &Offline, motd: &Motd) -> (json: String)
    ensures
        json@ == status_json(offline_value(*offline, *motd)),
{
    let text = replace_lines(translate_colors(offline.motd.as_str()).as_str(), motd);
    let sample: Vec<PlayerSample> = Vec::new();
    let status = ServerStatus {
        version: VersionInfo {
            name: translate_colors(offline.version.as_str()),
            protocol: NO_PROTOCOL,
        },
        players: PlayerInfo { max: 0, online: 0, sample },
        description: text_json(text),
        favicon: None,
        enforces_secure_chat: None,
    };
    assert(status@.sample =~= Seq::<(Seq<char>, Seq<char>)>::empty());
    assert(status@ == offline_value(*offline, *motd));
    status.to_json()
}

proof fn lemma_text_is_readable(text: Seq<char>, depth: nat)
    requires
        depth >= 1,
    ensures
        readable(text_component(text), depth),
{
    reveal_with_fuel(readable, 2);
}

/// The JSON text of a kick message.
pub fn kick_message(kick: &str) -> (json: String)
    ensures
        json@ == printed(text_component(translated(kick@))),
        parsed(json@) == Some(text_component(translated(kick@))),
{
    proof {
        lemma_text_is_readable(translated(kick@), READ_DEPTH as nat);
    }
    print_json(&text_json(translate_colors(kick)))
}

// -------------------------------------------------------------------- laws --

/// Only the MOTD changes: everything else in a server's status stays its own.
pub proof fn only_the_motd_changes(
    document: JsonValue,
    line1: Option<Seq<char>>,
    line2: Option<Seq<char>>,
    key: Seq<char>,
)
    requires
        rewritten(document, line1, line2) is Some,
        key != "description"@,
    ensures
        rewritten(document, line1, line2)->Some_0.member(key) == document.member(key),
{
    let entries = document->Object_0;
    let value = text_component(with_lines(shown_motd(document), line1, line2));
    let after = replaced(entries, "description"@, value);
    lemma_entry_index(entries, key);
    lemma_entry_index(entries, "description"@);
    lemma_entry_index(after, key);
    lemma_key_place(entries, "description"@);
    let at = entry_index(entries, key) as int;
    let added = entry_index(entries, "description"@) == entries.len();
    let place = key_place(entries, "description"@) as int;
    assert forall|i: int| 0 <= i < after.len() implies #[trigger] after[i] == (if !added {
        if i == entry_index(entries, "description"@) {
            ("description"@, value)
        } else {
            entries[i]
        }
    } else if i < place {
        entries[i]
    } else if i == place {
        ("description"@, value)
    } else {
        entries[i - 1]
    }) by {}
    let moved = if added && at >= place {
        at + 1
    } else {
        at
    };
    assert forall|i: int| 0 <= i < moved implies (#[trigger] after[i]).0 != key by {
        if !added || i < place {
            assert(entries[i].0 != key || i == entry_index(entries, "description"@));
        } else if i > place {
            assert(entries[i - 1].0 != key);
        }
    }
    if at < entries.len() {
        assert(after[moved] == entries[at]);
    }
    lemma_entry_index_is(after, key, moved);
}

/// The MOTD of a rewritten status is the server's own with the owner's lines.
pub proof fn the_motd_has_the_lines(
    document: JsonValue,
    line1: Option<Seq<char>>,
    line2: Option<Seq<char>>,
)
    requires
        rewritten(document, line1, line2) is Some,
    ensures
        rewritten(document, line1, line2)->Some_0.member("description"@) == Some(
            text_component(with_lines(shown_motd(document), line1, line2)),
        ),
{
    let entries = document->Object_0;
    let value = text_component(with_lines(shown_motd(document), line1, line2));
    let after = replaced(entries, "description"@, value);
    lemma_entry_index(entries, "description"@);
    lemma_key_place(entries, "description"@);
    let found = entry_index(entries, "description"@) as int;
    let at = if found < entries.len() {
        found
    } else {
        key_place(entries, "description"@) as int
    };
    assert forall|i: int| 0 <= i < at implies (#[trigger] after[i]).0 != "description"@ by {
        assert(entries[i].0 != "description"@);
    }
    lemma_entry_index_is(after, "description"@, at);
}

/// A document that reads as it is printed still does with the owner's lines in
/// its MOTD.
pub proof fn rewritten_documents_stay_readable(
    document: JsonValue,
    line1: Option<Seq<char>>,
    line2: Option<Seq<char>>,
    depth: nat,
)
    requires
        depth >= 2,
        readable(document, depth),
        rewritten(document, line1, line2) is Some,
    ensures
        readable(rewritten(document, line1, line2)->Some_0, depth),
{
    let entries = document->Object_0;
    let key = "description"@;
    let value = text_component(with_lines(shown_motd(document), line1, line2));
    let after = replaced(entries, key, value);
    lemma_entry_index(entries, key);
    lemma_key_place(entries, key);
    lemma_text_is_readable(with_lines(shown_motd(document), line1, line2), (depth - 1) as nat);
    let added = entry_index(entries, key) == entries.len();
    let place = key_place(entries, key) as int;
    // Where entry `i` stood before.
    let before = |i: int|
        if added && i > place {
            i - 1
        } else {
            i
        };
    assert forall|i: int| 0 <= i < after.len() implies readable(
        (#[trigger] after[i]).1,
        (depth - 1) as nat,
    ) by {
        if !(added && i == place) {
            assert(readable(entries[before(i)].1, (depth - 1) as nat));
        }
    }
    assert forall|i: int, j: int| 0 <= i < j < after.len() implies text_less(
        (#[trigger] after[i]).0,
        (#[trigger] after[j]).0,
    ) by {
        if added && i == place {
            let y = before(j);
            if y > place {
                assert(text_less(entries[place].0, entries[y].0));
                lemma_text_less_trans(key, entries[place].0, entries[y].0);
            }
        } else if added && j == place {
            assert(entries[i].0 != key);
            lemma_text_order(key, entries[i].0);
        } else {
            assert(text_less(entries[before(i)].0, entries[before(j)].0));
        }
    }
}

/// Where the owner sets only the second line, the first line stays the server's,
/// and the second is the owner's.
pub proof fn first_line_stays_theirs(text: Seq<char>, line2: Seq<char>)
    requires
        !translated(line2).contains('\n'),
    ensures
        split(with_lines(text, None, Some(line2)), '\n') == seq![
            split(text, '\n')[0],
            translated(line2),
        ],
{
    let first = split(text, '\n')[0];
    crate::text::lemma_find(text, '\n');
    assert(!first.contains('\n')) by {
        if first.contains('\n') {
            let i = choose|i: int| 0 <= i < first.len() && first[i] == '\n';
            assert(text[i] == '\n');
        }
    }
    lemma_split_first(first, '\n', translated(line2));
    lemma_split_none(translated(line2), '\n');
    assert(split(with_lines(text, None, Some(line2)), '\n') =~= seq![first, translated(line2)]);
}

/// Rewriting a MOTD a second time changes nothing more.
pub proof fn rewriting_is_idempotent(text: Seq<char>, line1: Option<Seq<char>>, line2: Seq<char>)
    requires
        !translated(line2).contains('\n'),
        line1 is Some ==> !translated(line1->Some_0).contains('\n'),
    ensures
        with_lines(with_lines(text, line1, Some(line2)), line1, Some(line2)) == with_lines(
            text,
            line1,
            Some(line2),
        ),
{
    let once = with_lines(text, line1, Some(line2));
    if line1 is None {
        first_line_stays_theirs(text, line2);
    }
}

/// Of a server's MOTD the first two lines are shown: each is the owner's where
/// the owner sets it, with its colours translated, and else the server's own.
/// What stands behind the second line is dropped.
pub proof fn owners_lines_replace_the_servers(
    first: Seq<char>,
    second: Seq<char>,
    rest: Seq<char>,
    line1: Seq<char>,
    line2: Seq<char>,
)
    requires
        !first.contains('\n'),
        !second.contains('\n'),
    ensures
        with_lines(first, Some(line1), Some(line2)) == translated(line1) + seq!['\n'] + translated(
            line2,
        ),
        with_lines(first, Some(line1), None) == translated(line1),
        with_lines(first, None, Some(line2)) == first + seq!['\n'] + translated(line2),
        with_lines(first, None, None) == first,
        ({
            let two = first + seq!['\n'] + second;
            &&& with_lines(two, Some(line1), Some(line2)) == translated(line1) + seq!['\n']
                + translated(line2)
            &&& with_lines(two, Some(line1), None) == translated(line1) + seq!['\n'] + second
            &&& with_lines(two, None, Some(line2)) == first + seq!['\n'] + translated(line2)
            &&& with_lines(two, None, None) == two
            &&& with_lines(first + seq!['\n'] + (second + seq!['\n'] + rest), None, None) == two
            &&& with_lines(first + seq!['\n'] + (second + seq!['\n'] + rest), Some(line1), None)
                == translated(line1) + seq!['\n'] + second
        }),
{
    let tail = second + seq!['\n'] + rest;
    lemma_split_none(first, '\n');
    lemma_split_none(second, '\n');
    lemma_split_first(first, '\n', second);
    lemma_split_first(second, '\n', rest);
    lemma_split_first(first, '\n', tail);
    assert(split(first, '\n')[0] == first);
    let two = split(first + seq!['\n'] + second, '\n');
    assert(two[0] == first && two[1] == second);
    let more = split(first + seq!['\n'] + tail, '\n');
    assert(more[0] == first && more[1] == split(tail, '\n')[0]);
    assert(split(tail, '\n')[0] == second);
}

/// Only a status document is rewritten, and only where there is a line to put
/// in.
pub proof fn only_status_documents_are_rewritten(
    document: JsonValue,
    line1: Option<Seq<char>>,
    line2: Option<Seq<char>>,
)
    ensures
        !(document is Object) ==> rewritten(document, line1, line2) is None,
        line1 is None && line2 is None ==> rewritten(document, line1, line2) is None,
        document is Object && (line1 is Some || line2 is Some) ==> rewritten(document, line1, line2)
            is Some,
{
}

/// The MOTD that a server shows is its description as legacy text, and nothing
/// where it has none; the new one is a component of nothing but text.
pub proof fn descriptions_are_read_and_written_as_text(
    document: JsonValue,
    description: JsonValue,
    text: Seq<char>,
)
    ensures
        document.member("description"@) == Some(description) ==> shown_motd(document)
            == legacy_text(description),
        document.member("description"@) is None ==> shown_motd(document) == Seq::<char>::empty(),
        text_component(text).member("text"@) == Some(JsonValue::Text(text)),
        text_component(text) is Object && text_component(text)->Object_0.len() == 1,
{
    let entries = seq![("text"@, JsonValue::Text(text))];
    lemma_entry_index_is(entries, "text"@, 0);
}

/// A server that is not there shows the configured text with the owner's lines,
/// the configured version under a number that no client speaks, and nobody.
pub proof fn absent_servers_show_the_offline_text(offline: Offline, motd: Motd)
    ensures
        ({
            let shown = offline_value(offline, motd);
            &&& shown.version_name == translated(offline.version@)
            &&& shown.protocol == -1
            &&& shown.max == 0
            &&& shown.online == 0
            &&& shown.sample.len() == 0
            &&& shown.favicon is None
            &&& shown.enforces_secure_chat is None
            &&& shown.description == text_component(
                with_lines(
                    translated(offline.motd@),
                    opt_text(motd.line1),
                    opt_text(motd.line2),
                ),
            )
        }),
{
}

} // verus!
