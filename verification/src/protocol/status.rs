//! The status (server list ping) exchange.
//!
//! Client: handshake(next_state=1) -> status request 0x00 -> ping 0x01.
//! Server: status response 0x00 (JSON) -> pong 0x01 (echoes the payload).

use vstd::prelude::*;
use vstd::string::StringExecFns;
use vstd::utf8::encode_utf8;

use crate::bytes::{
    be_bytes, be_round_trip, be_value, lemma_pow256_values, signed64, signed64_round_trip, unsigned64,
};
use crate::json::{print_json, printed, Json, JsonValue};
use crate::protocol::error::Error;
use crate::protocol::frame::{encode_packet, packet_at, packet_bytes, packet_round_trip, Packet};
use crate::protocol::varint::{varint_bytes, varint_round_trip};
use crate::protocol::wire::{string_at, string_bytes, string_round_trip, Writer};
use crate::text::{integer_text, push_integer};

verus! {

/// Packet id of the status request.
pub const STATUS_REQUEST_ID: i32 = 0x00;

/// Packet id of the latency ping.
pub const PING_REQUEST_ID: i32 = 0x01;

/// Packet id of the latency ping and of its answer.
pub const PING_ID: i32 = 0x01;

/// Packet id of the status response.
pub const STATUS_RESPONSE_ID: i32 = 0x00;

/// Packet id of the answer to the latency ping.
pub const PONG_RESPONSE_ID: i32 = 0x01;

/// What the server list shows.
#[derive(Debug)]
pub struct ServerStatus {
    pub version: VersionInfo,
    pub players: PlayerInfo,
    pub description: Json,
    pub favicon: Option<String>,
    /// 1.19.1+ clients show a warning toast when this is absent.
    pub enforces_secure_chat: Option<bool>,
}

/// Name and number of the version that the server speaks.
#[derive(Debug, Clone)]
pub struct VersionInfo {
    pub name: String,
    /// Reporting the client's own protocol number keeps the server from being
    /// drawn with the red "incompatible" cross in the server list.
    pub protocol: i32,
}

/// How many players there are, and some of them by name.
#[derive(Debug, Clone)]
pub struct PlayerInfo {
    pub max: i64,
    pub online: i64,
    pub sample: Vec<PlayerSample>,
}

impl Default for PlayerInfo {
    fn default() -> (players: Self)
        ensures
            players.max == 0,
            players.online == 0,
            players.sample@.len() == 0,
    {
        PlayerInfo { max: 0, online: 0, sample: Vec::new() }
    }
}

/// One line of the hover text.
#[derive(Debug, Clone)]
pub struct PlayerSample {
    pub name: String,
    pub id: String,
}

/// A server status as a value.
pub ghost struct StatusValue {
    pub version_name: Seq<char>,
    pub protocol: i32,
    pub max: i64,
    pub online: i64,
    /// Name and id of each line.
    pub sample: Seq<(Seq<char>, Seq<char>)>,
    pub description: JsonValue,
    pub favicon: Option<Seq<char>>,
    pub enforces_secure_chat: Option<bool>,
}

/// The id of entries that are not real players.
pub open spec fn nil_uuid() -> Seq<char> {
    "00000000-0000-0000-0000-000000000000"@
}

/// A JSON string literal.
pub open spec fn quoted(text: Seq<char>) -> Seq<char> {
    printed(JsonValue::Text(text))
}

/// The first `n` lines of the hover text as JSON objects.
pub open spec fn sample_json(sample: Seq<(Seq<char>, Seq<char>)>, n: nat) -> Seq<char>
    decreases n,
{
    if n == 0 || n > sample.len() {
        Seq::empty()
    } else {
        let (name, id) = sample[n - 1];
        sample_json(sample, (n - 1) as nat) + (if n > 1 {
            ","@
        } else {
            Seq::empty()
        }) + "{\"name\":"@ + quoted(name) + ",\"id\":"@ + quoted(id) + "}"@
    }
}

/// The status document. Absent fields are left out, and so is an empty sample.
pub open spec fn status_json(status: StatusValue) -> Seq<char> {
    let sample = if status.sample.len() == 0 {
        Seq::empty()
    } else {
        ",\"sample\":["@ + sample_json(status.sample, status.sample.len()) + "]"@
    };
    let favicon = match status.favicon {
        Some(favicon) => ",\"favicon\":"@ + quoted(favicon),
        None => Seq::empty(),
    };
    let secure_chat = match status.enforces_secure_chat {
        Some(true) => ",\"enforcesSecureChat\":true"@,
        Some(false) => ",\"enforcesSecureChat\":false"@,
        None => Seq::empty(),
    };
    "{\"version\":{\"name\":"@ + quoted(status.version_name) + ",\"protocol\":"@ + integer_text(
        status.protocol as int,
    ) + "},\"players\":{\"max\":"@ + integer_text(status.max as int) + ",\"online\":"@ + integer_text(
        status.online as int,
    ) + sample + "},\"description\":"@ + printed(status.description) + favicon + secure_chat + "}"@
}

impl PlayerSample {
    /// Hover-text line. The all-zero UUID is what servers conventionally use
    /// for entries that are not real players.
    pub fn line(text: String) -> (sample: Self)
        ensures
            sample.name@ == text@,
            sample.id@ == nil_uuid(),
    {
        Self { name: text, id: "00000000-0000-0000-0000-000000000000".to_owned() }
    }
}

/// Names and ids of the hover text.
pub open spec fn sample_values(sample: Seq<PlayerSample>) -> Seq<(Seq<char>, Seq<char>)> {
    sample.map_values(|line: PlayerSample| (line.name@, line.id@))
}

impl View for ServerStatus {
    type V = StatusValue;

    open spec fn view(&self) -> StatusValue {
        StatusValue {
            version_name: self.version.name@,
            protocol: self.version.protocol,
            max: self.players.max,
            online: self.players.online,
            sample: sample_values(self.players.sample@),
            description: self.description.value(),
            favicon: match self.favicon {
                Some(favicon) => Some(favicon@),
                None => None,
            },
            enforces_secure_chat: self.enforces_secure_chat,
        }
    }
}

/// Appends a JSON string literal.
fn push_quoted(out: &mut String, text: &String)
    ensures
        final(out)@ == old(out)@ + quoted(text@),
{
    let json = Json::Text(text.clone());
    out.append(print_json(&json).as_str());
}

/// Appends the lines of the hover text as JSON objects.
fn push_sample(out: &mut String, sample: &Vec<PlayerSample>)
    ensures
        final(out)@ == old(out)@ + sample_json(sample_values(sample@), sample@.len()),
{
    let ghost values = sample_values(sample@);
    let mut i: usize = 0;
    assert(out@ =~= out@ + sample_json(values, 0));
    while i < sample.len()
        invariant
            i <= sample@.len(),
            values == sample_values(sample@),
            out@ == old(out)@ + sample_json(values, i as nat),
        decreases sample@.len() - i,
    {
        if i > 0 {
            out.append(",");
        }
        out.append("{\"name\":");
        push_quoted(out, &sample[i].name);
        out.append(",\"id\":");
        push_quoted(out, &sample[i].id);
        out.append("}");
        i = i + 1;
        assert(out@ =~= old(out)@ + sample_json(values, i as nat));
    }
}

impl ServerStatus {
    /// The status document as JSON text.
    pub fn to_json(&self) -> (json: String)
        ensures
            json@ == status_json(self@),
    {
        let mut out = String::new();
        out.append("{\"version\":{\"name\":");
        push_quoted(&mut out, &self.version.name);
        out.append(",\"protocol\":");
        push_integer(&mut out, self.version.protocol as i128);
        out.append("},\"players\":{\"max\":");
        push_integer(&mut out, self.players.max as i128);
        out.append(",\"online\":");
        push_integer(&mut out, self.players.online as i128);
        if self.players.sample.len() > 0 {
            out.append(",\"sample\":[");
            push_sample(&mut out, &self.players.sample);
            out.append("]");
        }
        out.append("},\"description\":");
        out.append(print_json(&self.description).as_str());
        if let Some(favicon) = &self.favicon {
            out.append(",\"favicon\":");
            push_quoted(&mut out, favicon);
        }
        match self.enforces_secure_chat {
            Some(true) => out.append(",\"enforcesSecureChat\":true"),
            Some(false) => out.append(",\"enforcesSecureChat\":false"),
            None => {},
        }
        out.append("}");
        assert(out@ =~= status_json(self@));
        out
    }
}

/// The packet of a status response.
pub open spec fn status_response_bytes(json: Seq<char>) -> Seq<u8> {
    packet_bytes(STATUS_RESPONSE_ID, string_bytes(json))
}

/// The packet of a pong.
pub open spec fn pong_bytes(payload: i64) -> Seq<u8> {
    packet_bytes(PONG_RESPONSE_ID, be_bytes(unsigned64(payload), 8))
}

/// Status response packet carrying the JSON document.
pub fn encode_status_response(json: &str) -> (packet: Vec<u8>)
    ensures
        packet@ == status_response_bytes(json@),
{
    let mut w = Writer::new();
    w.string(json);
    assert(w@ =~= string_bytes(json@));
    encode_packet(STATUS_RESPONSE_ID, w.as_slice())
}

/// Pong. The payload must be echoed back unchanged: the client measures
/// latency from it.
pub fn encode_pong(payload: i64) -> (packet: Vec<u8>)
    ensures
        packet@ == pong_bytes(payload),
{
    let mut w = Writer::new();
    w.i64(payload);
    assert(w@ =~= be_bytes(unsigned64(payload), 8));
    encode_packet(PONG_RESPONSE_ID, w.as_slice())
}

/// A status response is read back as the document that it carries.
pub proof fn status_response_round_trip(json: Seq<char>, rest: Seq<u8>, max_size: nat, max_chars: nat)
    requires
        json.len() <= max_chars,
        encode_utf8(json).len() + 6 <= max_size,
        encode_utf8(json).len() + 6 <= i32::MAX,
    ensures
        packet_at(status_response_bytes(json) + rest, max_size) == Ok::<Packet, Error>(
            Packet {
                id: STATUS_RESPONSE_ID,
                body: string_bytes(json),
                total_len: status_response_bytes(json).len(),
            },
        ),
        string_at(string_bytes(json), max_chars).0 == Ok::<Seq<char>, Error>(json),
{
    varint_round_trip(encode_utf8(json).len() as i32, Seq::empty());
    assert(varint_bytes(STATUS_RESPONSE_ID).len() == 1) by {
        reveal_with_fuel(crate::protocol::varint::groups, 2);
    }
    packet_round_trip(STATUS_RESPONSE_ID, string_bytes(json), rest, max_size);
    string_round_trip(json, max_chars, Seq::empty());
    assert(string_bytes(json) + Seq::<u8>::empty() =~= string_bytes(json));
}

/// A pong carries exactly the payload of the ping.
pub proof fn pong_round_trip(payload: i64, rest: Seq<u8>, max_size: nat)
    requires
        max_size >= 9,
    ensures
        packet_at(pong_bytes(payload) + rest, max_size) == Ok::<Packet, Error>(
            Packet {
                id: PONG_RESPONSE_ID,
                body: be_bytes(unsigned64(payload), 8),
                total_len: pong_bytes(payload).len(),
            },
        ),
        signed64(be_value(be_bytes(unsigned64(payload), 8))) == payload,
{
    signed64_round_trip(payload);
    lemma_pow256_values();
    be_round_trip(unsigned64(payload), 8);
    assert(varint_bytes(PONG_RESPONSE_ID).len() == 1) by {
        reveal_with_fuel(crate::protocol::varint::groups, 2);
    }
    packet_round_trip(PONG_RESPONSE_ID, be_bytes(unsigned64(payload), 8), rest, max_size);
}

/// The document of a status without hover text, icon and chat setting.
pub open spec fn bare(status: StatusValue) -> StatusValue {
    StatusValue { sample: Seq::empty(), favicon: None, enforces_secure_chat: None, ..status }
}

/// Every field of a status stands in its document: the version and the players
/// always, the hover text behind the number of players where there is some, and
/// the icon and the chat setting at the end where they are set.
pub proof fn documents_hold_every_field(status: StatusValue, icon: Seq<char>, secure: bool)
    ensures
        ({
            let players = ",\"online\":"@ + integer_text(status.online as int);
            let front = "{\"version\":{\"name\":"@ + quoted(status.version_name)
                + ",\"protocol\":"@ + integer_text(status.protocol as int)
                + "},\"players\":{\"max\":"@ + integer_text(status.max as int) + players;
            let back = "},\"description\":"@ + printed(status.description) + "}"@;
            &&& status_json(bare(status)) == front + back
            &&& status.sample.len() > 0 ==> status_json(
                StatusValue { favicon: None, enforces_secure_chat: None, ..status },
            ) == front + ",\"sample\":["@ + sample_json(status.sample, status.sample.len()) + "]"@
                + back
        }),
        status_json(StatusValue { favicon: Some(icon), enforces_secure_chat: None, ..status })
            == status_json(
            StatusValue { favicon: None, enforces_secure_chat: None, ..status },
        ).drop_last() + ",\"favicon\":"@ + quoted(icon) + "}"@,
        status_json(StatusValue { enforces_secure_chat: Some(secure), ..status }) == status_json(
            StatusValue { enforces_secure_chat: None, ..status },
        ).drop_last() + ",\"enforcesSecureChat\":"@ + (if secure {
            "true"@
        } else {
            "false"@
        }) + "}"@,
{
    reveal_strlit("}");
    assert("}"@.len() == 1);
    let players = ",\"online\":"@ + integer_text(status.online as int);
    let front = "{\"version\":{\"name\":"@ + quoted(status.version_name) + ",\"protocol\":"@
        + integer_text(status.protocol as int) + "},\"players\":{\"max\":"@ + integer_text(
        status.max as int,
    ) + players;
    let back = "},\"description\":"@ + printed(status.description) + "}"@;
    assert(status_json(bare(status)) =~= front + back);
    let plain = StatusValue { favicon: None, enforces_secure_chat: None, ..status };
    if status.sample.len() > 0 {
        assert(status_json(plain) =~= front + ",\"sample\":["@ + sample_json(
            status.sample,
            status.sample.len(),
        ) + "]"@ + back);
    }
    assert(status_json(
        StatusValue { favicon: Some(icon), enforces_secure_chat: None, ..status },
    ) =~= status_json(plain).drop_last() + ",\"favicon\":"@ + quoted(icon) + "}"@);
    reveal_strlit(",\"enforcesSecureChat\":true");
    reveal_strlit(",\"enforcesSecureChat\":false");
    reveal_strlit(",\"enforcesSecureChat\":");
    reveal_strlit("true");
    reveal_strlit("false");
    assert(",\"enforcesSecureChat\":true"@ =~= ",\"enforcesSecureChat\":"@ + "true"@);
    assert(",\"enforcesSecureChat\":false"@ =~= ",\"enforcesSecureChat\":"@ + "false"@);
    let unsaid = StatusValue { enforces_secure_chat: None, ..status };
    assert(status_json(StatusValue { enforces_secure_chat: Some(secure), ..status }) =~= status_json(
        unsaid,
    ).drop_last() + ",\"enforcesSecureChat\":"@ + (if secure {
        "true"@
    } else {
        "false"@
    }) + "}"@);
}

/// One more line of hover text is one more object with its name and id, behind a
/// comma where others stand before it.
pub proof fn hover_lines_follow_each_other(
    sample: Seq<(Seq<char>, Seq<char>)>,
    name: Seq<char>,
    id: Seq<char>,
)
    ensures
        ({
            let all = sample.push((name, id));
            let object = "{\"name\":"@ + quoted(name) + ",\"id\":"@ + quoted(id) + "}"@;
            sample_json(all, all.len()) == if sample.len() == 0 {
                object
            } else {
                sample_json(sample, sample.len()) + ","@ + object
            }
        }),
{
    let all = sample.push((name, id));
    let object = "{\"name\":"@ + quoted(name) + ",\"id\":"@ + quoted(id) + "}"@;
    lemma_first_lines(sample, (name, id), sample.len());
    if sample.len() == 0 {
        assert(sample_json(all, 0) =~= Seq::<char>::empty());
        assert(sample_json(all, 1) =~= object);
    } else {
        assert(sample_json(all, all.len()) =~= sample_json(sample, sample.len()) + ","@ + object);
    }
}

proof fn lemma_first_lines(
    sample: Seq<(Seq<char>, Seq<char>)>,
    line: (Seq<char>, Seq<char>),
    n: nat,
)
    requires
        n <= sample.len(),
    ensures
        sample_json(sample.push(line), n) == sample_json(sample, n),
    decreases n,
{
    if n > 0 {
        lemma_first_lines(sample, line, (n - 1) as nat);
    }
}

/// The packets of the status exchange have the numbers of the protocol.
pub proof fn status_packets_have_their_ids()
    ensures
        STATUS_REQUEST_ID == 0,
        STATUS_RESPONSE_ID == 0,
        PING_REQUEST_ID == 1,
        PONG_RESPONSE_ID == 1,
        PING_ID == 1,
{
}

} // verus!
