//! Building the status response the gateway answers with.
//!
//! Answering here instead of proxying to a backend is what makes the server
//! list independent of the backends: restarts, crashes and maintenance windows
//! all look like a normal MOTD to the outside world.

use base64::Engine;
use vstd::prelude::*;
use vstd::slice::slice_subrange;
use vstd::string::StringExecFns;

use crate::bytes::{
    be_bytes, be_round_trip, be_value, lemma_be_value_bound, lemma_pow256_values, read_be,
    same_bytes,
};
use crate::config::model::{Motd, MotdValue, PlayerSource};
use crate::protocol::chat::{
    component, component_value, pasted_json, translate_colors, translated,
};
use crate::protocol::status::{
    nil_uuid, PlayerInfo, PlayerSample, ServerStatus, StatusValue, VersionInfo,
};
use crate::text::{decimal, glue3, glue5, push_decimal};

verus! {

/// Everything that varies per ping.
#[derive(Debug, Clone, Copy)]
pub struct MotdContext<'a> {
    /// Protocol number the client announced in its handshake.
    pub client_protocol: i32,
    /// Sessions currently proxied, for `players: sessions`.
    pub sessions: i64,
    /// Players the backends report, for `players: backends`.
    pub reported: i64,
    /// Pre-encoded `data:image/png;base64,...`.
    pub favicon: Option<&'a str>,
    /// No healthy backend for this route.
    pub offline: bool,
}

/// Protocol number that makes a client render the entry as incompatible, which
/// is the clearest way to say "this is up, that server is not".
pub const INCOMPATIBLE: i32 = -1;

/// The hover text with its colours translated, one nameless player per line.
pub open spec fn sample_lines(lines: Seq<Seq<char>>) -> Seq<(Seq<char>, Seq<char>)> {
    lines.map_values(|line: Seq<char>| (translated(line), nil_uuid()))
}

/// The status that a MOTD shows for one ping.
pub open spec fn shown_status(motd: MotdValue, ctx: MotdContext<'_>) -> StatusValue {
    let text = if ctx.offline {
        motd.offline_text
    } else {
        motd.text
    };
    StatusValue {
        version_name: motd.version_name,
        protocol: if ctx.offline && motd.offline_incompatible {
            INCOMPATIBLE
        } else {
            motd.protocol.reported(ctx.client_protocol)
        },
        max: motd.max_players,
        online: if ctx.offline {
            0
        } else {
            match motd.players {
                PlayerSource::Sessions => ctx.sessions,
                PlayerSource::Static => motd.online,
                PlayerSource::Backends => ctx.reported,
            }
        },
        sample: sample_lines(motd.sample),
        description: component_value(text, pasted_json(text)),
        favicon: match ctx.favicon {
            Some(favicon) => Some(favicon@),
            None => None,
        },
        enforces_secure_chat: motd.enforces_secure_chat,
    }
}

/// Builds the status for one ping.
pub fn build(motd: &Motd, ctx: MotdContext<'_>) -> (status: ServerStatus)
    ensures
        status@ == shown_status(motd@, ctx),
{
    let offline = ctx.offline;
    let text = if offline {
        motd.offline.text.as_str()
    } else {
        motd.text.as_str()
    };
    let protocol: i32 = if offline && motd.offline.mark_incompatible {
        INCOMPATIBLE
    } else {
        motd.protocol.resolve(ctx.client_protocol)
    };
    let online: i64 = if offline {
        0
    } else {
        match motd.players {
            PlayerSource::Sessions => ctx.sessions,
            PlayerSource::Static => motd.online,
            PlayerSource::Backends => ctx.reported,
        }
    };
    let mut sample: Vec<PlayerSample> = Vec::new();
    let mut i: usize = 0;
    while i < motd.sample.len()
        invariant
            i <= motd.sample@.len(),
            sample@.len() == i,
            forall|k: int|
                0 <= k < i ==> (#[trigger] sample@[k]).name@ == translated(motd.sample@[k]@)
                    && sample@[k].id@ == nil_uuid(),
        decreases motd.sample@.len() - i,
    {
        sample.push(PlayerSample::line(translate_colors(motd.sample[i].as_str())));
        i = i + 1;
    }
    let favicon = match ctx.favicon {
        Some(favicon) => Some(favicon.to_owned()),
        None => None,
    };
    let status = ServerStatus {
        version: VersionInfo { name: motd.version_name.clone(), protocol },
        players: PlayerInfo { max: motd.max_players, online, sample },
        description: component(text),
        favicon,
        enforces_secure_chat: motd.enforces_secure_chat,
    };
    assert(status@.sample =~= sample_lines(motd@.sample));
    status
}

// ------------------------------------------------------------------ favicon --

/// Why a favicon cannot be used.
#[derive(Debug, Clone, PartialEq, Eq)]
pub enum FaviconError {
    /// The file cannot be read.
    Io { path: String, reason: String },
    /// The file is not a PNG.
    NotPng { path: String },
    /// Minecraft requires exactly 64x64.
    WrongSize { path: String, width: u32, height: u32 },
}

/// An error in words.
pub open spec fn favicon_error_text(error: FaviconError) -> Seq<char> {
    match error {
        FaviconError::Io { path, reason } => "cannot read favicon "@ + path@ + ": "@ + reason@ + ""@,
        FaviconError::NotPng { path } => "favicon "@ + path@ + " is not a PNG file"@,
        FaviconError::WrongSize { path, width, height } => "favicon "@ + path@ + " is "@ + decimal(
            width as nat,
        ) + "x"@ + decimal(height as nat) + "; Minecraft requires exactly 64x64"@,
    }
}

impl FaviconError {
    /// The error in words.
    pub fn to_text(&self) -> (text: String)
        ensures
            text@ == favicon_error_text(*self),
    {
        match self {
            FaviconError::Io { path, reason } => glue5(
                "cannot read favicon ",
                path.as_str(),
                ": ",
                reason.as_str(),
                "",
            ),
            FaviconError::NotPng { path } => glue3(
                "favicon ",
                path.as_str(),
                " is not a PNG file",
            ),
            FaviconError::WrongSize { path, width, height } => {
                let mut text = glue3("favicon ", path.as_str(), " is ");
                push_decimal(&mut text, *width as u128);
                text.append("x");
                push_decimal(&mut text, *height as u128);
                text.append("; Minecraft requires exactly 64x64");
                text
            },
        }
    }
}

/// The first bytes of every PNG file.
pub const PNG_SIGNATURE: [u8; 8] = [0x89, 0x50, 0x4E, 0x47, 0x0D, 0x0A, 0x1A, 0x0A];

/// The name of the first chunk, `IHDR`.
pub const IHDR: [u8; 4] = [0x49, 0x48, 0x44, 0x52];

/// Width and height of a PNG image, as its header says.
pub open spec fn png_size(bytes: Seq<u8>) -> Option<(u32, u32)> {
    if bytes.len() >= 24 && bytes.subrange(0, 8) == PNG_SIGNATURE@ && bytes.subrange(12, 16)
        == IHDR@ {
        Some((be_value(bytes.subrange(16, 20)) as u32, be_value(bytes.subrange(20, 24)) as u32))
    } else {
        None
    }
}

fn read_u32(bytes: &[u8], at: usize) -> (n: u32)
    requires
        at + 4 <= bytes@.len(),
    ensures
        n == be_value(bytes@.subrange(at as int, at + 4)),
{
    assert(at + 4 <= bytes.len());
    let field = slice_subrange(bytes, at, at + 4);
    proof {
        lemma_be_value_bound(field@);
        lemma_pow256_values();
    }
    read_be(field) as u32
}

/// Reads width and height straight out of the PNG signature and IHDR chunk.
pub fn png_dimensions(bytes: &[u8]) -> (size: Option<(u32, u32)>)
    ensures
        size == png_size(bytes@),
{
    if bytes.len() < 24 || !same_bytes(slice_subrange(bytes, 0, 8), PNG_SIGNATURE.as_slice())
        || !same_bytes(slice_subrange(bytes, 12, 16), IHDR.as_slice()) {
        return None;
    }
    Some((read_u32(bytes, 16), read_u32(bytes, 20)))
}

/// The text that `base64` makes of bytes, with the standard alphabet and padding.
pub uninterp spec fn base64_text(bytes: Seq<u8>) -> Seq<char>;

/// `base64::engine::general_purpose::STANDARD.encode`. What is written is left
/// to `base64` under a name.
#[verifier::external_body]
fn base64_encode(bytes: &[u8]) -> (text: String)
    ensures
        text@ == base64_text(bytes@),
{
    base64::engine::general_purpose::STANDARD.encode(bytes)
}

/// The `data:` URL of base64 text.
pub open spec fn data_url(encoded: Seq<char>) -> Seq<char> {
    "data:image/png;base64,"@ + encoded
}

/// Turns the bytes of a favicon into the `data:` URL the protocol expects.
///
/// The size is checked here because a wrong one is not a visible error: clients
/// simply drop the whole status response, and the server looks offline.
pub fn favicon_url(path: &str, bytes: &[u8]) -> (r: Result<String, FaviconError>)
    ensures
        match png_size(bytes@) {
            None => r is Err && r->Err_0 is NotPng && r->Err_0->NotPng_path@ == path@,
            Some((width, height)) => if width == 64 && height == 64 {
                r is Ok && r->Ok_0@ == data_url(base64_text(bytes@))
            } else {
                r is Err && r->Err_0 is WrongSize && r->Err_0->WrongSize_path@ == path@
                    && r->Err_0->width == width && r->Err_0->height == height
            },
        },
{
    match png_dimensions(bytes) {
        None => Err(FaviconError::NotPng { path: path.to_owned() }),
        Some((width, height)) => {
            if width != 64 || height != 64 {
                return Err(FaviconError::WrongSize { path: path.to_owned(), width, height });
            }
            let mut url = String::new();
            url.append("data:image/png;base64,");
            url.append(base64_encode(bytes).as_str());
            assert(url@ =~= data_url(base64_text(bytes@)));
            Ok(url)
        },
    }
}

// -------------------------------------------------------------------- laws --

/// A server without a healthy backend is shown as empty, and as incompatible
/// where that is configured.
pub proof fn offline_is_shown(motd: MotdValue, ctx: MotdContext<'_>)
    requires
        ctx.offline,
    ensures
        shown_status(motd, ctx).online == 0,
        motd.offline_incompatible ==> shown_status(motd, ctx).protocol == INCOMPATIBLE,
        shown_status(motd, ctx).description == component_value(
            motd.offline_text,
            pasted_json(motd.offline_text),
        ),
{
}

/// With the automatic policy every client sees its own protocol number.
pub proof fn auto_protocol_mirrors_the_client(motd: MotdValue, ctx: MotdContext<'_>)
    requires
        motd.protocol == crate::config::model::ProtocolPolicy::Auto,
        !ctx.offline,
    ensures
        shown_status(motd, ctx).protocol == ctx.client_protocol,
{
}

/// While a backend is up, a ping shows the MOTD's text, the protocol by its
/// policy and the players by their source; while none is up, it shows the
/// offline text and nobody. The rest is the same either way.
pub proof fn pings_show_the_motd(motd: MotdValue, ctx: MotdContext<'_>)
    ensures
        ({
            let shown = shown_status(motd, ctx);
            &&& shown.version_name == motd.version_name
            &&& shown.max == motd.max_players
            &&& shown.enforces_secure_chat == motd.enforces_secure_chat
            &&& ctx.favicon is Some ==> shown.favicon == Some(ctx.favicon->Some_0@)
            &&& ctx.favicon is None ==> shown.favicon is None
            &&& shown.sample.len() == motd.sample.len()
            &&& forall|i: int|
                0 <= i < motd.sample.len() ==> (#[trigger] shown.sample[i]).0 == translated(
                    motd.sample[i],
                ) && shown.sample[i].1 == "00000000-0000-0000-0000-000000000000"@
            &&& !ctx.offline ==> shown.description == component_value(
                motd.text,
                pasted_json(motd.text),
            )
            &&& !ctx.offline && motd.players == PlayerSource::Sessions ==> shown.online
                == ctx.sessions
            &&& !ctx.offline && motd.players == PlayerSource::Static ==> shown.online
                == motd.online
            &&& !ctx.offline && motd.players == PlayerSource::Backends ==> shown.online
                == ctx.reported
            &&& ctx.offline ==> shown.online == 0
            &&& ctx.offline && motd.offline_incompatible ==> shown.protocol == -1
            &&& !(ctx.offline && motd.offline_incompatible) && motd.protocol is Auto
                ==> shown.protocol == ctx.client_protocol
            &&& !(ctx.offline && motd.offline_incompatible) && motd.protocol is Fixed
                ==> shown.protocol == motd.protocol->Fixed_0
        }),
{
}

/// An image is a PNG where it begins with the signature, a chunk length and
/// `IHDR`; then come the width and the height in four bytes each.
pub proof fn images_say_their_size(
    chunk: Seq<u8>,
    width: u32,
    height: u32,
    rest: Seq<u8>,
    bytes: Seq<u8>,
)
    requires
        chunk.len() == 4,
    ensures
        png_size(
            seq![0x89u8, 0x50, 0x4E, 0x47, 0x0D, 0x0A, 0x1A, 0x0A] + chunk + seq![
                0x49u8,
                0x48,
                0x44,
                0x52,
            ] + be_bytes(width as nat, 4) + be_bytes(height as nat, 4) + rest,
        ) == Some((width, height)),
        bytes.len() < 24 ==> png_size(bytes) is None,
        bytes.len() >= 8 && bytes.take(8) != seq![
            0x89u8,
            0x50,
            0x4E,
            0x47,
            0x0D,
            0x0A,
            0x1A,
            0x0A,
        ] ==> png_size(bytes) is None,
        bytes.len() >= 16 && bytes.subrange(12, 16) != seq![0x49u8, 0x48, 0x44, 0x52] ==> png_size(
            bytes,
        ) is None,
{
    let signature = seq![0x89u8, 0x50, 0x4E, 0x47, 0x0D, 0x0A, 0x1A, 0x0A];
    let name = seq![0x49u8, 0x48, 0x44, 0x52];
    assert(PNG_SIGNATURE@ =~= signature);
    assert(IHDR@ =~= name);
    lemma_pow256_values();
    be_round_trip(width as nat, 4);
    be_round_trip(height as nat, 4);
    let all = signature + chunk + name + be_bytes(width as nat, 4) + be_bytes(height as nat, 4)
        + rest;
    assert(all.subrange(0, 8) =~= signature);
    assert(all.subrange(12, 16) =~= name);
    assert(all.subrange(16, 20) =~= be_bytes(width as nat, 4));
    assert(all.subrange(20, 24) =~= be_bytes(height as nat, 4));
    if bytes.len() >= 8 {
        assert(bytes.subrange(0, 8) =~= bytes.take(8));
    }
}

/// The address of an icon holds the image in base64.
pub proof fn icons_are_data_urls(encoded: Seq<char>)
    ensures
        data_url(encoded) == "data:image/png;base64,"@ + encoded,
{
}

/// An icon that cannot be used is told by its path and what is wrong with it.
pub proof fn bad_icons_are_told_apart(path: String, reason: String, width: u32, height: u32)
    ensures
        favicon_error_text(FaviconError::NotPng { path }) == "favicon "@ + path@
            + " is not a PNG file"@,
        favicon_error_text(FaviconError::WrongSize { path, width, height }) == "favicon "@ + path@
            + " is "@ + decimal(width as nat) + "x"@ + decimal(height as nat)
            + "; Minecraft requires exactly 64x64"@,
        favicon_error_text(FaviconError::Io { path, reason }) == "cannot read favicon "@ + path@
            + ": "@ + reason@,
{
    reveal_strlit("");
    assert(""@ =~= Seq::<char>::empty());
    assert("cannot read favicon "@ + path@ + ": "@ + reason@ + ""@ =~= "cannot read favicon "@
        + path@ + ": "@ + reason@);
}

} // verus!
