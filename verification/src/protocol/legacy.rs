//! Legacy server list ping, used by clients up to 1.6.4.
//!
//! These clients never send a VarInt-framed handshake, so the very first byte
//! has to be sniffed before the modern parser touches the buffer. Without this
//! an old client sees a connection reset instead of a MOTD.

use vstd::prelude::*;
use vstd::string::StringExecFns;

use crate::bytes::{be_bytes, push_be};
use crate::protocol::chat::{strip_formatting, stripped, SECTION};
use crate::text::{
    find, find_char, integer_text, lemma_find, lemma_find_is, lemma_integer_contains,
    lemma_split_first, lemma_split_none, lemma_trim_contains, push_chars, push_integer, split,
    sub_chars, to_chars, trim, trim_chars,
};

verus! {

/// First byte of every legacy ping.
pub const LEGACY_PING_BYTE: u8 = 0xFE;

/// Server -> client kick/disconnect packet, which doubles as the ping reply.
pub const LEGACY_KICK_ID: u8 = 0xFF;

/// The two forms of the old ping.
#[derive(Debug, Clone, Copy, PartialEq, Eq, Structural)]
pub enum LegacyPing {
    /// Beta 1.8 - 1.3: a bare `0xFE`. Reply has no protocol/version fields.
    Pre13,
    /// 1.4 - 1.6: `0xFE 0x01`, optionally followed by a plugin message with the
    /// hostname the client used. The extended reply format applies.
    Post14,
}

/// Which old ping `bytes` are, if any.
pub open spec fn legacy_ping(bytes: Seq<u8>) -> Option<LegacyPing> {
    if bytes.len() == 0 || bytes[0] != LEGACY_PING_BYTE {
        None
    } else if bytes.len() > 1 && bytes[1] == 0x01 {
        Some(LegacyPing::Post14)
    } else {
        Some(LegacyPing::Pre13)
    }
}

/// Classifies the first bytes on a connection.
///
/// `None` means "this is not a legacy ping": hand the buffer to the modern
/// parser. Legacy clients send so little that one byte is enough to decide. A
/// lone 0xFE is ambiguous until a second byte arrives or the client stops
/// sending; it counts as the old form so that the socket does not hang.
pub fn detect(buf: &[u8]) -> (ping: Option<LegacyPing>)
    ensures
        ping == legacy_ping(buf@),
{
    if buf.len() == 0 || buf[0] != LEGACY_PING_BYTE {
        None
    } else if buf.len() > 1 && buf[1] == 0x01 {
        Some(LegacyPing::Post14)
    } else {
        Some(LegacyPing::Pre13)
    }
}

/// The UTF-16 code units of a text.
pub open spec fn utf16(s: Seq<char>) -> Seq<u16>
    decreases s.len(),
{
    if s.len() == 0 {
        Seq::empty()
    } else {
        let c = s.last() as u32 as nat;
        let units = if c < 0x10000 {
            seq![c as u16]
        } else {
            seq![
                (0xD800 + (c - 0x10000) / 0x400) as u16,
                (0xDC00 + (c - 0x10000) % 0x400) as u16,
            ]
        };
        utf16(s.drop_last()) + units
    }
}

/// Code units, each in two bytes, high byte first.
pub open spec fn units_bytes(units: Seq<u16>) -> Seq<u8>
    decreases units.len(),
{
    if units.len() == 0 {
        Seq::empty()
    } else {
        units_bytes(units.drop_last()) + be_bytes(units.last() as nat, 2)
    }
}

/// Delimiters turned into blanks.
pub open spec fn blanked(s: Seq<char>) -> Seq<char> {
    s.map_values(
        |c: char|
            if c == '\0' || c == SECTION {
                ' '
            } else {
                c
            },
    )
}

/// The MOTD as an old client can show it: the first line, without formatting
/// and without a delimiter.
pub open spec fn legacy_motd(motd: Seq<char>) -> Seq<char> {
    let clean = blanked(stripped(motd));
    trim(clean.take(find(clean, '\n') as int))
}

/// The text of the reply.
pub open spec fn legacy_payload(
    kind: LegacyPing,
    protocol: int,
    version: Seq<char>,
    motd: Seq<char>,
    online: int,
    max: int,
) -> Seq<char> {
    match kind {
        LegacyPing::Post14 => seq![SECTION, '1'] + seq!['\0'] + (integer_text(protocol) + seq!['\0']
            + (version + seq!['\0'] + (legacy_motd(motd) + seq!['\0'] + (integer_text(online)
            + seq!['\0'] + integer_text(max))))),
        LegacyPing::Pre13 => legacy_motd(motd) + seq![SECTION] + (integer_text(online)
            + seq![SECTION] + integer_text(max)),
    }
}

/// The packet that carries a reply: `0xFF`, a UTF-16 character count, then
/// UTF-16BE.
pub open spec fn legacy_packet(payload: Seq<char>) -> Seq<u8> {
    seq![LEGACY_KICK_ID] + be_bytes(utf16(payload).len(), 2) + units_bytes(utf16(payload))
}

/// The UTF-16 code units of a text.
fn encode_utf16(chars: &[char]) -> (units: Vec<u16>)
    ensures
        units@ == utf16(chars@),
{
    let mut units: Vec<u16> = Vec::new();
    let mut i: usize = 0;
    while i < chars.len()
        invariant
            i <= chars@.len(),
            units@ == utf16(chars@.take(i as int)),
        decreases chars@.len() - i,
    {
        let c: u32 = chars[i] as u32;
        let ghost before = units@;
        if c < 0x10000 {
            units.push(c as u16);
        } else {
            units.push((0xD800 + (c - 0x10000) / 0x400) as u16);
            units.push((0xDC00 + (c - 0x10000) % 0x400) as u16);
        }
        proof {
            let more = chars@.take(i + 1);
            assert(more.drop_last() =~= chars@.take(i as int));
            assert(more.last() == chars@[i as int]);
            assert(more.last() as u32 == c);
            if c < 0x10000 {
                assert(units@ =~= before + seq![c as u16]);
                assert(units@ =~= utf16(more));
            } else {
                assert(utf16(more) == utf16(more.drop_last()) + seq![
                    (0xD800 + (c as nat - 0x10000) / 0x400) as u16,
                    (0xDC00 + (c as nat - 0x10000) % 0x400) as u16,
                ]);
            }
            assert(units@ =~= utf16(more));
        }
        i = i + 1;
    }
    assert(chars@.take(i as int) =~= chars@);
    units
}

/// Appends code units, high byte first.
fn push_units(out: &mut Vec<u8>, units: &[u16])
    ensures
        final(out)@ == old(out)@ + units_bytes(units@),
{
    let mut i: usize = 0;
    assert(units@.take(0) =~= Seq::<u16>::empty());
    assert(out@ =~= out@ + units_bytes(units@.take(0)));
    while i < units.len()
        invariant
            i <= units@.len(),
            out@ == old(out)@ + units_bytes(units@.take(i as int)),
        decreases units@.len() - i,
    {
        push_be(out, units[i] as u128, 2);
        i = i + 1;
        proof {
            let more = units@.take(i as int);
            assert(more.drop_last() =~= units@.take(i - 1));
            assert(out@ =~= old(out)@ + units_bytes(more));
        }
    }
    assert(units@.take(i as int) =~= units@);
}

/// The MOTD as an old client can show it.
fn sanitised(motd: &str) -> (line: Vec<char>)
    ensures
        line@ == legacy_motd(motd@),
{
    let mut clean: Vec<char> = to_chars(strip_formatting(motd).as_str());
    let ghost plain = clean@;
    let mut i: usize = 0;
    while i < clean.len()
        invariant
            i <= clean@.len(),
            clean@.len() == plain.len(),
            clean@ == blanked(plain.take(i as int)) + plain.skip(i as int),
        decreases clean@.len() - i,
    {
        let c: char = clean[i];
        assert(c == plain[i as int]);
        if c == '\0' || c == SECTION {
            clean.set(i, ' ');
        }
        i = i + 1;
        assert(clean@ =~= blanked(plain.take(i as int)) + plain.skip(i as int));
    }
    assert(clean@ =~= blanked(plain));
    let end: usize = find_char(clean.as_slice(), '\n');
    let line = sub_chars(clean.as_slice(), 0, end);
    assert(line@ =~= clean@.take(end as int));
    vstd::slice::slice_to_vec(trim_chars(line))
}

/// Builds the legacy reply: `0xFF`, a UTF-16 character count, then UTF-16BE.
///
/// Legacy clients split the fields on a delimiter, so it must not occur inside
/// the MOTD.
pub fn encode_response(
    kind: LegacyPing,
    protocol: i32,
    version: &str,
    motd: &str,
    online: i64,
    max: i64,
) -> (packet: Vec<u8>)
    ensures
        packet@ == legacy_packet(
            legacy_payload(
                kind,
                protocol as int,
                version@,
                motd@,
                online as int,
                max as int,
            ),
        ),
{
    let line = sanitised(motd);
    let mut payload = String::new();
    match kind {
        LegacyPing::Post14 => {
            payload.push(SECTION);
            payload.push('1');
            payload.push('\0');
            push_integer(&mut payload, protocol as i128);
            payload.push('\0');
            payload.append(version);
            payload.push('\0');
            push_chars(&mut payload, line.as_slice());
            payload.push('\0');
            push_integer(&mut payload, online as i128);
            payload.push('\0');
            push_integer(&mut payload, max as i128);
        },
        LegacyPing::Pre13 => {
            push_chars(&mut payload, line.as_slice());
            payload.push(SECTION);
            push_integer(&mut payload, online as i128);
            payload.push(SECTION);
            push_integer(&mut payload, max as i128);
        },
    }
    assert(payload@ =~= legacy_payload(
        kind,
        protocol as int,
        version@,
        motd@,
        online as int,
        max as int,
    ));
    let units = encode_utf16(to_chars(payload.as_str()).as_slice());
    let mut out: Vec<u8> = Vec::new();
    out.push(LEGACY_KICK_ID);
    push_be(&mut out, units.len() as u128, 2);
    push_units(&mut out, units.as_slice());
    assert(out@ =~= legacy_packet(payload@));
    out
}

proof fn lemma_legacy_motd_clean(motd: Seq<char>)
    ensures
        !legacy_motd(motd).contains('\0'),
        !legacy_motd(motd).contains(SECTION),
        !legacy_motd(motd).contains('\n'),
{
    let clean = blanked(stripped(motd));
    let line = clean.take(find(clean, '\n') as int);
    lemma_find(clean, '\n');
    lemma_trim_contains(line, '\0');
    lemma_trim_contains(line, SECTION);
    lemma_trim_contains(line, '\n');
    assert forall|i: int| 0 <= i < line.len() implies line[i] != '\0' && line[i] != SECTION
        && line[i] != '\n' by {
        assert(line[i] == clean[i]);
    }
}

/// Whatever the MOTD holds, the reply to a 1.4 - 1.6 client has exactly its six
/// fields, and the MOTD is the fourth.
pub proof fn motd_cannot_forge_fields(
    protocol: int,
    version: Seq<char>,
    motd: Seq<char>,
    online: int,
    max: int,
)
    requires
        !version.contains('\0'),
    ensures
        split(legacy_payload(LegacyPing::Post14, protocol, version, motd, online, max), '\0') == seq![
            seq![SECTION, '1'],
            integer_text(protocol),
            version,
            legacy_motd(motd),
            integer_text(online),
            integer_text(max),
        ],
{
    let p = integer_text(protocol);
    let m = legacy_motd(motd);
    let o = integer_text(online);
    let x = integer_text(max);
    lemma_legacy_motd_clean(motd);
    lemma_integer_contains(protocol, '\0');
    lemma_integer_contains(online, '\0');
    lemma_integer_contains(max, '\0');
    let s4 = o + seq!['\0'] + x;
    let s3 = m + seq!['\0'] + s4;
    let s2 = version + seq!['\0'] + s3;
    let s1 = p + seq!['\0'] + s2;
    lemma_split_none(x, '\0');
    lemma_split_first(o, '\0', x);
    lemma_split_first(m, '\0', s4);
    lemma_split_first(version, '\0', s3);
    lemma_split_first(p, '\0', s2);
    lemma_split_first(seq![SECTION, '1'], '\0', s1);
    assert(split(
        legacy_payload(LegacyPing::Post14, protocol, version, motd, online, max),
        '\0',
    ) =~= seq![seq![SECTION, '1'], p, version, m, o, x]);
}

/// Whatever the MOTD holds, the reply to an older client has exactly its three
/// fields.
pub proof fn motd_cannot_forge_old_fields(
    protocol: int,
    version: Seq<char>,
    motd: Seq<char>,
    online: int,
    max: int,
)
    ensures
        split(legacy_payload(LegacyPing::Pre13, protocol, version, motd, online, max), SECTION)
            == seq![legacy_motd(motd), integer_text(online), integer_text(max)],
{
    let m = legacy_motd(motd);
    let o = integer_text(online);
    let x = integer_text(max);
    lemma_legacy_motd_clean(motd);
    lemma_integer_contains(online, SECTION);
    lemma_integer_contains(max, SECTION);
    lemma_split_none(x, SECTION);
    lemma_split_first(o, SECTION, x);
    lemma_split_first(m, SECTION, o + seq![SECTION] + x);
    assert(split(
        legacy_payload(LegacyPing::Pre13, protocol, version, motd, online, max),
        SECTION,
    ) =~= seq![m, o, x]);
}

/// An old ping begins with `0xFE`; with `0x01` behind it, it is the newer of the
/// two. Nothing else is one.
pub proof fn old_pings_begin_with_their_byte(bytes: Seq<u8>)
    ensures
        legacy_ping(Seq::empty()) is None,
        bytes.len() > 0 && bytes[0] != 0xFE ==> legacy_ping(bytes) is None,
        bytes.len() == 1 && bytes[0] == 0xFE ==> legacy_ping(bytes) == Some(LegacyPing::Pre13),
        bytes.len() > 1 && bytes[0] == 0xFE && bytes[1] == 0x01 ==> legacy_ping(bytes) == Some(
            LegacyPing::Post14,
        ),
        bytes.len() > 1 && bytes[0] == 0xFE && bytes[1] != 0x01 ==> legacy_ping(bytes) == Some(
            LegacyPing::Pre13,
        ),
{
}

/// Text becomes UTF-16 one character after the other: one unit for a character
/// of the first 65536, and for every other a high and a low surrogate that spell
/// the rest of it.
pub proof fn characters_become_units(s: Seq<char>, c: char)
    ensures
        utf16(Seq::empty()).len() == 0,
        (c as u32) < 0x10000 ==> utf16(s.push(c)) == utf16(s).push(c as u16),
        (c as u32) >= 0x10000 ==> ({
            let units = utf16(s.push(c));
            let n = utf16(s).len() as int;
            &&& units.len() == n + 2
            &&& units.take(n) == utf16(s)
            &&& 0xD800 <= units[n] <= 0xDBFF
            &&& 0xDC00 <= units[n + 1] <= 0xDFFF
            &&& 0x10000 + (units[n] - 0xD800) * 0x400 + (units[n + 1] - 0xDC00) == c as u32
        }),
{
    let all = s.push(c);
    assert(all.drop_last() =~= s);
    let n = utf16(s).len() as int;
    if (c as u32) >= 0x10000 {
        let rest = c as u32 - 0x10000;
        assert(rest <= 0xFFFFF);
        let units = utf16(all);
        assert(units.take(n) =~= utf16(s));
        assert(units[n] == 0xD800 + rest / 0x400);
        assert(units[n + 1] == 0xDC00 + rest % 0x400);
    } else {
        assert(utf16(all) =~= utf16(s).push(c as u16));
    }
}

proof fn lemma_unit_bytes(units: Seq<u16>, i: int)
    requires
        0 <= i < units.len(),
    ensures
        units_bytes(units).len() == 2 * units.len(),
        units_bytes(units)[2 * i] == units[i] / 256,
        units_bytes(units)[2 * i + 1] == units[i] % 256,
    decreases units.len(),
{
    let before = units.drop_last();
    let last = units.last() as nat;
    assert(be_bytes(last / 256 / 256, 0) =~= Seq::<u8>::empty());
    assert(be_bytes(last / 256, 1) =~= seq![(last / 256 % 256) as u8]);
    assert(be_bytes(last, 2) =~= seq![(last / 256) as u8, (last % 256) as u8]);
    if before.len() > 0 {
        lemma_unit_bytes(before, if i < before.len() {
            i
        } else {
            0
        });
    } else {
        assert(units_bytes(before) =~= Seq::<u8>::empty());
    }
}

/// A reply is `0xFF`, the number of UTF-16 units in two bytes, and the units,
/// the high byte first each time.
pub proof fn replies_are_counted_units(payload: Seq<char>, i: int)
    requires
        utf16(payload).len() <= 0xFFFF,
        0 <= i < utf16(payload).len(),
    ensures
        ({
            let units = utf16(payload);
            let packet = legacy_packet(payload);
            &&& packet.len() == 3 + 2 * units.len()
            &&& packet[0] == 0xFF
            &&& packet[1] as int * 256 + packet[2] as int == units.len()
            &&& packet[3 + 2 * i] as int * 256 + packet[4 + 2 * i] as int == units[i]
        }),
{
    let units = utf16(payload);
    let n = units.len();
    assert(be_bytes(n / 256 / 256, 0) =~= Seq::<u8>::empty());
    assert(be_bytes(n / 256, 1) =~= seq![(n / 256 % 256) as u8]);
    assert(be_bytes(n, 2) =~= seq![(n / 256) as u8, (n % 256) as u8]);
    lemma_unit_bytes(units, i);
    let packet = legacy_packet(payload);
    assert(packet[3 + 2 * i] == units_bytes(units)[2 * i]);
    assert(packet[4 + 2 * i] == units_bytes(units)[2 * i + 1]);
}

/// Delimiters become blanks, and every other character stays.
pub proof fn only_delimiters_are_blanked(s: Seq<char>, i: int)
    requires
        0 <= i < s.len(),
    ensures
        blanked(s).len() == s.len(),
        s[i] == '\0' || s[i] == '\u{a7}' ==> blanked(s)[i] == ' ',
        s[i] != '\0' && s[i] != '\u{a7}' ==> blanked(s)[i] == s[i],
{
}

/// The MOTD of a reply is one line: what stands before the first line break of
/// the unformatted text, without the white space round it.
pub proof fn old_clients_see_the_first_line(motd: Seq<char>, first: Seq<char>, rest: Seq<char>)
    requires
        !first.contains('\n'),
        !first.contains('\0'),
        !first.contains('\u{a7}'),
    ensures
        stripped(motd) == first ==> legacy_motd(motd) == trim(first),
        stripped(motd) == first + seq!['\n'] + rest ==> legacy_motd(motd) == trim(first),
{
    assert forall|i: int| 0 <= i < first.len() implies first[i] != '\n' && first[i] != '\0'
        && first[i] != '\u{a7}' by {
        assert(first.contains(first[i]));
    }
    let n = first.len() as int;
    let clean = blanked(stripped(motd));
    if stripped(motd) == first {
        assert(clean =~= first);
        lemma_find_is(clean, '\n', n);
        assert(clean.take(n) =~= first);
    } else if stripped(motd) == first + seq!['\n'] + rest {
        let all = first + seq!['\n'] + rest;
        assert forall|i: int| 0 <= i < n implies clean[i] == first[i] by {
            assert(all[i] == first[i]);
        }
        assert(clean[n] == '\n') by {
            assert(all[n] == '\n');
        }
        lemma_find_is(clean, '\n', n);
        assert(clean.take(n) =~= first);
    }
}

} // verus!
