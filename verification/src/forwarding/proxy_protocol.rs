//! HAProxy PROXY protocol, versions 1 and 2.
//!
//! Outbound the gateway always speaks v2 (binary, fixed size, unambiguous).
//! Inbound both versions are accepted, because whatever sits in front of the
//! gateway is usually not configurable to the same degree.

use vstd::prelude::*;
use vstd::slice::slice_subrange;
use vstd::utf8::{decode_utf8, valid_utf8};

use crate::bytes::{
    be_bytes, be_round_trip, be_value, lemma_be_bytes_len, lemma_be_value_bound, lemma_pow256_values,
    push_all, push_be, read_be, same_bytes, the_first_byte_counts_most,
};
use crate::net::{ip_address, parse_ip, plain_socket, IpAddr, SocketAddr};
use crate::text::{from_utf8, number, parse_number, same_chars, split, split_chars, to_chars, views};

verus! {

/// v2 signature: 12 bytes that cannot begin a valid Minecraft packet.
pub const V2_SIGNATURE: [u8; 12] = [
    0x0D,
    0x0A,
    0x0D,
    0x0A,
    0x00,
    0x0D,
    0x0A,
    0x51,
    0x55,
    0x49,
    0x54,
    0x0A,
];

/// v1 prefix, `PROXY` and a blank.
pub const V1_PREFIX: [u8; 6] = [0x50, 0x52, 0x4F, 0x58, 0x59, 0x20];

/// Longest possible v1 line.
pub const V1_MAX_LEN: usize = 107;

/// Longest header we will buffer before giving up (v2 with TLV extensions).
pub const MAX_HEADER_LEN: usize = 536;

const AF_UNSPEC: u8 = 0x00;

const TCP4: u8 = 0x11;

const TCP6: u8 = 0x21;

/// What a header says.
#[derive(Debug, Clone, Copy, PartialEq, Eq, Structural)]
pub enum ProxyHeader {
    /// Sent by a health checker: the connection is from the proxy itself and
    /// carries no client identity.
    Local,
    /// A proxied connection with the original address pair.
    Proxy { src: SocketAddr, dst: SocketAddr },
}

impl ProxyHeader {
    /// Who is connecting, where the header says so.
    pub fn source(&self) -> (src: Option<SocketAddr>)
        ensures
            src == match *self {
                ProxyHeader::Local => None::<SocketAddr>,
                ProxyHeader::Proxy { src, .. } => Some(src),
            },
    {
        match self {
            ProxyHeader::Local => None,
            ProxyHeader::Proxy { src, .. } => Some(*src),
        }
    }
}

/// Why there is no header to be had.
#[derive(Debug, Clone, Copy, PartialEq, Eq)]
pub enum ParseError {
    /// Need more bytes.
    Incomplete,
    /// No PROXY protocol header present.
    NotPresent,
    /// A header that says something it must not.
    Malformed(&'static str),
    /// The header is longer than is worth buffering.
    TooLong,
}

impl ParseError {
    /// True when more data could still turn this into a header.
    pub fn is_incomplete(&self) -> (yes: bool)
        ensures
            yes == (*self is Incomplete),
    {
        matches!(self, ParseError::Incomplete)
    }
}

// ------------------------------------------------------------------ writing --

/// An address as IPv6; IPv4 addresses become mapped ones.
pub open spec fn as_v6(ip: IpAddr) -> u128 {
    match ip {
        IpAddr::V4(bits) => (0xffff_0000_0000 + bits) as u128,
        IpAddr::V6(bits) => bits,
    }
}

/// The v2 header of a proxied connection. A v4 and a v6 endpoint cannot share
/// one header, so if the two ends disagree both are expressed as IPv6.
pub open spec fn v2_bytes(src: SocketAddr, dst: SocketAddr) -> Seq<u8> {
    let start = V2_SIGNATURE@ + seq![0x21u8];
    let ports = be_bytes(src.port as nat, 2) + be_bytes(dst.port as nat, 2);
    match (src.ip, dst.ip) {
        (IpAddr::V4(s), IpAddr::V4(d)) => start + seq![0x11u8, 0u8, 12u8] + (be_bytes(s as nat, 4)
            + be_bytes(d as nat, 4) + ports),
        (s, d) => start + seq![0x21u8, 0u8, 36u8] + (be_bytes(as_v6(s) as nat, 16) + be_bytes(
            as_v6(d) as nat,
            16,
        ) + ports),
    }
}

/// The v2 header of the gateway's own connections.
pub open spec fn v2_local_bytes() -> Seq<u8> {
    V2_SIGNATURE@ + seq![0x20u8, 0u8, 0u8, 0u8]
}

fn to_v6(ip: IpAddr) -> (bits: u128)
    ensures
        bits == as_v6(ip),
{
    match ip {
        IpAddr::V4(bits) => 0xffff_0000_0000u128 + bits as u128,
        IpAddr::V6(bits) => bits,
    }
}

/// Writes a v2 PROXY header describing a real client connection.
pub fn encode_v2(src: SocketAddr, dst: SocketAddr) -> (out: Vec<u8>)
    ensures
        out@ == v2_bytes(src, dst),
{
    let mut out: Vec<u8> = Vec::new();
    push_all(&mut out, V2_SIGNATURE.as_slice());
    out.push(0x21);
    match (src.ip, dst.ip) {
        (IpAddr::V4(s), IpAddr::V4(d)) => {
            out.push(TCP4);
            out.push(0);
            out.push(12);
            push_be(&mut out, s as u128, 4);
            push_be(&mut out, d as u128, 4);
        },
        (s, d) => {
            out.push(TCP6);
            out.push(0);
            out.push(36);
            push_be(&mut out, to_v6(s), 16);
            push_be(&mut out, to_v6(d), 16);
        },
    }
    push_be(&mut out, src.port as u128, 2);
    push_be(&mut out, dst.port as u128, 2);
    assert(out@ =~= v2_bytes(src, dst));
    out
}

/// Writes a v2 LOCAL header.
///
/// This is what the protocol reserves for health checks: it tells the backend
/// "this connection is mine, not a client's", so proxy-protocol-only listeners
/// accept the probe without inventing a fake client address.
pub fn encode_v2_local() -> (out: Vec<u8>)
    ensures
        out@ == v2_local_bytes(),
{
    let mut out: Vec<u8> = Vec::new();
    push_all(&mut out, V2_SIGNATURE.as_slice());
    out.push(0x20);
    out.push(AF_UNSPEC);
    out.push(0);
    out.push(0);
    assert(out@ =~= v2_local_bytes());
    out
}

// ------------------------------------------------------------------ reading --

/// Whether `bytes` and `prefix` agree as far as both go.
pub open spec fn agrees(bytes: Seq<u8>, prefix: Seq<u8>) -> bool {
    let n = if bytes.len() < prefix.len() {
        bytes.len()
    } else {
        prefix.len()
    };
    bytes.take(n as int) == prefix.take(n as int)
}

/// The address and port of one side of an address block.
pub open spec fn block_v4(body: Seq<u8>, ip_at: int, port_at: int) -> SocketAddr {
    plain_socket(
        IpAddr::V4(be_value(body.subrange(ip_at, ip_at + 4)) as u32),
        be_value(body.subrange(port_at, port_at + 2)) as u16,
    )
}

/// The address and port of one side of an address block.
pub open spec fn block_v6(body: Seq<u8>, ip_at: int, port_at: int) -> SocketAddr {
    plain_socket(
        IpAddr::V6(be_value(body.subrange(ip_at, ip_at + 16)) as u128),
        be_value(body.subrange(port_at, port_at + 2)) as u16,
    )
}

/// The header of a connection that a proxy passes on, by its address family.
/// An unknown family means that the sender knows nothing about the original
/// connection.
pub open spec fn v2_addresses(family: u8, body: Seq<u8>) -> Result<ProxyHeader, ParseError> {
    if family == 0x11 {
        if body.len() < 12 {
            Err(ParseError::Malformed("short IPv4 address block"))
        } else {
            Ok(ProxyHeader::Proxy { src: block_v4(body, 0, 8), dst: block_v4(body, 4, 10) })
        }
    } else if family == 0x21 {
        if body.len() < 36 {
            Err(ParseError::Malformed("short IPv6 address block"))
        } else {
            Ok(ProxyHeader::Proxy { src: block_v6(body, 0, 32), dst: block_v6(body, 16, 34) })
        }
    } else {
        Ok(ProxyHeader::Local)
    }
}

/// What reading a v2 header gives, behind a complete signature: version and
/// command, address family, length, and that many bytes.
pub open spec fn v2_at(bytes: Seq<u8>) -> Result<(ProxyHeader, nat), ParseError> {
    if bytes.len() < 16 {
        Err(ParseError::Incomplete)
    } else {
        let total = 16 + be_value(bytes.subrange(14, 16));
        if bytes[12] / 16 != 2 {
            Err(ParseError::Malformed("unsupported version"))
        } else if total > MAX_HEADER_LEN {
            Err(ParseError::TooLong)
        } else if bytes.len() < total {
            Err(ParseError::Incomplete)
        } else if bytes[12] % 16 == 0 {
            Ok((ProxyHeader::Local, total))
        } else if bytes[12] % 16 == 1 {
            match v2_addresses(bytes[13], bytes.subrange(16, total as int)) {
                Ok(header) => Ok((header, total)),
                Err(error) => Err(error),
            }
        } else {
            Err(ParseError::Malformed("unknown command"))
        }
    }
}

/// Where a carriage return and a line feed first stand, or the length.
pub open spec fn line_end(bytes: Seq<u8>) -> nat
    decreases bytes.len(),
{
    if bytes.len() < 2 {
        bytes.len()
    } else if bytes[0] == 0x0D && bytes[1] == 0x0A {
        0
    } else {
        1 + line_end(bytes.drop_first())
    }
}

/// The port that a field spells.
pub open spec fn port_number(s: Seq<char>) -> Option<u16> {
    match number(s) {
        Some(n) => if n <= u16::MAX {
            Some(n as u16)
        } else {
            None
        },
        None => None,
    }
}

/// What the fields of a v1 line say.
pub open spec fn v1_header(fields: Seq<Seq<char>>) -> Result<ProxyHeader, ParseError> {
    if fields[0] != "PROXY"@ {
        Err(ParseError::NotPresent)
    } else if fields.len() < 2 {
        Err(ParseError::Malformed("missing family"))
    } else if fields[1] == "UNKNOWN"@ {
        Ok(ProxyHeader::Local)
    } else if fields[1] != "TCP4"@ && fields[1] != "TCP6"@ {
        Err(ParseError::Malformed("unknown family"))
    } else if fields.len() < 3 {
        Err(ParseError::Malformed("missing field"))
    } else if ip_address(fields[2]) is None {
        Err(ParseError::Malformed("bad source IP"))
    } else if fields.len() < 4 {
        Err(ParseError::Malformed("missing field"))
    } else if ip_address(fields[3]) is None {
        Err(ParseError::Malformed("bad dest IP"))
    } else if fields.len() < 5 {
        Err(ParseError::Malformed("missing field"))
    } else if port_number(fields[4]) is None {
        Err(ParseError::Malformed("bad source port"))
    } else if fields.len() < 6 {
        Err(ParseError::Malformed("missing field"))
    } else if port_number(fields[5]) is None {
        Err(ParseError::Malformed("bad dest port"))
    } else {
        Ok(
            ProxyHeader::Proxy {
                src: plain_socket(
                    ip_address(fields[2])->Some_0,
                    port_number(fields[4])->Some_0,
                ),
                dst: plain_socket(
                    ip_address(fields[3])->Some_0,
                    port_number(fields[5])->Some_0,
                ),
            },
        )
    }
}

/// What reading a v1 header gives: one line of fields with blanks between them.
pub open spec fn v1_at(bytes: Seq<u8>) -> Result<(ProxyHeader, nat), ParseError> {
    let end = line_end(bytes);
    if end == bytes.len() {
        if bytes.len() >= V1_MAX_LEN {
            Err(ParseError::TooLong)
        } else {
            Err(ParseError::Incomplete)
        }
    } else if !valid_utf8(bytes.take(end as int)) {
        Err(ParseError::Malformed("not UTF-8"))
    } else {
        match v1_header(split(decode_utf8(bytes.take(end as int)), ' ')) {
            Ok(header) => Ok((header, end + 2)),
            Err(error) => Err(error),
        }
    }
}

/// What reading a header at the front of `bytes` gives, and its length.
pub open spec fn header_at(bytes: Seq<u8>) -> Result<(ProxyHeader, nat), ParseError> {
    if bytes.len() == 0 {
        Err(ParseError::Incomplete)
    } else if agrees(bytes, V2_SIGNATURE@) {
        if bytes.len() < 12 {
            Err(ParseError::Incomplete)
        } else {
            v2_at(bytes)
        }
    } else if agrees(bytes, V1_PREFIX@) {
        v1_at(bytes)
    } else {
        Err(ParseError::NotPresent)
    }
}

/// Whether `bytes` and `prefix` agree as far as both go.
pub(crate) fn agrees_with(bytes: &[u8], prefix: &[u8]) -> (yes: bool)
    ensures
        yes == agrees(bytes@, prefix@),
{
    let n: usize = if bytes.len() < prefix.len() {
        bytes.len()
    } else {
        prefix.len()
    };
    let a = slice_subrange(bytes, 0, n);
    let b = slice_subrange(prefix, 0, n);
    assert(a@ =~= bytes@.take(n as int));
    assert(b@ =~= prefix@.take(n as int));
    same_bytes(a, b)
}

fn read_u16(body: &[u8], at: usize) -> (value: u16)
    requires
        at + 2 <= body@.len(),
    ensures
        value == be_value(body@.subrange(at as int, at + 2)),
{
    assert(at + 2 <= body.len());
    let field = slice_subrange(body, at, at + 2);
    proof {
        lemma_be_value_bound(field@);
        lemma_pow256_values();
    }
    read_be(field) as u16
}

fn read_v4(body: &[u8], ip_at: usize, port_at: usize) -> (addr: SocketAddr)
    requires
        ip_at + 4 <= body@.len(),
        port_at + 2 <= body@.len(),
    ensures
        addr == block_v4(body@, ip_at as int, port_at as int),
{
    assert(ip_at + 4 <= body.len());
    let field = slice_subrange(body, ip_at, ip_at + 4);
    proof {
        lemma_be_value_bound(field@);
        lemma_pow256_values();
    }
    SocketAddr::new(IpAddr::V4(read_be(field) as u32), read_u16(body, port_at))
}

fn read_v6(body: &[u8], ip_at: usize, port_at: usize) -> (addr: SocketAddr)
    requires
        ip_at + 16 <= body@.len(),
        port_at + 2 <= body@.len(),
    ensures
        addr == block_v6(body@, ip_at as int, port_at as int),
{
    assert(ip_at + 16 <= body.len());
    let field = slice_subrange(body, ip_at, ip_at + 16);
    SocketAddr::new(IpAddr::V6(read_be(field)), read_u16(body, port_at))
}

fn parse_v2(buf: &[u8]) -> (r: Result<(ProxyHeader, usize), ParseError>)
    ensures
        match v2_at(buf@) {
            Ok((header, len)) => r is Ok && r->Ok_0.0 == header && r->Ok_0.1 == len,
            Err(error) => r == Err::<(ProxyHeader, usize), ParseError>(error),
        },
{
    if buf.len() < 16 {
        return Err(ParseError::Incomplete);
    }
    let version_command: u8 = buf[12];
    if version_command / 16 != 2 {
        return Err(ParseError::Malformed("unsupported version"));
    }
    let family: u8 = buf[13];
    let len: usize = read_u16(buf, 14) as usize;
    let total: usize = 16 + len;
    if total > MAX_HEADER_LEN {
        return Err(ParseError::TooLong);
    }
    if buf.len() < total {
        return Err(ParseError::Incomplete);
    }
    let body = slice_subrange(buf, 16, total);
    if version_command % 16 == 0 {
        return Ok((ProxyHeader::Local, total));
    }
    if version_command % 16 != 1 {
        return Err(ParseError::Malformed("unknown command"));
    }
    if family == TCP4 {
        if body.len() < 12 {
            return Err(ParseError::Malformed("short IPv4 address block"));
        }
        Ok((ProxyHeader::Proxy { src: read_v4(body, 0, 8), dst: read_v4(body, 4, 10) }, total))
    } else if family == TCP6 {
        if body.len() < 36 {
            return Err(ParseError::Malformed("short IPv6 address block"));
        }
        Ok((ProxyHeader::Proxy { src: read_v6(body, 0, 32), dst: read_v6(body, 16, 34) }, total))
    } else {
        Ok((ProxyHeader::Local, total))
    }
}

fn find_line_end(buf: &[u8]) -> (at: usize)
    ensures
        at == line_end(buf@),
        at == buf@.len() || at + 2 <= buf@.len(),
{
    let mut i: usize = 0;
    assert(buf@.skip(0) =~= buf@);
    while i < buf.len() && buf.len() - i >= 2
        invariant
            i <= buf@.len(),
            line_end(buf@) == i + line_end(buf@.skip(i as int)),
        decreases buf@.len() - i,
    {
        if buf[i] == 0x0D && buf[i + 1] == 0x0A {
            return i;
        }
        assert(buf@.skip(i as int).drop_first() =~= buf@.skip(i + 1));
        i = i + 1;
    }
    buf.len()
}

fn parse_port(chars: &[char]) -> (port: Option<u16>)
    ensures
        port == port_number(chars@),
{
    match parse_number(chars, 0xffff) {
        Some(n) => Some(n as u16),
        None => None,
    }
}

fn is_word(chars: &Vec<char>, word: &str) -> (yes: bool)
    ensures
        yes == (chars@ == word@),
{
    same_chars(chars.as_slice(), to_chars(word).as_slice())
}

/// What the fields of a v1 line say.
fn read_v1_fields(fields: &Vec<Vec<char>>) -> (r: Result<ProxyHeader, ParseError>)
    requires
        fields@.len() > 0,
    ensures
        r == v1_header(views(fields@)),
{
    let ghost spelled = views(fields@);
    assert(spelled.len() == fields@.len());
    assert(forall|i: int| 0 <= i < fields@.len() ==> spelled[i] == fields@[i]@);
    if !is_word(&fields[0], "PROXY") {
        return Err(ParseError::NotPresent);
    }
    if fields.len() < 2 {
        return Err(ParseError::Malformed("missing family"));
    }
    if is_word(&fields[1], "UNKNOWN") {
        return Ok(ProxyHeader::Local);
    }
    if !is_word(&fields[1], "TCP4") && !is_word(&fields[1], "TCP6") {
        return Err(ParseError::Malformed("unknown family"));
    }
    if fields.len() < 3 {
        return Err(ParseError::Malformed("missing field"));
    }
    let src_ip = match parse_ip(fields[2].as_slice()) {
        Some(ip) => ip,
        None => return Err(ParseError::Malformed("bad source IP")),
    };
    if fields.len() < 4 {
        return Err(ParseError::Malformed("missing field"));
    }
    let dst_ip = match parse_ip(fields[3].as_slice()) {
        Some(ip) => ip,
        None => return Err(ParseError::Malformed("bad dest IP")),
    };
    if fields.len() < 5 {
        return Err(ParseError::Malformed("missing field"));
    }
    let src_port: u16 = match parse_port(fields[4].as_slice()) {
        Some(port) => port,
        None => return Err(ParseError::Malformed("bad source port")),
    };
    if fields.len() < 6 {
        return Err(ParseError::Malformed("missing field"));
    }
    let dst_port: u16 = match parse_port(fields[5].as_slice()) {
        Some(port) => port,
        None => return Err(ParseError::Malformed("bad dest port")),
    };
    Ok(
        ProxyHeader::Proxy {
            src: SocketAddr::new(src_ip, src_port),
            dst: SocketAddr::new(dst_ip, dst_port),
        },
    )
}

fn parse_v1(buf: &[u8]) -> (r: Result<(ProxyHeader, usize), ParseError>)
    ensures
        match v1_at(buf@) {
            Ok((header, len)) => r is Ok && r->Ok_0.0 == header && r->Ok_0.1 == len,
            Err(error) => r == Err::<(ProxyHeader, usize), ParseError>(error),
        },
{
    let end: usize = find_line_end(buf);
    if end == buf.len() {
        return if buf.len() >= V1_MAX_LEN {
            Err(ParseError::TooLong)
        } else {
            Err(ParseError::Incomplete)
        };
    }
    let line_bytes = slice_subrange(buf, 0, end);
    assert(line_bytes@ =~= buf@.take(end as int));
    let line = match from_utf8(line_bytes) {
        Some(line) => to_chars(line),
        None => return Err(ParseError::Malformed("not UTF-8")),
    };
    let fields = split_chars(line.as_slice(), ' ');
    assert(split(line@, ' ').len() > 0);
    assert(views(fields@).len() == fields@.len());
    match read_v1_fields(&fields) {
        Ok(header) => Ok((header, end + 2)),
        Err(error) => Err(error),
    }
}

/// Parses a header from the front of `buf`, returning it and its length.
pub fn parse(buf: &[u8]) -> (r: Result<(ProxyHeader, usize), ParseError>)
    ensures
        match header_at(buf@) {
            Ok((header, len)) => r is Ok && r->Ok_0.0 == header && r->Ok_0.1 == len,
            Err(error) => r == Err::<(ProxyHeader, usize), ParseError>(error),
        },
{
    if buf.len() == 0 {
        return Err(ParseError::Incomplete);
    }
    if agrees_with(buf, V2_SIGNATURE.as_slice()) {
        return if buf.len() < V2_SIGNATURE.len() {
            Err(ParseError::Incomplete)
        } else {
            parse_v2(buf)
        };
    }
    if agrees_with(buf, V1_PREFIX.as_slice()) {
        return parse_v1(buf);
    }
    Err(ParseError::NotPresent)
}

// -------------------------------------------------------------------- laws --

proof fn lemma_signature_agrees(bytes: Seq<u8>)
    requires
        bytes.len() >= 12,
        bytes.take(12) == V2_SIGNATURE@,
    ensures
        agrees(bytes, V2_SIGNATURE@),
{
    assert(V2_SIGNATURE@.take(12) =~= V2_SIGNATURE@);
}

/// Reading back a v2 header gives the two addresses, whatever follows it. Where
/// the families differ, both come back as IPv6. A header has no room for flow
/// information and scope.
pub proof fn v2_round_trip(src: SocketAddr, dst: SocketAddr, rest: Seq<u8>)
    ensures
        header_at(v2_bytes(src, dst) + rest) == Ok::<(ProxyHeader, nat), ParseError>(
            (
                if src.ip is V4 && dst.ip is V4 {
                    ProxyHeader::Proxy {
                        src: plain_socket(src.ip, src.port),
                        dst: plain_socket(dst.ip, dst.port),
                    }
                } else {
                    ProxyHeader::Proxy {
                        src: plain_socket(IpAddr::V6(as_v6(src.ip)), src.port),
                        dst: plain_socket(IpAddr::V6(as_v6(dst.ip)), dst.port),
                    }
                },
                v2_bytes(src, dst).len(),
            ),
        ),
{
    let all = v2_bytes(src, dst) + rest;
    lemma_pow256_values();
    lemma_v2_len(src, dst);
    assert(all.take(12) =~= V2_SIGNATURE@);
    lemma_signature_agrees(all);
    be_round_trip(src.port as nat, 2);
    be_round_trip(dst.port as nat, 2);
    assert(all[12] == 0x21);
    match (src.ip, dst.ip) {
        (IpAddr::V4(s), IpAddr::V4(d)) => {
            be_round_trip(s as nat, 4);
            be_round_trip(d as nat, 4);
            assert(all.subrange(14, 16) =~= be_bytes(12, 2)) by {
                reveal_with_fuel(be_bytes, 3);
            }
            be_round_trip(12, 2);
            let body = all.subrange(16, 28);
            assert(body.subrange(0, 4) =~= be_bytes(s as nat, 4));
            assert(body.subrange(4, 8) =~= be_bytes(d as nat, 4));
            assert(body.subrange(8, 10) =~= be_bytes(src.port as nat, 2));
            assert(body.subrange(10, 12) =~= be_bytes(dst.port as nat, 2));
        },
        (s, d) => {
            let s = as_v6(s) as nat;
            let d = as_v6(d) as nat;
            be_round_trip(s, 16);
            be_round_trip(d, 16);
            assert(all.subrange(14, 16) =~= be_bytes(36, 2)) by {
                reveal_with_fuel(be_bytes, 3);
            }
            be_round_trip(36, 2);
            let body = all.subrange(16, 52);
            assert(body.subrange(0, 16) =~= be_bytes(s, 16));
            assert(body.subrange(16, 32) =~= be_bytes(d, 16));
            assert(body.subrange(32, 34) =~= be_bytes(src.port as nat, 2));
            assert(body.subrange(34, 36) =~= be_bytes(dst.port as nat, 2));
        },
    }
}

proof fn lemma_v2_len(src: SocketAddr, dst: SocketAddr)
    ensures
        v2_bytes(src, dst).len() == if src.ip is V4 && dst.ip is V4 {
            28int
        } else {
            52
        },
{
    lemma_be_bytes_len(src.port as nat, 2);
    lemma_be_bytes_len(dst.port as nat, 2);
    match (src.ip, dst.ip) {
        (IpAddr::V4(s), IpAddr::V4(d)) => {
            lemma_be_bytes_len(s as nat, 4);
            lemma_be_bytes_len(d as nat, 4);
        },
        (s, d) => {
            lemma_be_bytes_len(as_v6(s) as nat, 16);
            lemma_be_bytes_len(as_v6(d) as nat, 16);
        },
    }
}

/// A v2 header that is cut short asks for more bytes.
pub proof fn partial_v2_is_incomplete(src: SocketAddr, dst: SocketAddr, cut: int)
    requires
        0 <= cut < v2_bytes(src, dst).len(),
    ensures
        header_at(v2_bytes(src, dst).take(cut)) == Err::<(ProxyHeader, nat), ParseError>(
            ParseError::Incomplete,
        ),
{
    let full = v2_bytes(src, dst);
    let part = full.take(cut);
    lemma_v2_len(src, dst);
    lemma_pow256_values();
    if 0 < cut < 12 {
        assert(part.take(cut) =~= V2_SIGNATURE@.take(cut));
    } else if cut >= 12 {
        assert(part.take(12) =~= V2_SIGNATURE@);
        lemma_signature_agrees(part);
        if cut >= 16 {
            let len: nat = if src.ip is V4 && dst.ip is V4 {
                12
            } else {
                36
            };
            assert(part.subrange(14, 16) =~= be_bytes(len, 2)) by {
                reveal_with_fuel(be_bytes, 3);
            }
            be_round_trip(len, 2);
            assert(part[12] == 0x21);
        }
    }
}

/// The gateway's own header carries no identity.
pub proof fn local_header_carries_no_identity(rest: Seq<u8>)
    ensures
        header_at(v2_local_bytes() + rest) == Ok::<(ProxyHeader, nat), ParseError>(
            (ProxyHeader::Local, 16),
        ),
{
    let all = v2_local_bytes() + rest;
    assert(all.take(12) =~= V2_SIGNATURE@);
    lemma_signature_agrees(all);
    lemma_pow256_values();
    assert(all.subrange(14, 16) =~= be_bytes(0, 2)) by {
        reveal_with_fuel(be_bytes, 3);
    }
    be_round_trip(0, 2);
}

/// A header never claims more bytes than there are.
pub proof fn header_lies_within_the_bytes(bytes: Seq<u8>)
    ensures
        header_at(bytes) is Ok ==> header_at(bytes)->Ok_0.1 <= bytes.len(),
{
    lemma_line_end(bytes);
}

proof fn lemma_line_end(bytes: Seq<u8>)
    ensures
        line_end(bytes) == bytes.len() || line_end(bytes) + 2 <= bytes.len(),
    decreases bytes.len(),
{
    if bytes.len() >= 2 && !(bytes[0] == 0x0D && bytes[1] == 0x0A) {
        lemma_line_end(bytes.drop_first());
    }
}

/// A connection whose first byte starts neither form has no header, whatever
/// follows: a Minecraft handshake is recognised at once.
pub proof fn first_byte_rules_a_header_out(bytes: Seq<u8>)
    requires
        bytes.len() > 0,
        bytes[0] != 0x0D,
        bytes[0] != 0x50,
    ensures
        header_at(bytes) == Err::<(ProxyHeader, nat), ParseError>(ParseError::NotPresent),
{
    assert(V2_SIGNATURE@[0] == 0x0D);
    assert(V1_PREFIX@[0] == 0x50);
    let n2 = if bytes.len() < 12 {
        bytes.len() as int
    } else {
        12
    };
    let n1 = if bytes.len() < 6 {
        bytes.len() as int
    } else {
        6
    };
    assert(bytes.take(n2)[0] != V2_SIGNATURE@.take(n2)[0]);
    assert(bytes.take(n1)[0] != V1_PREFIX@.take(n1)[0]);
}

/// A v2 header is the signature, version two with the command to pass a
/// connection on, the family, and the length of what follows: both addresses,
/// then both ports, the client's first each time. IPv4 addresses have four bytes
/// where both are IPv4, and are mapped into sixteen where only one is.
pub proof fn v2_headers_have_their_fields(src: SocketAddr, dst: SocketAddr)
    ensures
        ({
            let bytes = v2_bytes(src, dst);
            &&& bytes.len() >= 16
            &&& bytes.take(12) == seq![
                0x0Du8, 0x0A, 0x0D, 0x0A, 0x00, 0x0D, 0x0A, 0x51, 0x55, 0x49, 0x54, 0x0A,
            ]
            &&& bytes[12] == 0x21
            &&& bytes[13] == (if src.ip is V4 && dst.ip is V4 {
                0x11u8
            } else {
                0x21
            })
            &&& bytes[14] as int * 256 + bytes[15] as int == bytes.len() - 16
            &&& src.ip is V4 && dst.ip is V4 ==> bytes.skip(16) == be_bytes(
                src.ip->V4_0 as nat,
                4,
            ) + be_bytes(dst.ip->V4_0 as nat, 4) + be_bytes(src.port as nat, 2) + be_bytes(
                dst.port as nat,
                2,
            )
        }),
        src.ip is V4 ==> as_v6(src.ip) == 0xffff_0000_0000 + src.ip->V4_0,
        src.ip is V6 ==> as_v6(src.ip) == src.ip->V6_0,
        v2_local_bytes() == seq![
            0x0Du8, 0x0A, 0x0D, 0x0A, 0x00, 0x0D, 0x0A, 0x51, 0x55, 0x49, 0x54, 0x0A, 0x20, 0, 0, 0,
        ],
{
    let bytes = v2_bytes(src, dst);
    lemma_v2_len(src, dst);
    let signature = seq![
        0x0Du8, 0x0A, 0x0D, 0x0A, 0x00, 0x0D, 0x0A, 0x51, 0x55, 0x49, 0x54, 0x0A,
    ];
    assert(V2_SIGNATURE@ =~= signature);
    assert(bytes.take(12) =~= signature);
    assert(v2_local_bytes() =~= signature + seq![0x20u8, 0, 0, 0]);
    assert(signature + seq![0x20u8, 0, 0, 0] =~= seq![
        0x0Du8, 0x0A, 0x0D, 0x0A, 0x00, 0x0D, 0x0A, 0x51, 0x55, 0x49, 0x54, 0x0A, 0x20, 0, 0, 0,
    ]);
    if src.ip is V4 && dst.ip is V4 {
        lemma_be_bytes_len(src.ip->V4_0 as nat, 4);
        lemma_be_bytes_len(dst.ip->V4_0 as nat, 4);
        lemma_be_bytes_len(src.port as nat, 2);
        lemma_be_bytes_len(dst.port as nat, 2);
        assert(bytes.skip(16) =~= be_bytes(src.ip->V4_0 as nat, 4) + be_bytes(
            dst.ip->V4_0 as nat,
            4,
        ) + be_bytes(src.port as nat, 2) + be_bytes(dst.port as nat, 2));
    }
}

/// What a v2 header says is decided by its fields in turn: the version, the
/// length, whether all of it is there, the command and the family. Whatever the
/// header holds behind the addresses is passed over.
pub proof fn v2_headers_are_read_by_their_fields(
    version: u8,
    family: u8,
    high: u8,
    low: u8,
    body: Seq<u8>,
)
    ensures
        ({
            let len = high as nat * 256 + low as nat;
            let bytes = V2_SIGNATURE@ + seq![version, family, high, low] + body;
            let read = header_at(bytes);
            &&& (version < 0x20 || version > 0x2f) ==> read == Err::<
                (ProxyHeader, nat),
                ParseError,
            >(ParseError::Malformed("unsupported version"))
            &&& 0x20 <= version <= 0x2f && len > 520 ==> read == Err::<
                (ProxyHeader, nat),
                ParseError,
            >(ParseError::TooLong)
            &&& 0x20 <= version <= 0x2f && body.len() < len <= 520 ==> read == Err::<
                (ProxyHeader, nat),
                ParseError,
            >(ParseError::Incomplete)
            &&& 0x22 <= version <= 0x2f && len <= 520 && len <= body.len() ==> read == Err::<
                (ProxyHeader, nat),
                ParseError,
            >(ParseError::Malformed("unknown command"))
            &&& version == 0x20 && len <= 520 && len <= body.len() ==> read == Ok::<
                (ProxyHeader, nat),
                ParseError,
            >((ProxyHeader::Local, 16 + len))
            &&& version == 0x21 && family != 0x11 && family != 0x21 && len <= 520 && len
                <= body.len() ==> read == Ok::<(ProxyHeader, nat), ParseError>(
                (ProxyHeader::Local, 16 + len),
            )
            &&& version == 0x21 && family == 0x11 && len < 12 && len <= body.len() ==> read == Err::<
                (ProxyHeader, nat),
                ParseError,
            >(ParseError::Malformed("short IPv4 address block"))
            &&& version == 0x21 && family == 0x21 && len < 36 && len <= body.len() ==> read == Err::<
                (ProxyHeader, nat),
                ParseError,
            >(ParseError::Malformed("short IPv6 address block"))
            &&& version == 0x21 && family == 0x11 && 12 <= len <= 520 && len <= body.len()
                ==> read == Ok::<(ProxyHeader, nat), ParseError>(
                (
                    ProxyHeader::Proxy {
                        src: plain_socket(
                            IpAddr::V4(be_value(body.subrange(0, 4)) as u32),
                            be_value(body.subrange(8, 10)) as u16,
                        ),
                        dst: plain_socket(
                            IpAddr::V4(be_value(body.subrange(4, 8)) as u32),
                            be_value(body.subrange(10, 12)) as u16,
                        ),
                    },
                    16 + len,
                ),
            )
            &&& version == 0x21 && family == 0x21 && 36 <= len <= 520 && len <= body.len()
                ==> read == Ok::<(ProxyHeader, nat), ParseError>(
                (
                    ProxyHeader::Proxy {
                        src: plain_socket(
                            IpAddr::V6(be_value(body.subrange(0, 16)) as u128),
                            be_value(body.subrange(32, 34)) as u16,
                        ),
                        dst: plain_socket(
                            IpAddr::V6(be_value(body.subrange(16, 32)) as u128),
                            be_value(body.subrange(34, 36)) as u16,
                        ),
                    },
                    16 + len,
                ),
            )
        }),
{
    let len = high as nat * 256 + low as nat;
    let bytes = V2_SIGNATURE@ + seq![version, family, high, low] + body;
    assert(bytes.take(12) =~= V2_SIGNATURE@);
    lemma_signature_agrees(bytes);
    let field = bytes.subrange(14, 16);
    assert(field =~= seq![high] + seq![low]);
    the_first_byte_counts_most(high, seq![low]);
    the_first_byte_counts_most(low, Seq::empty());
    lemma_pow256_values();
    assert(bytes[12] == version && bytes[13] == family);
    if len <= body.len() {
        let inner = bytes.subrange(16, 16 + len as int);
        assert(inner =~= body.take(len as int));
        if len >= 12 {
            assert(inner.subrange(0, 4) =~= body.subrange(0, 4));
            assert(inner.subrange(4, 8) =~= body.subrange(4, 8));
            assert(inner.subrange(8, 10) =~= body.subrange(8, 10));
            assert(inner.subrange(10, 12) =~= body.subrange(10, 12));
        }
        if len >= 36 {
            assert(inner.subrange(0, 16) =~= body.subrange(0, 16));
            assert(inner.subrange(16, 32) =~= body.subrange(16, 32));
            assert(inner.subrange(32, 34) =~= body.subrange(32, 34));
            assert(inner.subrange(34, 36) =~= body.subrange(34, 36));
        }
    }
}

/// A v1 line names the family, both addresses and both ports, in this order, the
/// client's first each time; ports are numbers up to 65535. A line of an unknown
/// family carries no identity.
pub proof fn v1_lines_name_both_ends(
    family: Seq<char>,
    from: Seq<char>,
    to: Seq<char>,
    from_port: Seq<char>,
    to_port: Seq<char>,
    more: Seq<Seq<char>>,
)
    ensures
        v1_header(seq!["PROXY"@, "UNKNOWN"@] + more) == Ok::<ProxyHeader, ParseError>(
            ProxyHeader::Local,
        ),
        ({
            let read = v1_header(
                seq!["PROXY"@, family, from, to, from_port, to_port] + more,
            );
            let known = family == "TCP4"@ || family == "TCP6"@;
            let src_port = number(from_port);
            let dst_port = number(to_port);
            let spelled = ip_address(from) is Some && ip_address(to) is Some && src_port is Some
                && dst_port is Some && src_port->Some_0 <= 65535 && dst_port->Some_0 <= 65535;
            &&& known && spelled ==> read == Ok::<ProxyHeader, ParseError>(
                ProxyHeader::Proxy {
                    src: SocketAddr {
                        ip: ip_address(from)->Some_0,
                        port: src_port->Some_0 as u16,
                        flow: 0,
                        scope: 0,
                    },
                    dst: SocketAddr {
                        ip: ip_address(to)->Some_0,
                        port: dst_port->Some_0 as u16,
                        flow: 0,
                        scope: 0,
                    },
                },
            )
            &&& known && !spelled ==> read is Err
            &&& !known && family != "UNKNOWN"@ ==> read == Err::<ProxyHeader, ParseError>(
                ParseError::Malformed("unknown family"),
            )
        }),
{
    let short = seq!["PROXY"@, "UNKNOWN"@] + more;
    assert(short[0] == "PROXY"@ && short[1] == "UNKNOWN"@);
    let fields = seq!["PROXY"@, family, from, to, from_port, to_port] + more;
    assert(fields[0] == "PROXY"@ && fields[1] == family && fields[2] == from && fields[3] == to
        && fields[4] == from_port && fields[5] == to_port);
    reveal_strlit("UNKNOWN");
    reveal_strlit("TCP4");
    reveal_strlit("TCP6");
    assert("UNKNOWN"@.len() == 7 && "TCP4"@.len() == 4 && "TCP6"@.len() == 4);
}

/// A v1 header is the first line: it ends with a carriage return and a line
/// feed, its fields stand between single blanks, and it is not waited for beyond
/// 107 bytes.
pub proof fn v1_headers_are_one_line(line: Seq<u8>, rest: Seq<u8>)
    requires
        line.len() >= 6,
        line.take(6) == seq![0x50u8, 0x52, 0x4F, 0x58, 0x59, 0x20],
        forall|i: int| 0 <= i < line.len() ==> #[trigger] line[i] != 0x0D,
    ensures
        ({
            let read = header_at(line + seq![0x0Du8, 0x0A] + rest);
            &&& !valid_utf8(line) ==> read == Err::<(ProxyHeader, nat), ParseError>(
                ParseError::Malformed("not UTF-8"),
            )
            &&& valid_utf8(line) ==> match v1_header(split(decode_utf8(line), ' ')) {
                Ok(header) => read == Ok::<(ProxyHeader, nat), ParseError>(
                    (header, line.len() + 2),
                ),
                Err(error) => read == Err::<(ProxyHeader, nat), ParseError>(error),
            }
        }),
        header_at(line) == Err::<(ProxyHeader, nat), ParseError>(
            if line.len() >= 107 {
                ParseError::TooLong
            } else {
                ParseError::Incomplete
            },
        ),
{
    let all = line + seq![0x0Du8, 0x0A] + rest;
    assert(line[0] == line.take(6)[0] && all[0] == line[0]);
    assert(V1_PREFIX@ =~= line.take(6));
    assert(V1_PREFIX@.take(6) =~= V1_PREFIX@);
    assert(all.take(6) =~= line.take(6));
    let n2 = if all.len() < 12 {
        all.len() as int
    } else {
        12
    };
    let n3 = if line.len() < 12 {
        line.len() as int
    } else {
        12
    };
    assert(all.take(n2)[0] != V2_SIGNATURE@.take(n2)[0]);
    assert(line.take(n3)[0] != V2_SIGNATURE@.take(n3)[0]);
    lemma_line_end_is(line, rest);
    lemma_no_line_end(line);
    assert(all.take(line.len() as int) =~= line);
}

proof fn lemma_line_end_is(line: Seq<u8>, rest: Seq<u8>)
    requires
        forall|i: int| 0 <= i < line.len() ==> #[trigger] line[i] != 0x0D,
    ensures
        line_end(line + seq![0x0Du8, 0x0A] + rest) == line.len(),
    decreases line.len(),
{
    let all = line + seq![0x0Du8, 0x0A] + rest;
    if line.len() > 0 {
        let shorter = line.drop_first();
        assert forall|i: int| 0 <= i < shorter.len() implies #[trigger] shorter[i] != 0x0D by {
            assert(shorter[i] == line[i + 1]);
        }
        lemma_line_end_is(shorter, rest);
        assert(all.drop_first() =~= shorter + seq![0x0Du8, 0x0A] + rest);
        assert(all[0] == line[0]);
    } else {
        assert(all[0] == 0x0D && all[1] == 0x0A);
    }
}

proof fn lemma_no_line_end(line: Seq<u8>)
    requires
        forall|i: int| 0 <= i < line.len() ==> #[trigger] line[i] != 0x0D,
    ensures
        line_end(line) == line.len(),
    decreases line.len(),
{
    if line.len() >= 2 {
        let shorter = line.drop_first();
        assert forall|i: int| 0 <= i < shorter.len() implies #[trigger] shorter[i] != 0x0D by {
            assert(shorter[i] == line[i + 1]);
        }
        lemma_no_line_end(shorter);
        assert(line[0] != 0x0D);
    }
}

} // verus!
