//! Reading a PROXY protocol header from an upstream load balancer.
//!
//! Parsing is `proxy_header`'s job: it handles v1 and v2, TLVs and all the edge
//! cases. What stays here is the part that is a policy decision rather than a
//! parsing problem: a header is a *claim* about who is connecting, and it is
//! only believed when it comes from a peer the operator listed as trusted.

use vstd::prelude::*;

use crate::forwarding::proxy_protocol::{agrees, agrees_with, V1_PREFIX, V2_SIGNATURE};
use crate::net::{IpAddr, SocketAddr};

verus! {

/// Why there is no header to be had.
#[derive(Debug, Clone, Copy, PartialEq, Eq, Structural)]
pub enum Error {
    /// Need more bytes.
    Incomplete,
    /// No PROXY protocol header present.
    NotPresent,
    /// A header that says something it must not.
    Malformed,
}

impl Error {
    /// True when more data could still turn this into a header.
    pub fn is_incomplete(&self) -> (yes: bool)
        ensures
            yes == (*self is Incomplete),
    {
        matches!(self, Error::Incomplete)
    }
}

/// What `proxy_header` makes of bytes.
#[derive(Debug, Clone, Copy, PartialEq, Eq, Structural)]
pub enum Parsed {
    /// A header: who is connecting, where it says so, and its length.
    Header { source: Option<SocketAddr>, len: usize },
    /// The bytes end before the header does.
    TooShort,
    /// The bytes are no header.
    Invalid,
}

/// What `proxy_header` makes of bytes, without TLVs and with both versions
/// allowed.
pub uninterp spec fn parsed_header(bytes: Seq<u8>) -> Parsed;

/// `proxy_header::ProxyHeader::parse`: the header at the front of `buf`. Which
/// bytes are a header, and of whom, is left to `proxy_header` under a name; a
/// header never claims more bytes than there are. TLVs are not used here, and
/// skipping them saves an allocation per connection. The addresses that it gives
/// have neither flow information nor scope.
#[verifier::external_body]
fn parse_header(buf: &[u8]) -> (parsed: Parsed)
    ensures
        parsed == parsed_header(buf@),
        parsed is Header ==> parsed->len <= buf@.len(),
{
    let config =
        proxy_header::ParseConfig { include_tlvs: false, allow_v1: true, allow_v2: true };
    let ip_of = |net: ipnet::IpNet| match net {
        ipnet::IpNet::V4(net) => IpAddr::V4(net.addr().into()),
        ipnet::IpNet::V6(net) => IpAddr::V6(net.addr().into()),
    };
    match proxy_header::ProxyHeader::parse(buf, config) {
        Ok((header, len)) => Parsed::Header {
            source: header.proxied_address().map(|a| a.source)
                .map(|a| SocketAddr { ip: ip_of(a.ip().into()), port: a.port(), flow: 0, scope: 0 }),
            len },
        Err(proxy_header::Error::BufferTooShort) => Parsed::TooShort,
        Err(_) => Parsed::Invalid,
    }
}

/// Whether bytes could still become a header: they agree with one of the two
/// known beginnings as far as they go.
pub open spec fn possible_header(bytes: Seq<u8>) -> bool {
    bytes.len() == 0 || agrees(bytes, V2_SIGNATURE@) || agrees(bytes, V1_PREFIX@)
}

/// Could these bytes still become a PROXY header?
///
/// Returns `false` as soon as the buffer diverges from both known prefixes, so
/// a Minecraft handshake is recognised as "no header" on its first byte.
pub fn could_be_header(buf: &[u8]) -> (yes: bool)
    ensures
        yes == possible_header(buf@),
{
    buf.len() == 0 || agrees_with(buf, V2_SIGNATURE.as_slice()) || agrees_with(
        buf,
        V1_PREFIX.as_slice(),
    )
}

/// What a parsed header means here. Bytes that cannot be a header are none,
/// whatever the parser says of them.
pub open spec fn judged(possible: bool, parsed: Parsed) -> Result<(Option<SocketAddr>, usize), Error> {
    if !possible {
        Err(Error::NotPresent)
    } else {
        match parsed {
            Parsed::Header { source, len } => Ok((source, len)),
            Parsed::TooShort => Err(Error::Incomplete),
            Parsed::Invalid => Err(Error::Malformed),
        }
    }
}

/// What a parsed header means here.
pub fn judge(possible: bool, parsed: Parsed) -> (r: Result<(Option<SocketAddr>, usize), Error>)
    ensures
        r == judged(possible, parsed),
{
    if !possible {
        return Err(Error::NotPresent);
    }
    match parsed {
        Parsed::Header { source, len } => Ok((source, len)),
        Parsed::TooShort => Err(Error::Incomplete),
        Parsed::Invalid => Err(Error::Malformed),
    }
}

/// Parses a header from the front of `buf`.
///
/// Returns the proxied source address (`None` for the `LOCAL` command, which an
/// upstream health check sends and which carries no client identity) and how
/// many bytes the header occupied.
pub fn parse(buf: &[u8]) -> (r: Result<(Option<SocketAddr>, usize), Error>)
    ensures
        r == judged(possible_header(buf@), parsed_header(buf@)),
        r is Ok ==> r->Ok_0.1 <= buf@.len(),
{
    if !could_be_header(buf) {
        return Err(Error::NotPresent);
    }
    judge(true, parse_header(buf))
}

/// Bytes whose first byte starts neither form have no header, whatever follows.
pub proof fn first_byte_decides(bytes: Seq<u8>)
    requires
        bytes.len() > 0,
        bytes[0] != 0x0D,
        bytes[0] != 0x50,
    ensures
        !possible_header(bytes),
        judged(possible_header(bytes), parsed_header(bytes)) == Err::<
            (Option<SocketAddr>, usize),
            Error,
        >(Error::NotPresent),
{
    crate::forwarding::proxy_protocol::first_byte_rules_a_header_out(bytes);
    assert(V2_SIGNATURE@[0] == 0x0D);
    assert(V1_PREFIX@[0] == 0x50);
    let n2 = if bytes.len() < 12 {
        bytes.len() as int
    } else {
        12
    };
    let n1 = if bytes.len() < 6 {
        bytes.len() as int
    } else {
        6
    };
    assert(bytes.take(n2)[0] != V2_SIGNATURE@.take(n2)[0]);
    assert(bytes.take(n1)[0] != V1_PREFIX@.take(n1)[0]);
}

/// Every beginning of one of the two forms could become a header, and so could
/// everything that begins with a whole one; bytes that differ from both could
/// not.
pub proof fn headers_begin_in_two_ways(bytes: Seq<u8>, n: int, i: int, j: int)
    ensures
        0 <= n <= 12 ==> possible_header(signature().take(n)),
        0 <= n <= 6 ==> possible_header(word().take(n)),
        possible_header(signature() + bytes),
        possible_header(word() + bytes),
        0 <= i < bytes.len() && i < 12 && 0 <= j < bytes.len() && j < 6 && bytes[i]
            != signature()[i] && bytes[j] != word()[j] ==> !possible_header(bytes),
{
    let sig = signature();
    let prefix = word();
    assert(V2_SIGNATURE@ =~= sig);
    assert(V1_PREFIX@ =~= prefix);
    if 0 <= n <= 12 {
        assert(sig.take(n).take(n) =~= sig.take(n));
    }
    if 0 <= n <= 6 {
        assert(prefix.take(n).take(n) =~= prefix.take(n));
    }
    assert((sig + bytes).take(12) =~= sig.take(12));
    assert((prefix + bytes).take(6) =~= prefix.take(6));
    if 0 <= i < bytes.len() && i < 12 && 0 <= j < bytes.len() && j < 6 && bytes[i] != sig[i]
        && bytes[j] != prefix[j] {
        let n2 = if bytes.len() < 12 {
            bytes.len() as int
        } else {
            12
        };
        let n1 = if bytes.len() < 6 {
            bytes.len() as int
        } else {
            6
        };
        assert(bytes.take(n2)[i] != sig.take(n2)[i]);
        assert(bytes.take(n1)[j] != prefix.take(n1)[j]);
    }
}

/// The twelve bytes in front of a binary header.
pub open spec fn signature() -> Seq<u8> {
    seq![0x0D, 0x0A, 0x0D, 0x0A, 0x00, 0x0D, 0x0A, 0x51, 0x55, 0x49, 0x54, 0x0A]
}

/// `PROXY` and a blank.
pub open spec fn word() -> Seq<u8> {
    seq![0x50, 0x52, 0x4F, 0x58, 0x59, 0x20]
}

/// Bytes that cannot be a header are none, and of those that can, a header is
/// passed on with its source and length, a short one asks for more bytes, and
/// everything else is malformed.
pub proof fn headers_are_passed_on(source: Option<SocketAddr>, len: usize, parsed: Parsed)
    ensures
        judged(false, parsed) == Err::<(Option<SocketAddr>, usize), Error>(Error::NotPresent),
        judged(true, Parsed::Header { source, len }) == Ok::<(Option<SocketAddr>, usize), Error>(
            (source, len),
        ),
        judged(true, Parsed::TooShort) == Err::<(Option<SocketAddr>, usize), Error>(
            Error::Incomplete,
        ),
        judged(true, Parsed::Invalid) == Err::<(Option<SocketAddr>, usize), Error>(
            Error::Malformed,
        ),
{
}

} // verus!
