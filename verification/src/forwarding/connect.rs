//! Which way a connection to a backend is opened, and what it starts with.

use vstd::prelude::*;

use crate::config::cidr::{mapped_is_the_same_address, unmapped};
use crate::config::model::Forwarding;
use crate::forwarding::proxy_protocol::{
    encode_v2, encode_v2_local, header_at, local_header_carries_no_identity, v2_bytes,
    v2_local_bytes, v2_round_trip, ParseError, ProxyHeader,
};
use crate::forwarding::transparent::is_supported;
use crate::net::{IpAddr, SocketAddr};
use crate::text::{glue3, glue5};
use crate::time::{span_text, Duration};

verus! {

/// Who a connection is being opened for.
#[derive(Debug, Clone, Copy, PartialEq, Eq, Structural)]
pub enum Origin {
    /// A client's connection: its own address, and the address it dialled.
    Client { src: SocketAddr, dst: SocketAddr },
    /// The gateway itself: health checks and probes, which have no client to
    /// impersonate and always connect normally.
    Gateway,
}

/// What a platform does for client connections.
#[derive(Debug, Clone, Copy, PartialEq, Eq, Structural)]
pub enum Mode {
    /// Linux: bind the client's address (TPROXY).
    Transparent,
    /// Everywhere else: an ordinary connection.
    Direct,
}

impl Mode {
    /// The mode of a platform.
    pub fn current(target_os: &str) -> (mode: Self)
        ensures
            mode == if target_os@ == "linux"@ {
                Mode::Transparent
            } else {
                Mode::Direct
            },
    {
        if is_supported(target_os) {
            Mode::Transparent
        } else {
            Mode::Direct
        }
    }

    /// The name of the mode.
    pub fn as_str(self) -> (name: &'static str)
        ensures
            name@ == match self {
                Mode::Transparent => "transparent"@,
                Mode::Direct => "direct"@,
            },
    {
        match self {
            Mode::Transparent => "transparent",
            Mode::Direct => "direct",
        }
    }

    /// The address that a connection is bound to before it is opened: the
    /// client's, where there is a client and the platform can imitate it.
    pub fn bind_for(self, origin: Origin) -> (client: Option<SocketAddr>)
        ensures
            client == match (self, origin) {
                (Mode::Transparent, Origin::Client { src, .. }) => Some(src),
                _ => None::<SocketAddr>,
            },
    {
        match (self, origin) {
            (Mode::Transparent, Origin::Client { src, .. }) => Some(src),
            _ => None,
        }
    }
}

/// Why a backend cannot be reached.
#[derive(Debug, Clone, PartialEq, Eq)]
pub enum ConnectError {
    /// It did not answer in time.
    Timeout { address: String, timeout: Duration },
    /// Its name cannot be looked up.
    Resolve { address: String, reason: String },
    /// Its name stands for nothing.
    NoAddress { address: String },
    /// The connection failed.
    Io { address: String, reason: String },
}

/// An error in words.
pub open spec fn connect_error_text(error: ConnectError) -> Seq<char> {
    match error {
        ConnectError::Timeout { address, timeout } => "connect to "@ + address@
            + " timed out after "@ + span_text(timeout) + ""@,
        ConnectError::Resolve { address, reason } => "cannot resolve `"@ + address@ + "`: "@
            + reason@ + ""@,
        ConnectError::NoAddress { address } => "`"@ + address@ + "` resolved to no addresses"@,
        ConnectError::Io { address, reason } => "connect to "@ + address@ + " failed: "@ + reason@
            + ""@,
    }
}

/// Short metrics label of an error.
pub open spec fn connect_error_kind(error: ConnectError) -> Seq<char> {
    match error {
        ConnectError::Timeout { .. } => "timeout"@,
        ConnectError::Resolve { .. } => "resolve"@,
        ConnectError::NoAddress { .. } => "no_address"@,
        ConnectError::Io { .. } => "io"@,
    }
}

impl ConnectError {
    /// Short metrics label.
    pub fn kind(&self) -> (label: &'static str)
        ensures
            label@ == connect_error_kind(*self),
    {
        match self {
            ConnectError::Timeout { .. } => "timeout",
            ConnectError::Resolve { .. } => "resolve",
            ConnectError::NoAddress { .. } => "no_address",
            ConnectError::Io { .. } => "io",
        }
    }

    /// The error in words.
    pub fn to_text(&self) -> (text: String)
        ensures
            text@ == connect_error_text(*self),
    {
        match self {
            ConnectError::Timeout { address, timeout } => glue5(
                "connect to ",
                address.as_str(),
                " timed out after ",
                timeout.to_text().as_str(),
                "",
            ),
            ConnectError::Resolve { address, reason } => glue5(
                "cannot resolve `",
                address.as_str(),
                "`: ",
                reason.as_str(),
                "",
            ),
            ConnectError::NoAddress { address } => glue3(
                "`",
                address.as_str(),
                "` resolved to no addresses",
            ),
            ConnectError::Io { address, reason } => glue5(
                "connect to ",
                address.as_str(),
                " failed: ",
                reason.as_str(),
                "",
            ),
        }
    }
}

/// The forwarding that a connection really uses. A status ping must never be
/// forwarded transparently: binding to the client's address for a probe would
/// put a stray socket on the host.
pub fn effective_forwarding(forwarding: Forwarding, login: bool) -> (effective: Forwarding)
    ensures
        effective == if !login && forwarding == Forwarding::Transparent {
            Forwarding::Plain
        } else {
            forwarding
        },
{
    if !login && forwarding == Forwarding::Transparent {
        Forwarding::Plain
    } else {
        forwarding
    }
}

/// What the backend reads before the first Minecraft byte: a PROXY header where
/// it asks for one, and then one that names the client, or none where there is
/// no client.
pub open spec fn opening(forwarding: Forwarding, origin: Origin) -> Seq<u8> {
    match (forwarding, origin) {
        (Forwarding::ProxyProtocolV2, Origin::Client { src, dst }) => v2_bytes(src, dst),
        (Forwarding::ProxyProtocolV2, Origin::Gateway) => v2_local_bytes(),
        _ => Seq::empty(),
    }
}

/// What the backend reads before the first Minecraft byte.
pub fn opening_bytes(forwarding: Forwarding, origin: Origin) -> (bytes: Vec<u8>)
    ensures
        bytes@ == opening(forwarding, origin),
{
    match (forwarding, origin) {
        (Forwarding::ProxyProtocolV2, Origin::Client { src, dst }) => encode_v2(src, dst),
        (Forwarding::ProxyProtocolV2, Origin::Gateway) => encode_v2_local(),
        _ => {
            let bytes: Vec<u8> = Vec::new();
            assert(bytes@ =~= opening(forwarding, origin));
            bytes
        },
    }
}

/// The gateway's own connections never carry a client's address.
pub proof fn gateway_connections_claim_nobody(forwarding: Forwarding, rest: Seq<u8>)
    ensures
        forwarding != Forwarding::ProxyProtocolV2 ==> opening(forwarding, Origin::Gateway)
            == Seq::<u8>::empty(),
        forwarding == Forwarding::ProxyProtocolV2
            ==> header_at(opening(forwarding, Origin::Gateway) + rest) == Ok::<
            (ProxyHeader, nat),
            ParseError,
        >((ProxyHeader::Local, 16)),
{
    local_header_carries_no_identity(rest);
}

/// A backend that asks for PROXY headers can read from the first bytes who the
/// client is; every other backend reads nothing before the first Minecraft byte.
pub proof fn clients_are_named_where_asked(
    forwarding: Forwarding,
    origin: Origin,
    src: SocketAddr,
    dst: SocketAddr,
    rest: Seq<u8>,
)
    ensures
        forwarding == Forwarding::ProxyProtocolV2 ==> match header_at(
            opening(forwarding, Origin::Client { src, dst }) + rest,
        ) {
            Ok((ProxyHeader::Proxy { src: from, dst: to }, len)) => {
                &&& len == opening(forwarding, Origin::Client { src, dst }).len()
                &&& unmapped(from.ip) == unmapped(src.ip)
                &&& unmapped(to.ip) == unmapped(dst.ip)
                &&& from.port == src.port
                &&& to.port == dst.port
            },
            _ => false,
        },
        forwarding != Forwarding::ProxyProtocolV2 ==> opening(forwarding, origin).len() == 0,
{
    v2_round_trip(src, dst, rest);
    if let IpAddr::V4(bits) = src.ip {
        mapped_is_the_same_address(bits);
    }
    if let IpAddr::V4(bits) = dst.ip {
        mapped_is_the_same_address(bits);
    }
}

/// Every way to miss a backend has its own label.
pub proof fn failures_have_their_labels(address: String, timeout: Duration, reason: String)
    ensures
        connect_error_kind(ConnectError::Timeout { address, timeout }) == "timeout"@,
        connect_error_kind(ConnectError::Resolve { address, reason }) == "resolve"@,
        connect_error_kind(ConnectError::NoAddress { address }) == "no_address"@,
        connect_error_kind(ConnectError::Io { address, reason }) == "io"@,
{
}

/// A backend that cannot be reached is told by its address and why.
pub proof fn failures_are_told_apart(address: String, timeout: Duration, reason: String)
    ensures
        connect_error_text(ConnectError::Timeout { address, timeout }) == "connect to "@ + address@
            + " timed out after "@ + span_text(timeout),
        connect_error_text(ConnectError::Resolve { address, reason }) == "cannot resolve `"@
            + address@ + "`: "@ + reason@,
        connect_error_text(ConnectError::NoAddress { address }) == "`"@ + address@
            + "` resolved to no addresses"@,
        connect_error_text(ConnectError::Io { address, reason }) == "connect to "@ + address@
            + " failed: "@ + reason@,
{
    reveal_strlit("");
    assert(""@ =~= Seq::<char>::empty());
    assert("connect to "@ + address@ + " timed out after "@ + span_text(timeout) + ""@
        =~= "connect to "@ + address@ + " timed out after "@ + span_text(timeout));
    assert("cannot resolve `"@ + address@ + "`: "@ + reason@ + ""@ =~= "cannot resolve `"@
        + address@ + "`: "@ + reason@);
    assert("connect to "@ + address@ + " failed: "@ + reason@ + ""@ =~= "connect to "@ + address@
        + " failed: "@ + reason@);
}

} // verus!
