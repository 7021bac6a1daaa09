//! Linux TPROXY: connect to the backend *as* the client.
//!
//! The outbound socket is bound to the client's own address before connecting,
//! so the backend's `accept()` reports the real player IP. Nothing is added to
//! the byte stream, which is why this works for vanilla and for every modloader
//! without any support on their side.

use vstd::prelude::*;

use crate::config::cidr::{unmap, unmapped};
use crate::net::{plain_socket, socket_text, IpAddr, SocketAddr};
use crate::text::{glue5, same_text};

verus! {

/// Whether a platform can make transparent connections at all.
pub fn is_supported(target_os: &str) -> (yes: bool)
    ensures
        yes == (target_os@ == "linux"@),
{
    same_text(target_os, "linux")
}

/// Why a client cannot be imitated.
#[derive(Debug, Clone, Copy, PartialEq, Eq, Structural)]
pub struct FamilyMismatch {
    /// An IPv6 client.
    pub client: SocketAddr,
    /// An IPv4 backend.
    pub backend: SocketAddr,
}

impl FamilyMismatch {
    /// The mismatch in words.
    pub fn to_text(&self) -> (text: String)
        ensures
            text@ == "cannot transparently connect an IPv6 client ("@ + socket_text(self.client)
                + ") to an IPv4 backend ("@ + socket_text(self.backend)
                + "); give the backend an IPv6 address"@,
    {
        glue5(
            "cannot transparently connect an IPv6 client (",
            self.client.to_text().as_str(),
            ") to an IPv4 backend (",
            self.backend.to_text().as_str(),
            "); give the backend an IPv6 address",
        )
    }
}

/// A client's address; one that is an IPv4 address in IPv6 form, as IPv4.
pub open spec fn unmapped_socket(client: SocketAddr) -> SocketAddr {
    if unmapped(client.ip) == client.ip {
        client
    } else {
        plain_socket(unmapped(client.ip), client.port)
    }
}

/// The address to bind for a client, so that it fits the backend's family. An
/// IPv4 client can be expressed on an IPv6 socket; an IPv6 client cannot be
/// expressed as IPv4 at all.
pub open spec fn bind_address(client: SocketAddr, backend: SocketAddr) -> Result<
    SocketAddr,
    FamilyMismatch,
> {
    let plain = unmapped_socket(client);
    match (plain.ip, backend.ip) {
        (IpAddr::V4(bits), IpAddr::V6(_)) => Ok(
            plain_socket(IpAddr::V6((0xffff_0000_0000 + bits) as u128), client.port),
        ),
        (IpAddr::V6(_), IpAddr::V4(_)) => Err(FamilyMismatch { client: plain, backend }),
        _ => Ok(plain),
    }
}

/// Makes the client address usable as a bind address for a socket of the
/// backend's family.
pub fn match_family(client: SocketAddr, backend: SocketAddr) -> (r: Result<
    SocketAddr,
    FamilyMismatch,
>)
    ensures
        r == bind_address(client, backend),
{
    let ip = unmap(client.ip);
    let plain = if ip == client.ip {
        client
    } else {
        SocketAddr::new(ip, client.port)
    };
    match (plain.ip, backend.ip) {
        (IpAddr::V4(bits), IpAddr::V6(_)) => Ok(
            SocketAddr::new(IpAddr::V6(0xffff_0000_0000u128 + bits as u128), client.port),
        ),
        (IpAddr::V6(_), IpAddr::V4(_)) => Err(FamilyMismatch { client: plain, backend }),
        _ => Ok(plain),
    }
}

/// The address to bind has the backend's family, the client's port, and is the
/// client's own address.
pub proof fn bound_address_is_the_client(client: SocketAddr, backend: SocketAddr)
    ensures
        match bind_address(client, backend) {
            Ok(bound) => {
                &&& bound.ip is V4 == backend.ip is V4
                &&& bound.port == client.port
                &&& unmapped(bound.ip) == unmapped(client.ip)
            },
            Err(_) => unmapped(client.ip) is V6 && backend.ip is V4,
        },
{
    let plain = unmapped(client.ip);
    match (plain, backend.ip) {
        (IpAddr::V4(bits), IpAddr::V6(_)) => {
            crate::config::cidr::mapped_is_the_same_address(bits);
        },
        _ => {
            crate::config::cidr::unmapping_is_final(client.ip);
        },
    }
}

/// A client is imitated unless it is an IPv6 client of an IPv4 backend. Between
/// sockets of one family its address is taken as it is, and a mapped IPv4
/// address is the IPv4 address inside.
pub proof fn clients_are_imitated_as_they_are(client: SocketAddr, backend: SocketAddr, bits: u32)
    ensures
        (bind_address(client, backend) is Err) == (unmapped(client.ip) is V6 && backend.ip is V4),
        client.ip is V4 && backend.ip is V4 ==> bind_address(client, backend) == Ok::<
            SocketAddr,
            FamilyMismatch,
        >(client),
        unmapped(client.ip) is V6 && backend.ip is V6 ==> bind_address(client, backend) == Ok::<
            SocketAddr,
            FamilyMismatch,
        >(client),
        unmapped(client.ip) is V6 && backend.ip is V4 ==> bind_address(client, backend) == Err::<
            SocketAddr,
            FamilyMismatch,
        >(FamilyMismatch { client, backend }),
        unmapped(client.ip) == IpAddr::V4(bits) && backend.ip is V6 ==> bind_address(
            client,
            backend,
        ) == Ok::<SocketAddr, FamilyMismatch>(
            SocketAddr {
                ip: IpAddr::V6((0xffff_0000_0000 + bits) as u128),
                port: client.port,
                flow: 0,
                scope: 0,
            },
        ),
        client.ip is V6 && unmapped(client.ip) == IpAddr::V4(bits) && backend.ip is V4
            ==> bind_address(client, backend) == Ok::<SocketAddr, FamilyMismatch>(
            SocketAddr { ip: IpAddr::V4(bits), port: client.port, flow: 0, scope: 0 },
        ),
{
    crate::config::cidr::only_mapped_addresses_change(client.ip, client.ip);
}

} // verus!
