//! Lists of IP networks, matched by the `ipnet` crate.

use vstd::prelude::*;

use crate::config::cidr::{in_network, prefix_agrees_v4, prefix_agrees_v6, unmapped, width};
use crate::net::IpAddr;

verus! {

/// An address and how many of its leading bits a network shares.
#[derive(Debug, Clone, Copy, PartialEq, Eq, Structural)]
pub struct IpNet {
    pub addr: IpAddr,
    pub prefix: u8,
}

impl IpNet {
    /// The prefix fits the address.
    pub open spec fn wf(&self) -> bool {
        self.prefix <= width(self.addr)
    }
}

/// `ipnet::Ipv4Net::contains`: whether `ip` lies between the first and the last
/// address of the network, that is, shares its first `prefix` bits.
#[verifier::external_body]
fn v4_net_contains(net: u32, prefix: u8, ip: u32) -> (yes: bool)
    requires
        prefix <= 32,
    ensures
        yes == prefix_agrees_v4(net, ip, prefix),
{
    let net = ipnet::Ipv4Net::new(net.into(), prefix);
    let host = ipnet::Ipv4Net::new(ip.into(), 32);
    net.ok().zip(host.ok()).is_some_and(|(net, host)| net.contains(&host.addr()))
}

/// `ipnet::Ipv6Net::contains`: whether `ip` lies between the first and the last
/// address of the network, that is, shares its first `prefix` bits.
#[verifier::external_body]
fn v6_net_contains(net: u128, prefix: u8, ip: u128) -> (yes: bool)
    requires
        prefix <= 128,
    ensures
        yes == prefix_agrees_v6(net, ip, prefix),
{
    let net = ipnet::Ipv6Net::new(net.into(), prefix);
    let host = ipnet::Ipv6Net::new(ip.into(), 128);
    net.ok().zip(host.ok()).is_some_and(|(net, host)| net.contains(&host.addr()))
}

/// A list of networks. An empty list matches nothing.
#[derive(Debug, Clone, PartialEq, Eq)]
pub struct IpNets(pub Vec<IpNet>);

impl IpNets {
    /// Every network of the list is well formed.
    pub open spec fn wf(&self) -> bool {
        forall|i: int| 0 <= i < self.0@.len() ==> (#[trigger] self.0@[i]).wf()
    }

    /// Whether some network of the list holds `ip`.
    pub open spec fn matches(&self, ip: IpAddr) -> bool {
        exists|i: int|
            0 <= i < self.0@.len() && in_network(
                (#[trigger] self.0@[i]).addr,
                self.0@[i].prefix,
                unmapped(ip),
            )
    }

    /// Whether some network of the list holds `ip`.
    pub fn contains(&self, ip: IpAddr) -> (yes: bool)
        requires
            self.wf(),
        ensures
            yes == self.matches(ip),
    {
        let plain = unmap(ip);
        let mut i: usize = 0;
        while i < self.0.len()
            invariant
                i <= self.0@.len(),
                self.wf(),
                plain == unmapped(ip),
                forall|j: int|
                    0 <= j < i ==> !in_network(
                        (#[trigger] self.0@[j]).addr,
                        self.0@[j].prefix,
                        plain,
                    ),
            decreases self.0@.len() - i,
        {
            let net = self.0[i];
            assert(self.0@[i as int].wf());
            let inside: bool = match (net.addr, plain) {
                (IpAddr::V4(addr), IpAddr::V4(ip)) => v4_net_contains(addr, net.prefix, ip),
                (IpAddr::V6(addr), IpAddr::V6(ip)) => v6_net_contains(addr, net.prefix, ip),
                _ => false,
            };
            if inside {
                return true;
            }
            i = i + 1;
        }
        false
    }

    /// Whether there is no network in the list.
    pub fn is_empty(&self) -> (yes: bool)
        ensures
            yes == (self.0@.len() == 0),
    {
        self.0.len() == 0
    }
}

impl Default for IpNets {
    fn default() -> (nets: Self)
        ensures
            nets.0@.len() == 0,
            nets.wf(),
    {
        IpNets(Vec::new())
    }
}

/// Converts an IPv4-mapped IPv6 address back to plain IPv4.
///
/// A dual-stack listener reports IPv4 peers as `::ffff:a.b.c.d`. Without this
/// every IPv4 rule would silently stop matching the moment the listener binds
/// to `[::]`, and every IPv4 client would get its own fresh limit budget.
pub fn unmap(ip: IpAddr) -> (r: IpAddr)
    ensures
        r == unmapped(ip),
{
    crate::config::cidr::unmap(ip)
}

/// A list holds the addresses that one of its networks holds, a mapped IPv4
/// address being taken for the IPv4 address inside; an empty list holds none.
pub proof fn lists_hold_what_their_networks_hold(nets: IpNets, ip: IpAddr, i: int)
    ensures
        0 <= i < nets.0@.len() && in_network(nets.0@[i].addr, nets.0@[i].prefix, unmapped(ip))
            ==> nets.matches(ip),
        (forall|k: int|
            0 <= k < nets.0@.len() ==> !in_network(
                (#[trigger] nets.0@[k]).addr,
                nets.0@[k].prefix,
                unmapped(ip),
            )) ==> !nets.matches(ip),
        nets.0@.len() == 0 ==> !nets.matches(ip),
        nets.matches(ip) == nets.matches(unmapped(ip)),
{
    crate::config::cidr::unmapping_is_final(ip);
}

} // verus!
