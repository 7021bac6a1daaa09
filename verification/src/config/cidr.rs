//! IP networks in CIDR notation.

use vstd::arithmetic::power2::pow2;
use vstd::bits::{lemma_u128_shr_is_div, lemma_u32_shr_is_div};
use vstd::prelude::*;
use vstd::string::StringExecFns;

use crate::net::{ip_address, ip_text, parse_ip, IpAddr};
use crate::text::{
    decimal, find, find_char, lemma_find_is, number, parse_number, push_decimal, sub_chars,
    to_chars,
};

verus! {

/// An IP network such as `10.0.0.0/8`, `::1/128` or a bare address.
#[derive(Debug, Clone, Copy, PartialEq, Eq, Structural)]
pub struct IpNet {
    addr: IpAddr,
    prefix: u8,
}

/// How many bits an address of this family has.
pub open spec fn width(ip: IpAddr) -> nat {
    match ip {
        IpAddr::V4(_) => 32,
        IpAddr::V6(_) => 128,
    }
}

/// An IPv4-mapped IPv6 address as plain IPv4; any other address as it is.
pub open spec fn unmapped(ip: IpAddr) -> IpAddr {
    match ip {
        IpAddr::V6(bits) => if bits / 0x1_0000_0000 == 0xffff {
            IpAddr::V4((bits % 0x1_0000_0000) as u32)
        } else {
            ip
        },
        IpAddr::V4(_) => ip,
    }
}

/// Whether the first `prefix` bits of two IPv4 addresses agree.
pub open spec fn prefix_agrees_v4(a: u32, b: u32, prefix: u8) -> bool {
    prefix == 0 || a >> ((32 - prefix) as u32) == b >> ((32 - prefix) as u32)
}

/// Whether the first `prefix` bits of two IPv6 addresses agree.
pub open spec fn prefix_agrees_v6(a: u128, b: u128, prefix: u8) -> bool {
    prefix == 0 || a >> ((128 - prefix) as u128) == b >> ((128 - prefix) as u128)
}

/// Whether an address lies in the network of all addresses that share the first
/// `prefix` bits of `addr`. The two families never meet.
pub open spec fn in_network(addr: IpAddr, prefix: u8, ip: IpAddr) -> bool {
    match (addr, ip) {
        (IpAddr::V4(net), IpAddr::V4(ip)) => prefix_agrees_v4(net, ip, prefix),
        (IpAddr::V6(net), IpAddr::V6(ip)) => prefix_agrees_v6(net, ip, prefix),
        _ => false,
    }
}

/// What making a network of an address and a prefix length gives.
pub open spec fn network(addr: IpAddr, prefix: u8) -> Result<(IpAddr, u8), Seq<char>> {
    if prefix > width(addr) {
        Err("prefix /"@ + decimal(prefix as nat) + " is too long for "@ + ip_text(addr))
    } else {
        Ok((addr, prefix))
    }
}

/// The network that `s` spells, or what is wrong with it.
pub open spec fn network_of(s: Seq<char>) -> Result<(IpAddr, u8), Seq<char>> {
    let at = find(s, '/') as int;
    let prefix = if at < s.len() {
        number(s.skip(at + 1))
    } else {
        None
    };
    if at < s.len() && (prefix is None || prefix->Some_0 > u8::MAX) {
        Err("invalid prefix length in `"@ + s + "`"@)
    } else {
        match ip_address(s.take(at)) {
            None => Err("invalid IP address in `"@ + s + "`"@),
            Some(addr) => network(
                addr,
                if at < s.len() {
                    prefix->Some_0 as u8
                } else {
                    width(addr) as u8
                },
            ),
        }
    }
}

impl IpNet {
    /// An address of the network.
    pub closed spec fn address(&self) -> IpAddr {
        self.addr
    }

    /// How many leading bits all addresses of the network share.
    pub closed spec fn prefix_len(&self) -> u8 {
        self.prefix
    }

    /// The prefix fits the address.
    pub open spec fn wf(&self) -> bool {
        self.prefix_len() <= width(self.address())
    }

    /// The network around `addr` with that many leading bits in common.
    pub fn new(addr: IpAddr, prefix: u8) -> (r: Result<Self, String>)
        ensures
            match network(addr, prefix) {
                Ok((addr, prefix)) => r is Ok && r->Ok_0.wf() && r->Ok_0.address() == addr
                    && r->Ok_0.prefix_len() == prefix,
                Err(error) => r is Err && r->Err_0@ == error,
            },
    {
        let max: u8 = if addr.is_ipv4() {
            32
        } else {
            128
        };
        if prefix > max {
            let mut text = String::new();
            text.append("prefix /");
            push_decimal(&mut text, prefix as u128);
            text.append(" is too long for ");
            text.append(addr.to_text().as_str());
            assert(text@ =~= network(addr, prefix)->Err_0);
            return Err(text);
        }
        Ok(Self { addr, prefix })
    }

    /// Whether `ip` lies in the network.
    ///
    /// An IPv4 peer arriving on a dual-stack socket shows up as
    /// `::ffff:a.b.c.d`; comparing it against a v4 rule has to work or every v4
    /// rule silently stops matching the moment the listener binds to `[::]`.
    pub fn contains(&self, ip: IpAddr) -> (yes: bool)
        requires
            self.wf(),
        ensures
            yes == in_network(self.address(), self.prefix_len(), unmapped(ip)),
    {
        let ip = unmap(ip);
        match (self.addr, ip) {
            (IpAddr::V4(net), IpAddr::V4(ip)) => {
                masked_v4(net, self.prefix) == masked_v4(ip, self.prefix)
            },
            (IpAddr::V6(net), IpAddr::V6(ip)) => {
                masked_v6(net, self.prefix) == masked_v6(ip, self.prefix)
            },
            _ => false,
        }
    }

    /// Reads `address/prefix`, or a bare address.
    pub fn from_str(s: &str) -> (r: Result<Self, String>)
        ensures
            match network_of(s@) {
                Ok((addr, prefix)) => r is Ok && r->Ok_0.wf() && r->Ok_0.address() == addr
                    && r->Ok_0.prefix_len() == prefix,
                Err(error) => r is Err && r->Err_0@ == error,
            },
    {
        let chars = to_chars(s);
        let at: usize = find_char(chars.as_slice(), '/');
        let mut prefix: Option<u8> = None;
        if at < chars.len() {
            let digits = sub_chars(chars.as_slice(), at + 1, chars.len());
            assert(digits@ =~= s@.skip(at + 1));
            match parse_number(digits, 0xff) {
                Some(n) => {
                    prefix = Some(n as u8);
                },
                None => return Err(complaint("invalid prefix length in `", s)),
            }
        }
        let host = sub_chars(chars.as_slice(), 0, at);
        assert(host@ =~= s@.take(at as int));
        let addr = match parse_ip(host) {
            Some(addr) => addr,
            None => return Err(complaint("invalid IP address in `", s)),
        };
        let prefix: u8 = match prefix {
            Some(prefix) => prefix,
            None => if addr.is_ipv4() {
                32
            } else {
                128
            },
        };
        IpNet::new(addr, prefix)
    }

    /// The network as text.
    pub fn to_text(&self) -> (text: String)
        ensures
            text@ == ip_text(self.address()) + "/"@ + decimal(self.prefix_len() as nat),
    {
        let mut text = self.addr.to_text();
        text.append("/");
        push_decimal(&mut text, self.prefix as u128);
        text
    }
}

fn complaint(what: &str, s: &str) -> (text: String)
    ensures
        text@ == what@ + s@ + "`"@,
{
    let mut text = String::new();
    text.append(what);
    text.append(s);
    text.append("`");
    assert(text@ =~= what@ + s@ + "`"@);
    text
}

/// Converts an IPv4-mapped IPv6 address back to plain IPv4.
pub fn unmap(ip: IpAddr) -> (r: IpAddr)
    ensures
        r == unmapped(ip),
{
    match ip {
        IpAddr::V6(bits) => if bits / 0x1_0000_0000 == 0xffff {
            IpAddr::V4((bits % 0x1_0000_0000) as u32)
        } else {
            ip
        },
        IpAddr::V4(_) => ip,
    }
}

/// The first `prefix` bits of an IPv4 address.
fn masked_v4(bits: u32, prefix: u8) -> (r: u32)
    requires
        prefix <= 32,
    ensures
        r == if prefix == 0 {
            0
        } else {
            bits >> ((32 - prefix) as u32)
        },
{
    if prefix == 0 {
        0
    } else {
        bits >> ((32 - prefix) as u32)
    }
}

/// The first `prefix` bits of an IPv6 address.
fn masked_v6(bits: u128, prefix: u8) -> (r: u128)
    requires
        prefix <= 128,
    ensures
        r == if prefix == 0 {
            0
        } else {
            bits >> ((128 - prefix) as u128)
        },
{
    if prefix == 0 {
        0
    } else {
        bits >> ((128 - prefix) as u128)
    }
}

/// A list of networks; an empty list matches nothing.
#[derive(Debug, Clone, PartialEq, Eq)]
pub struct IpNets(pub Vec<IpNet>);

impl IpNets {
    /// Every network of the list is well formed.
    pub open spec fn wf(&self) -> bool {
        forall|i: int| 0 <= i < self.0@.len() ==> (#[trigger] self.0@[i]).wf()
    }

    /// Whether some network of the list holds `ip`.
    pub open spec fn matches(&self, ip: IpAddr) -> bool {
        exists|i: int|
            0 <= i < self.0@.len() && in_network(
                (#[trigger] self.0@[i]).address(),
                self.0@[i].prefix_len(),
                unmapped(ip),
            )
    }

    /// Whether some network of the list holds `ip`.
    pub fn contains(&self, ip: IpAddr) -> (yes: bool)
        requires
            self.wf(),
        ensures
            yes == self.matches(ip),
    {
        let mut i: usize = 0;
        while i < self.0.len()
            invariant
                i <= self.0@.len(),
                self.wf(),
                forall|j: int|
                    0 <= j < i ==> !in_network(
                        (#[trigger] self.0@[j]).address(),
                        self.0@[j].prefix_len(),
                        unmapped(ip),
                    ),
            decreases self.0@.len() - i,
        {
            if self.0[i].contains(ip) {
                return true;
            }
            i = i + 1;
        }
        false
    }

    /// Whether there is no network in the list.
    pub fn is_empty(&self) -> (yes: bool)
        ensures
            yes == (self.0@.len() == 0),
    {
        self.0.len() == 0
    }
}

impl Default for IpNets {
    fn default() -> (nets: Self)
        ensures
            nets.0@.len() == 0,
            nets.wf(),
    {
        IpNets(Vec::new())
    }
}

// -------------------------------------------------------------------- laws --

/// Unmapping is done once: a second time changes nothing.
pub proof fn unmapping_is_final(ip: IpAddr)
    ensures
        unmapped(unmapped(ip)) == unmapped(ip),
{
}

/// An IPv4 address that arrives mapped is the same address.
pub proof fn mapped_is_the_same_address(bits: u32)
    ensures
        unmapped(IpAddr::V6((0xffff_0000_0000 + bits) as u128)) == IpAddr::V4(bits),
{
}

/// A prefix of no bits takes in the whole family and nothing of the other.
pub proof fn zero_prefix_matches_the_family(addr: IpAddr, ip: IpAddr)
    ensures
        in_network(addr, 0, ip) == (addr is V4 == ip is V4),
{
}

/// A full prefix takes in one address only.
pub proof fn full_prefix_is_one_address(addr: IpAddr, ip: IpAddr)
    ensures
        in_network(addr, width(addr) as u8, ip) == (addr == ip),
{
    match (addr, ip) {
        (IpAddr::V4(a), IpAddr::V4(b)) => {
            assert((a >> 0u32 == b >> 0u32) == (a == b)) by (bit_vector);
        },
        (IpAddr::V6(a), IpAddr::V6(b)) => {
            assert((a >> 0u128 == b >> 0u128) == (a == b)) by (bit_vector);
        },
        _ => {},
    }
}

/// Only the addresses `::ffff:a.b.c.d` are unmapped; every other address is left
/// as it is, so two addresses that are not the same mapped and plain IPv4
/// address stay apart.
pub proof fn only_mapped_addresses_change(a: IpAddr, b: IpAddr)
    ensures
        a is V4 ==> unmapped(a) == a,
        a is V6 && (a->V6_0 < 0xffff_0000_0000 || a->V6_0 > 0xffff_ffff_ffff) ==> unmapped(a) == a,
        a is V6 && 0xffff_0000_0000 <= a->V6_0 <= 0xffff_ffff_ffff ==> unmapped(a) == IpAddr::V4(
            (a->V6_0 - 0xffff_0000_0000) as u32,
        ),
        unmapped(a) == unmapped(b) && (a is V4 == b is V4) ==> a == b,
{
    if let IpAddr::V6(bits) = a {
        let high = bits / 0x1_0000_0000;
        let low = bits % 0x1_0000_0000;
        assert(bits == high * 0x1_0000_0000 + low);
    }
    if let IpAddr::V6(bits) = b {
        let high = bits / 0x1_0000_0000;
        let low = bits % 0x1_0000_0000;
        assert(bits == high * 0x1_0000_0000 + low);
    }
}

/// A network holds the addresses of its family that begin with the same bits:
/// those that stay the same number when all bits behind the prefix are dropped.
pub proof fn networks_share_their_leading_bits(addr: IpAddr, prefix: u8, ip: IpAddr)
    requires
        prefix <= width(addr),
    ensures
        in_network(addr, prefix, ip) == match (addr, ip) {
            (IpAddr::V4(net), IpAddr::V4(bits)) => net as nat / pow2((32 - prefix) as nat)
                == bits as nat / pow2((32 - prefix) as nat),
            (IpAddr::V6(net), IpAddr::V6(bits)) => net as nat / pow2((128 - prefix) as nat)
                == bits as nat / pow2((128 - prefix) as nat),
            _ => false,
        },
{
    match (addr, ip) {
        (IpAddr::V4(net), IpAddr::V4(bits)) => {
            if prefix > 0 {
                lemma_u32_shr_is_div(net, (32 - prefix) as u32);
                lemma_u32_shr_is_div(bits, (32 - prefix) as u32);
            } else {
                lemma_small_power(net as nat, bits as nat, 32);
            }
        },
        (IpAddr::V6(net), IpAddr::V6(bits)) => {
            if prefix > 0 {
                lemma_u128_shr_is_div(net, (128 - prefix) as u128);
                lemma_u128_shr_is_div(bits, (128 - prefix) as u128);
            } else {
                lemma_small_power(net as nat, bits as nat, 128);
            }
        },
        _ => {},
    }
}

proof fn lemma_small_power(a: nat, b: nat, n: nat)
    requires
        n == 32 && a <= u32::MAX && b <= u32::MAX || n == 128 && a <= u128::MAX && b <= u128::MAX,
    ensures
        a / pow2(n) == 0,
        b / pow2(n) == 0,
{
    vstd::arithmetic::power2::lemma2_to64();
    vstd::arithmetic::power2::lemma2_to64_rest();
    vstd::arithmetic::power2::lemma_pow2_adds(64, 64);
    assert(pow2(128) == 0x1_0000_0000_0000_0000 * 0x1_0000_0000_0000_0000);
    vstd::arithmetic::div_mod::lemma_basic_div(a as int, pow2(n) as int);
    vstd::arithmetic::div_mod::lemma_basic_div(b as int, pow2(n) as int);
}

/// A network is spelled by an address and, behind a slash, how many bits count,
/// up to all bits of the address; without a slash all of them count.
pub proof fn networks_are_spelled_by_address_and_prefix(address: Seq<char>, digits: Seq<char>)
    requires
        !address.contains('/'),
    ensures
        ({
            let addr = ip_address(address);
            let bits = number(digits);
            let most: nat = if addr is Some && addr->Some_0 is V4 {
                32
            } else {
                128
            };
            let read = network_of(address + seq!['/'] + digits);
            &&& addr is Some ==> network_of(address) == Ok::<(IpAddr, u8), Seq<char>>(
                (addr->Some_0, most as u8),
            )
            &&& addr is None ==> network_of(address) is Err
            &&& addr is Some && bits is Some && bits->Some_0 <= most ==> read == Ok::<
                (IpAddr, u8),
                Seq<char>,
            >((addr->Some_0, bits->Some_0 as u8))
            &&& addr is None || bits is None || bits->Some_0 > most ==> read is Err
        }),
{
    let s = address + seq!['/'] + digits;
    let n = address.len() as int;
    assert forall|i: int| 0 <= i < n implies address[i] != '/' && s[i] != '/' by {
        assert(address.contains(address[i]));
        assert(s[i] == address[i]);
    }
    lemma_find_is(s, '/', n);
    lemma_find_is(address, '/', n);
    assert(s.take(n) =~= address);
    assert(s.skip(n + 1) =~= digits);
    assert(address.take(n) =~= address);
}

/// A list holds the addresses that one of its networks holds, a mapped IPv4
/// address being taken for the IPv4 address inside; an empty list holds none.
pub proof fn lists_hold_what_their_networks_hold(nets: IpNets, ip: IpAddr, i: int)
    ensures
        0 <= i < nets.0@.len() && in_network(
            nets.0@[i].address(),
            nets.0@[i].prefix_len(),
            unmapped(ip),
        ) ==> nets.matches(ip),
        (forall|k: int|
            0 <= k < nets.0@.len() ==> !in_network(
                (#[trigger] nets.0@[k]).address(),
                nets.0@[k].prefix_len(),
                unmapped(ip),
            )) ==> !nets.matches(ip),
        nets.0@.len() == 0 ==> !nets.matches(ip),
        nets.matches(ip) == nets.matches(unmapped(ip)),
{
    unmapping_is_final(ip);
}

} // verus!
