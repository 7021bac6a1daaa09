//! Addresses as plain numbers, and their text forms.

use vstd::prelude::*;
use vstd::slice::slice_subrange;

use crate::text::{
    all_digits, decimal, digits_value, find, find_char, find_last, find_last_char, hex_digit,
    parse_digits, push_decimal, split, split_chars, to_chars, views,
};

verus! {

/// An IP address, most significant bit first.
#[derive(Debug, Clone, Copy, PartialEq, Eq, PartialOrd, Ord, Hash, Structural)]
pub enum IpAddr {
    /// The 32 bits of an IPv4 address.
    V4(u32),
    /// The 128 bits of an IPv6 address.
    V6(u128),
}

/// An address and a port.
#[derive(Debug, Clone, Copy, PartialEq, Eq, PartialOrd, Ord, Hash, Structural)]
pub struct SocketAddr {
    pub ip: IpAddr,
    pub port: u16,
    /// The flow information of an IPv6 address; zero for IPv4.
    pub flow: u32,
    /// The scope of an IPv6 address; zero where it has none, and for IPv4.
    pub scope: u32,
}

/// An address and a port without flow information and scope.
pub open spec fn plain_socket(ip: IpAddr, port: u16) -> SocketAddr {
    SocketAddr { ip, port, flow: 0, scope: 0 }
}

impl IpAddr {
    /// Whether this is an IPv4 address.
    pub fn is_ipv4(&self) -> (yes: bool)
        ensures
            yes == (*self is V4),
    {
        matches!(self, IpAddr::V4(_))
    }

    /// Whether this is an IPv6 address.
    pub fn is_ipv6(&self) -> (yes: bool)
        ensures
            yes == (*self is V6),
    {
        matches!(self, IpAddr::V6(_))
    }

    /// Whether every bit is zero, which stands for "any address".
    pub open spec fn unspecified(self) -> bool {
        match self {
            IpAddr::V4(bits) => bits == 0,
            IpAddr::V6(bits) => bits == 0,
        }
    }

    /// Whether every bit is zero, which stands for "any address".
    pub fn is_unspecified(&self) -> (yes: bool)
        ensures
            yes == self.unspecified(),
    {
        match self {
            IpAddr::V4(bits) => *bits == 0,
            IpAddr::V6(bits) => *bits == 0,
        }
    }
}

// ------------------------------------------------------------------ reading --

/// One part of a dotted address: up to three digits, no leading zero, at most
/// 255.
pub open spec fn octet(s: Seq<char>) -> Option<nat> {
    if 1 <= s.len() <= 3 && all_digits(s) && (s.len() == 1 || s[0] != '0') && digits_value(s) <= 255 {
        Some(digits_value(s))
    } else {
        None
    }
}

/// The dotted address that `s` spells.
pub open spec fn ipv4(s: Seq<char>) -> Option<u32> {
    let parts = split(s, '.');
    if parts.len() == 4 {
        match (octet(parts[0]), octet(parts[1]), octet(parts[2]), octet(parts[3])) {
            (Some(a), Some(b), Some(c), Some(d)) => Some(
                (a * 0x100_0000 + b * 0x1_0000 + c * 0x100 + d) as u32,
            ),
            _ => None,
        }
    } else {
        None
    }
}

/// The value of a hexadecimal digit.
pub open spec fn hex_digit_value(c: char) -> Option<nat> {
    if '0' <= c <= '9' {
        Some((c as u32 - 48) as nat)
    } else if 'a' <= c <= 'f' {
        Some((c as u32 - 87) as nat)
    } else if 'A' <= c <= 'F' {
        Some((c as u32 - 55) as nat)
    } else {
        None
    }
}

/// The number that hexadecimal digits spell.
pub open spec fn hex_value(s: Seq<char>) -> Option<nat>
    decreases s.len(),
{
    if s.len() == 0 {
        Some(0)
    } else {
        match (hex_value(s.drop_last()), hex_digit_value(s.last())) {
            (Some(high), Some(low)) => Some(high * 16 + low),
            _ => None,
        }
    }
}

/// One group of an IPv6 address: one to four hexadecimal digits.
pub open spec fn hex_group(s: Seq<char>) -> Option<u16> {
    if 1 <= s.len() <= 4 {
        match hex_value(s) {
            Some(value) => Some(value as u16),
            None => None,
        }
    } else {
        None
    }
}

/// What one part between colons stands for: a group, or two of them where a
/// dotted address is allowed.
pub open spec fn part_groups(s: Seq<char>, dotted: bool) -> Option<Seq<u16>> {
    match hex_group(s) {
        Some(group) => Some(seq![group]),
        None => match ipv4(s) {
            Some(bits) => if dotted {
                Some(seq![(bits / 0x1_0000) as u16, (bits % 0x1_0000) as u16])
            } else {
                None
            },
            None => None,
        },
    }
}

/// The groups of the parts between colons. Only the last may be dotted.
pub open spec fn parts_groups(parts: Seq<Seq<char>>, dotted: bool) -> Option<Seq<u16>>
    decreases parts.len(),
{
    if parts.len() == 0 {
        Some(Seq::empty())
    } else {
        match (parts_groups(parts.drop_last(), false), part_groups(parts.last(), dotted)) {
            (Some(head), Some(last)) => Some(head + last),
            _ => None,
        }
    }
}

/// The groups that `s` spells; none where it is empty.
pub open spec fn groups(s: Seq<char>, dotted: bool) -> Option<Seq<u16>> {
    if s.len() == 0 {
        Some(Seq::empty())
    } else {
        parts_groups(split(s, ':'), dotted)
    }
}

/// Where `::` first stands in `s`, or the length of `s`.
pub open spec fn double_colon(s: Seq<char>) -> nat
    decreases s.len(),
{
    if s.len() < 2 {
        s.len()
    } else if s[0] == ':' && s[1] == ':' {
        0
    } else {
        1 + double_colon(s.drop_first())
    }
}

/// The number that groups of sixteen bits spell.
pub open spec fn group_bits(groups: Seq<u16>) -> nat
    decreases groups.len(),
{
    if groups.len() == 0 {
        0
    } else {
        group_bits(groups.drop_last()) * 0x1_0000 + groups.last() as nat
    }
}

/// `n` groups of zero.
pub open spec fn zero_groups(n: nat) -> Seq<u16> {
    Seq::new(n, |i: int| 0u16)
}

/// The IPv6 address that `s` spells: eight groups, or fewer around one `::`
/// that stands for at least one group of zero.
pub open spec fn ipv6(s: Seq<char>) -> Option<u128> {
    let at = double_colon(s) as int;
    if at < s.len() {
        match (groups(s.take(at), false), groups(s.skip(at + 2), true)) {
            (Some(head), Some(tail)) => if head.len() + tail.len() <= 7 {
                Some(
                    group_bits(
                        head + zero_groups((8 - head.len() - tail.len()) as nat) + tail,
                    ) as u128,
                )
            } else {
                None
            },
            _ => None,
        }
    } else {
        match groups(s, true) {
            Some(all) => if all.len() == 8 {
                Some(group_bits(all) as u128)
            } else {
                None
            },
            None => None,
        }
    }
}

/// The address that `s` spells.
pub open spec fn ip_address(s: Seq<char>) -> Option<IpAddr> {
    match ipv4(s) {
        Some(bits) => Some(IpAddr::V4(bits)),
        None => match ipv6(s) {
            Some(bits) => Some(IpAddr::V6(bits)),
            None => None,
        },
    }
}

fn parse_octet(chars: &[char]) -> (n: Option<u32>)
    ensures
        match octet(chars@) {
            Some(value) => n == Some(value as u32) && value <= 255,
            None => n is None,
        },
{
    if chars.len() < 1 || chars.len() > 3 || (chars.len() > 1 && chars[0] == '0') {
        return None;
    }
    match parse_digits(chars, 255) {
        Some(n) => Some(n as u32),
        None => None,
    }
}

fn parse_ipv4(chars: &[char]) -> (bits: Option<u32>)
    ensures
        bits == ipv4(chars@),
{
    let parts = split_chars(chars, '.');
    let ghost spelled = split(chars@, '.');
    assert(views(parts@).len() == parts@.len());
    if parts.len() != 4 {
        return None;
    }
    assert(spelled[0] == parts@[0]@ && spelled[1] == parts@[1]@ && spelled[2] == parts@[2]@
        && spelled[3] == parts@[3]@);
    match (
        parse_octet(parts[0].as_slice()),
        parse_octet(parts[1].as_slice()),
        parse_octet(parts[2].as_slice()),
        parse_octet(parts[3].as_slice()),
    ) {
        (Some(a), Some(b), Some(c), Some(d)) => Some(
            a * 0x100_0000 + b * 0x1_0000 + c * 0x100 + d,
        ),
        _ => None,
    }
}

fn parse_hex_digit(c: char) -> (n: Option<u16>)
    ensures
        match hex_digit_value(c) {
            Some(value) => n == Some(value as u16) && value < 16,
            None => n is None,
        },
{
    if '0' <= c && c <= '9' {
        Some(c as u16 - 48)
    } else if 'a' <= c && c <= 'f' {
        Some(c as u16 - 87)
    } else if 'A' <= c && c <= 'F' {
        Some(c as u16 - 55)
    } else {
        None
    }
}

proof fn lemma_hex_value_prefix(s: Seq<char>, n: int)
    requires
        0 <= n <= s.len(),
        hex_value(s.take(n)) is None,
    ensures
        hex_value(s) is None,
    decreases s.len() - n,
{
    if n < s.len() {
        assert(s.take(n + 1).drop_last() =~= s.take(n));
        lemma_hex_value_prefix(s, n + 1);
    } else {
        assert(s.take(n) =~= s);
    }
}

fn parse_hex_group(chars: &[char]) -> (group: Option<u16>)
    ensures
        group == hex_group(chars@),
{
    if chars.len() < 1 || chars.len() > 4 {
        return None;
    }
    let mut value: u32 = 0;
    let mut bound: u32 = 1;
    let mut i: usize = 0;
    while i < chars.len()
        invariant
            i <= chars@.len() <= 4,
            hex_value(chars@.take(i as int)) == Some(value as nat),
            value < bound,
            i == 0 ==> bound == 1,
            i == 1 ==> bound == 0x10,
            i == 2 ==> bound == 0x100,
            i == 3 ==> bound == 0x1000,
            i == 4 ==> bound == 0x1_0000,
        decreases chars@.len() - i,
    {
        proof {
            assert(chars@.take(i + 1).drop_last() =~= chars@.take(i as int));
        }
        match parse_hex_digit(chars[i]) {
            Some(digit) => {
                value = value * 16 + digit as u32;
                bound = bound * 16;
            },
            None => {
                proof {
                    assert(hex_value(chars@.take(i + 1)) is None);
                    lemma_hex_value_prefix(chars@, i + 1);
                }
                return None;
            },
        }
        i = i + 1;
    }
    assert(chars@.take(i as int) =~= chars@);
    Some(value as u16)
}

fn parse_part(chars: &[char], dotted: bool) -> (groups: Option<Vec<u16>>)
    ensures
        match part_groups(chars@, dotted) {
            Some(value) => groups is Some && groups->Some_0@ == value,
            None => groups is None,
        },
{
    let mut out: Vec<u16> = Vec::new();
    match parse_hex_group(chars) {
        Some(group) => {
            out.push(group);
            assert(out@ =~= seq![group]);
            Some(out)
        },
        None => match parse_ipv4(chars) {
            Some(bits) => {
                if !dotted {
                    return None;
                }
                out.push((bits / 0x1_0000) as u16);
                out.push((bits % 0x1_0000) as u16);
                assert(out@ =~= seq![(bits / 0x1_0000) as u16, (bits % 0x1_0000) as u16]);
                Some(out)
            },
            None => None,
        },
    }
}

proof fn lemma_parts_groups_prefix(parts: Seq<Seq<char>>, dotted: bool, n: int)
    requires
        0 <= n < parts.len(),
        parts_groups(parts.take(n), false) is None,
    ensures
        parts_groups(parts, dotted) is None,
    decreases parts.len() - n,
{
    if n < parts.len() - 1 {
        assert(parts.take(n + 1).drop_last() =~= parts.take(n));
        lemma_parts_groups_prefix(parts, dotted, n + 1);
    } else {
        assert(parts.drop_last() =~= parts.take(n));
    }
}

fn parse_groups(chars: &[char], dotted: bool) -> (result: Option<Vec<u16>>)
    ensures
        match groups(chars@, dotted) {
            Some(value) => result is Some && result->Some_0@ == value,
            None => result is None,
        },
{
    let mut out: Vec<u16> = Vec::new();
    if chars.len() == 0 {
        assert(out@ =~= Seq::<u16>::empty());
        return Some(out);
    }
    let parts = split_chars(chars, ':');
    let ghost spelled = split(chars@, ':');
    let mut i: usize = 0;
    assert(views(parts@).len() == parts@.len());
    assert(spelled.len() == parts@.len());
    assert(out@ =~= Seq::<u16>::empty());
    while i < parts.len()
        invariant
            i <= parts@.len(),
            spelled == split(chars@, ':'),
            chars@.len() > 0,
            spelled == views(parts@),
            spelled.len() == parts@.len(),
            i < parts@.len() ==> parts_groups(spelled.take(i as int), false) == Some(out@),
            i == parts@.len() ==> parts_groups(spelled, dotted) == Some(out@),
        decreases parts@.len() - i,
    {
        assert(spelled[i as int] == parts@[i as int]@);
        let last: bool = i + 1 == parts.len();
        let ghost before = out@;
        proof {
            assert(spelled.take(i + 1).drop_last() =~= spelled.take(i as int));
            if last {
                assert(spelled.take(i + 1) =~= spelled);
            }
        }
        match parse_part(parts[i].as_slice(), last && dotted) {
            Some(more) => {
                out.extend_from_slice(more.as_slice());
                assert(out@ =~= before + more@);
            },
            None => {
                proof {
                    if !last {
                        assert(parts_groups(spelled.take(i + 1), false) is None);
                        lemma_parts_groups_prefix(spelled, dotted, i + 1);
                    }
                }
                return None;
            },
        }
        i = i + 1;
    }
    proof {
        if parts@.len() == 0 {
            assert(spelled =~= Seq::<Seq<char>>::empty());
        }
    }
    Some(out)
}

fn find_double_colon(chars: &[char]) -> (at: usize)
    ensures
        at == double_colon(chars@),
        at < chars@.len() ==> at + 2 <= chars@.len(),
{
    let mut i: usize = 0;
    assert(chars@.skip(0) =~= chars@);
    while i < chars.len() && chars.len() - i >= 2
        invariant
            i <= chars@.len(),
            double_colon(chars@) == i + double_colon(chars@.skip(i as int)),
        decreases chars@.len() - i,
    {
        if chars[i] == ':' && chars[i + 1] == ':' {
            return i;
        }
        assert(chars@.skip(i as int).drop_first() =~= chars@.skip(i + 1));
        i = i + 1;
    }
    chars.len()
}

proof fn lemma_group_bits_bound(groups: Seq<u16>)
    requires
        groups.len() <= 8,
    ensures
        group_bits(groups) < crate::bytes::pow256(2 * groups.len()),
    decreases groups.len(),
{
    if groups.len() > 0 {
        lemma_group_bits_bound(groups.drop_last());
        let n = (2 * (groups.len() - 1)) as nat;
        assert(crate::bytes::pow256(n + 2) == 0x1_0000 * crate::bytes::pow256(n)) by {
            reveal_with_fuel(crate::bytes::pow256, 3);
        }
        assert(2 * groups.len() == n + 2);
    }
}

fn bits_of(groups: &[u16]) -> (bits: u128)
    requires
        groups@.len() <= 8,
    ensures
        bits == group_bits(groups@),
{
    let mut bits: u128 = 0;
    let mut i: usize = 0;
    while i < groups.len()
        invariant
            i <= groups@.len() <= 8,
            bits == group_bits(groups@.take(i as int)),
        decreases groups@.len() - i,
    {
        proof {
            assert(groups@.take(i + 1).drop_last() =~= groups@.take(i as int));
            lemma_group_bits_bound(groups@.take(i + 1));
            reveal_with_fuel(crate::bytes::pow256, 17);
            crate::bytes::lemma_pow256_values();
            crate::bytes::lemma_pow256_monotonic((2 * (i + 1)) as nat, 16);
        }
        bits = bits * 0x1_0000 + groups[i] as u128;
        i = i + 1;
    }
    assert(groups@.take(i as int) =~= groups@);
    bits
}

fn parse_ipv6(chars: &[char]) -> (bits: Option<u128>)
    ensures
        bits == ipv6(chars@),
{
    let at: usize = find_double_colon(chars);
    if at < chars.len() {
        let head_chars = slice_subrange(chars, 0, at);
        let tail_chars = slice_subrange(chars, at + 2, chars.len());
        assert(head_chars@ =~= chars@.take(at as int));
        assert(tail_chars@ =~= chars@.skip(at + 2));
        let head = match parse_groups(head_chars, false) {
            Some(head) => head,
            None => return None,
        };
        let tail = match parse_groups(tail_chars, true) {
            Some(tail) => tail,
            None => return None,
        };
        if head.len() > 7 || tail.len() > 7 || head.len() + tail.len() > 7 {
            return None;
        }
        let mut all: Vec<u16> = head;
        let ghost head_groups = all@;
        let ghost missing = (8 - head_groups.len() - tail@.len()) as nat;
        assert(all@ =~= head_groups + zero_groups(0));
        while all.len() + tail.len() < 8
            invariant
                head_groups.len() <= all@.len(),
                all@.len() + tail@.len() <= 8,
                all@ == head_groups + zero_groups((all@.len() - head_groups.len()) as nat),
            decreases 8 - all@.len(),
        {
            all.push(0);
            assert(all@ =~= head_groups + zero_groups((all@.len() - head_groups.len()) as nat));
        }
        all.extend_from_slice(tail.as_slice());
        assert(all@ =~= head_groups + zero_groups(missing) + tail@);
        Some(bits_of(all.as_slice()))
    } else {
        match parse_groups(chars, true) {
            Some(all) => if all.len() == 8 {
                Some(bits_of(all.as_slice()))
            } else {
                None
            },
            None => None,
        }
    }
}

/// Reads an address: dotted IPv4, or IPv6 with or without `::`.
pub fn parse_ip(chars: &[char]) -> (ip: Option<IpAddr>)
    ensures
        ip == ip_address(chars@),
{
    match parse_ipv4(chars) {
        Some(bits) => Some(IpAddr::V4(bits)),
        None => match parse_ipv6(chars) {
            Some(bits) => Some(IpAddr::V6(bits)),
            None => None,
        },
    }
}

/// The IPv6 address that `s` spells, and its scope: `fe80::1`, or `fe80::1%2`.
pub open spec fn scoped_ipv6(s: Seq<char>) -> Option<(u128, u32)> {
    let at = find(s, '%') as int;
    let digits = s.skip(at + 1);
    match ipv6(s.take(at)) {
        None => None,
        Some(bits) => if at == s.len() {
            Some((bits, 0))
        } else if digits.len() == 0 || !all_digits(digits) || digits_value(digits) > u32::MAX {
            None
        } else {
            Some((bits, digits_value(digits) as u32))
        },
    }
}

fn parse_scoped_ipv6(chars: &[char]) -> (r: Option<(u128, u32)>)
    ensures
        r == scoped_ipv6(chars@),
{
    let at: usize = find_char(chars, '%');
    let address = slice_subrange(chars, 0, at);
    assert(address@ =~= chars@.take(at as int));
    let bits: u128 = match parse_ipv6(address) {
        Some(bits) => bits,
        None => return None,
    };
    if at == chars.len() {
        return Some((bits, 0));
    }
    let digits = slice_subrange(chars, at + 1, chars.len());
    assert(digits@ =~= chars@.skip(at + 1));
    match parse_digits(digits, 0xffff_ffff) {
        Some(scope) => Some((bits, scope as u32)),
        None => None,
    }
}

/// The address and port that `s` spells: `1.2.3.4:80`, `[::1]:80`, or
/// `[fe80::1%2]:80`.
pub open spec fn socket_address(s: Seq<char>) -> Option<SocketAddr> {
    match find_last(s, ':') {
        None => None,
        Some(at) => {
            let host = s.take(at as int);
            let port = s.skip(at as int + 1);
            if port.len() == 0 || !all_digits(port) || digits_value(port) > u16::MAX {
                None
            } else if host.len() >= 2 && host[0] == '[' && host.last() == ']' {
                match scoped_ipv6(host.subrange(1, host.len() - 1)) {
                    Some((bits, scope)) => Some(
                        SocketAddr {
                            ip: IpAddr::V6(bits),
                            port: digits_value(port) as u16,
                            flow: 0,
                            scope,
                        },
                    ),
                    None => None,
                }
            } else {
                match ipv4(host) {
                    Some(bits) => Some(
                        plain_socket(IpAddr::V4(bits), digits_value(port) as u16),
                    ),
                    None => None,
                }
            }
        },
    }
}

/// Reads an address with a port.
pub fn parse_socket(text: &str) -> (addr: Option<SocketAddr>)
    ensures
        addr == socket_address(text@),
{
    let chars = to_chars(text);
    let at: usize = match find_last_char(chars.as_slice(), ':') {
        Some(at) => at,
        None => return None,
    };
    let host = slice_subrange(chars.as_slice(), 0, at);
    let digits = slice_subrange(chars.as_slice(), at + 1, chars.len());
    assert(host@ =~= chars@.take(at as int));
    assert(digits@ =~= chars@.skip(at + 1));
    let port: u16 = match parse_digits(digits, 0xffff) {
        Some(port) => port as u16,
        None => return None,
    };
    if host.len() >= 2 && host[0] == '[' && host[host.len() - 1] == ']' {
        let inner = slice_subrange(host, 1, host.len() - 1);
        match parse_scoped_ipv6(inner) {
            Some((bits, scope)) => Some(
                SocketAddr { ip: IpAddr::V6(bits), port, flow: 0, scope },
            ),
            None => None,
        }
    } else {
        match parse_ipv4(host) {
            Some(bits) => Some(SocketAddr::new(IpAddr::V4(bits), port)),
            None => None,
        }
    }
}

// ------------------------------------------------------------------ writing --

/// An IPv4 address in dotted form.
pub open spec fn ipv4_text(bits: u32) -> Seq<char> {
    decimal((bits / 0x100_0000) as nat) + seq!['.'] + (decimal((bits / 0x1_0000 % 0x100) as nat)
        + seq!['.'] + (decimal((bits / 0x100 % 0x100) as nat) + seq!['.'] + decimal(
        (bits % 0x100) as nat,
    )))
}

/// A number in lower-case hexadecimal without leading zeros.
pub open spec fn hex_text(n: nat) -> Seq<char>
    decreases n,
{
    if n < 16 {
        seq![hex_digit(n)]
    } else {
        hex_text(n / 16).push(hex_digit(n % 16))
    }
}

/// Groups in hexadecimal, with colons between them.
pub open spec fn joined(groups: Seq<u16>) -> Seq<char>
    decreases groups.len(),
{
    if groups.len() == 0 {
        Seq::empty()
    } else if groups.len() == 1 {
        hex_text(groups[0] as nat)
    } else {
        joined(groups.drop_last()) + seq![':'] + hex_text(groups.last() as nat)
    }
}

/// The low `n` groups of an address, the most significant first.
pub open spec fn address_groups(bits: nat, n: nat) -> Seq<u16>
    decreases n,
{
    if n == 0 {
        Seq::empty()
    } else {
        address_groups(bits / 0x1_0000, (n - 1) as nat).push((bits % 0x1_0000) as u16)
    }
}

/// How many groups of zero stand at the front.
pub open spec fn leading_zeros(groups: Seq<u16>) -> nat
    decreases groups.len(),
{
    if groups.len() > 0 && groups[0] == 0 {
        1 + leading_zeros(groups.drop_first())
    } else {
        0
    }
}

/// Start and length of the longest run of zero groups that starts among the
/// first `n` groups; the first one where several are equally long.
pub open spec fn longest_run(groups: Seq<u16>, n: nat) -> (nat, nat)
    decreases n,
{
    if n == 0 {
        (0, 0)
    } else {
        let (start, len) = longest_run(groups, (n - 1) as nat);
        let here = leading_zeros(groups.skip(n - 1));
        if here > len {
            ((n - 1) as nat, here)
        } else {
            (start, len)
        }
    }
}

/// An IPv6 address in its canonical form: mapped IPv4 addresses keep the dotted
/// form, and the longest run of two or more zero groups becomes `::`.
pub open spec fn ipv6_text(bits: u128) -> Seq<char> {
    let groups = address_groups(bits as nat, 8);
    let (start, len) = longest_run(groups, 8);
    if bits / 0x1_0000_0000 == 0xffff {
        "::ffff:"@ + ipv4_text((bits % 0x1_0000_0000) as u32)
    } else if len > 1 {
        joined(groups.take(start as int)) + seq![':', ':'] + joined(
            groups.skip((start + len) as int),
        )
    } else {
        joined(groups)
    }
}

/// An address as text.
pub open spec fn ip_text(ip: IpAddr) -> Seq<char> {
    match ip {
        IpAddr::V4(bits) => ipv4_text(bits),
        IpAddr::V6(bits) => ipv6_text(bits),
    }
}

/// An address and a port as text; IPv6 addresses stand in brackets.
pub open spec fn socket_text(addr: SocketAddr) -> Seq<char> {
    match addr.ip {
        IpAddr::V4(_) => ip_text(addr.ip) + seq![':'] + decimal(addr.port as nat),
        IpAddr::V6(_) => seq!['['] + ip_text(addr.ip) + scope_text(addr.scope) + seq![']', ':']
            + decimal(addr.port as nat),
    }
}

/// The scope of an address as text; nothing where it has none.
pub open spec fn scope_text(scope: u32) -> Seq<char> {
    if scope == 0 {
        Seq::empty()
    } else {
        seq!['%'] + decimal(scope as nat)
    }
}

fn push_ipv4(out: &mut String, bits: u32)
    ensures
        final(out)@ == old(out)@ + ipv4_text(bits),
{
    push_decimal(out, (bits / 0x100_0000) as u128);
    out.push('.');
    push_decimal(out, (bits / 0x1_0000 % 0x100) as u128);
    out.push('.');
    push_decimal(out, (bits / 0x100 % 0x100) as u128);
    out.push('.');
    push_decimal(out, (bits % 0x100) as u128);
    assert(out@ =~= old(out)@ + ipv4_text(bits));
}

/// Appends a number in hexadecimal.
pub(crate) fn push_hex_text(out: &mut String, n: u32)
    ensures
        final(out)@ == old(out)@ + hex_text(n as nat),
    decreases n,
{
    if n >= 16 {
        push_hex_text(out, n / 16);
    }
    let d: u8 = (n % 16) as u8;
    if d < 10 {
        out.push((48 + d) as char);
    } else {
        out.push((87 + d) as char);
    }
    assert(out@ =~= old(out)@ + hex_text(n as nat));
}

fn push_joined(out: &mut String, groups: &[u16])
    ensures
        final(out)@ == old(out)@ + joined(groups@),
{
    let mut i: usize = 0;
    assert(groups@.take(0) =~= Seq::<u16>::empty());
    assert(out@ =~= out@ + joined(groups@.take(0)));
    while i < groups.len()
        invariant
            i <= groups@.len(),
            out@ == old(out)@ + joined(groups@.take(i as int)),
        decreases groups@.len() - i,
    {
        let ghost before = groups@.take(i as int);
        if i > 0 {
            out.push(':');
        }
        push_hex_text(out, groups[i] as u32);
        i = i + 1;
        proof {
            let more = groups@.take(i as int);
            assert(more.drop_last() =~= before);
            assert(more.last() == groups@[i - 1]);
            assert(out@ =~= old(out)@ + joined(more));
        }
    }
    assert(groups@.take(i as int) =~= groups@);
}

proof fn lemma_address_groups_len(bits: nat, n: nat)
    ensures
        address_groups(bits, n).len() == n,
    decreases n,
{
    if n > 0 {
        lemma_address_groups_len(bits / 0x1_0000, (n - 1) as nat);
    }
}

fn groups_of(bits: u128, n: usize) -> (groups: Vec<u16>)
    ensures
        groups@ == address_groups(bits as nat, n as nat),
    decreases n,
{
    if n == 0 {
        let groups: Vec<u16> = Vec::new();
        assert(groups@ =~= address_groups(bits as nat, 0));
        groups
    } else {
        let mut groups = groups_of(bits / 0x1_0000, n - 1);
        groups.push((bits % 0x1_0000) as u16);
        groups
    }
}

fn count_leading_zeros(groups: &[u16]) -> (n: usize)
    ensures
        n == leading_zeros(groups@),
        n <= groups@.len(),
{
    let mut i: usize = 0;
    assert(groups@.skip(0) =~= groups@);
    while i < groups.len() && groups[i] == 0
        invariant
            i <= groups@.len(),
            leading_zeros(groups@) == i + leading_zeros(groups@.skip(i as int)),
        decreases groups@.len() - i,
    {
        assert(groups@.skip(i as int).drop_first() =~= groups@.skip(i + 1));
        i = i + 1;
    }
    i
}

fn push_ipv6(out: &mut String, bits: u128)
    ensures
        final(out)@ == old(out)@ + ipv6_text(bits),
{
    if bits / 0x1_0000_0000 == 0xffff {
        let prefix = crate::text::to_chars("::ffff:");
        crate::text::push_chars(out, prefix.as_slice());
        push_ipv4(out, (bits % 0x1_0000_0000) as u32);
        assert(out@ =~= old(out)@ + ipv6_text(bits));
        return;
    }
    let groups = groups_of(bits, 8);
    proof {
        lemma_address_groups_len(bits as nat, 8);
    }
    let mut start: usize = 0;
    let mut len: usize = 0;
    let mut i: usize = 0;
    while i < 8
        invariant
            i <= 8,
            groups@.len() == 8,
            longest_run(groups@, i as nat) == (start as nat, len as nat),
            start + len <= 8,
        decreases 8 - i,
    {
        let rest = slice_subrange(groups.as_slice(), i, 8);
        assert(rest@ =~= groups@.skip(i as int));
        let here: usize = count_leading_zeros(rest);
        if here > len {
            start = i;
            len = here;
        }
        i = i + 1;
    }
    if len > 1 {
        let head = slice_subrange(groups.as_slice(), 0, start);
        let tail = slice_subrange(groups.as_slice(), start + len, 8);
        assert(head@ =~= groups@.take(start as int));
        assert(tail@ =~= groups@.skip(start + len));
        push_joined(out, head);
        out.push(':');
        out.push(':');
        push_joined(out, tail);
        assert(out@ =~= old(out)@ + ipv6_text(bits));
    } else {
        push_joined(out, groups.as_slice());
    }
}

impl IpAddr {
    /// The address as text.
    pub fn to_text(&self) -> (text: String)
        ensures
            text@ == ip_text(*self),
    {
        let mut text = String::new();
        match self {
            IpAddr::V4(bits) => push_ipv4(&mut text, *bits),
            IpAddr::V6(bits) => push_ipv6(&mut text, *bits),
        }
        assert(text@ =~= ip_text(*self));
        text
    }
}

impl SocketAddr {
    /// An address and a port without flow information and scope.
    pub fn new(ip: IpAddr, port: u16) -> (addr: Self)
        ensures
            addr == plain_socket(ip, port),
    {
        SocketAddr { ip, port, flow: 0, scope: 0 }
    }

    /// The address and the port as text.
    pub fn to_text(&self) -> (text: String)
        ensures
            text@ == socket_text(*self),
    {
        let mut text = String::new();
        match self.ip {
            IpAddr::V4(bits) => {
                push_ipv4(&mut text, bits);
                text.push(':');
            },
            IpAddr::V6(bits) => {
                text.push('[');
                push_ipv6(&mut text, bits);
                if self.scope != 0 {
                    text.push('%');
                    push_decimal(&mut text, self.scope as u128);
                }
                text.push(']');
                text.push(':');
            },
        }
        push_decimal(&mut text, self.port as u128);
        assert(text@ =~= socket_text(*self));
        text
    }
}

proof fn lemma_octet_text(n: nat)
    requires
        n < 256,
    ensures
        octet(decimal(n)) == Some(n),
        !decimal(n).contains('.'),
{
    crate::text::decimal_round_trip(n);
    crate::text::lemma_integer_contains(n as int, '.');
    reveal_with_fuel(decimal, 4);
    let s = decimal(n);
    assert(s[0] != '0' || s.len() == 1) by {
        if n >= 100 {
            assert(s =~= seq![
                crate::text::digit(n / 100),
                crate::text::digit(n / 10 % 10),
                crate::text::digit(n % 10),
            ]);
            assert(crate::text::digit(n / 100) as u32 == 48 + n / 100);
        } else if n >= 10 {
            assert(s =~= seq![crate::text::digit(n / 10), crate::text::digit(n % 10)]);
            assert(crate::text::digit(n / 10) as u32 == 48 + n / 10);
        }
    }
}

proof fn lemma_octets(bits: u32)
    ensures
        bits / 0x100_0000 < 256,
        (bits / 0x100_0000) * 0x100_0000 + (bits / 0x1_0000 % 0x100) * 0x1_0000 + (bits / 0x100
            % 0x100) * 0x100 + bits % 0x100 == bits,
{
    let n = bits as int;
    let q1 = n / 0x100;
    let q2 = q1 / 0x100;
    let q3 = q2 / 0x100;
    vstd::arithmetic::div_mod::lemma_div_denominator(n, 0x100, 0x100);
    vstd::arithmetic::div_mod::lemma_div_denominator(n, 0x1_0000, 0x100);
    assert(n == q1 * 0x100 + n % 0x100);
    assert(q1 == q2 * 0x100 + q1 % 0x100);
    assert(q2 == q3 * 0x100 + q2 % 0x100);
    assert(n / 0x1_0000 == q2);
    assert(n / 0x100_0000 == q3);
}

proof fn lemma_ipv4_split(a: nat, b: nat, c: nat, d: nat)
    requires
        a < 256,
        b < 256,
        c < 256,
        d < 256,
    ensures
        ipv4(
            decimal(a) + seq!['.'] + (decimal(b) + seq!['.'] + (decimal(c) + seq!['.'] + decimal(d))),
        ) == Some((a * 0x100_0000 + b * 0x1_0000 + c * 0x100 + d) as u32),
{
    lemma_octet_text(a);
    lemma_octet_text(b);
    lemma_octet_text(c);
    lemma_octet_text(d);
    let s3 = decimal(d);
    let s2 = decimal(c) + seq!['.'] + s3;
    let s1 = decimal(b) + seq!['.'] + s2;
    let s0 = decimal(a) + seq!['.'] + s1;
    crate::text::lemma_split_none(s3, '.');
    crate::text::lemma_split_first(decimal(c), '.', s3);
    crate::text::lemma_split_first(decimal(b), '.', s2);
    crate::text::lemma_split_first(decimal(a), '.', s1);
    assert(split(s0, '.') =~= seq![decimal(a), decimal(b), decimal(c), decimal(d)]);
}

/// An IPv4 address is read back from its text.
pub proof fn ipv4_round_trip(bits: u32)
    ensures
        ip_address(ip_text(IpAddr::V4(bits))) == Some(IpAddr::V4(bits)),
{
    lemma_octets(bits);
    lemma_ipv4_split(
        (bits / 0x100_0000) as nat,
        (bits / 0x1_0000 % 0x100) as nat,
        (bits / 0x100 % 0x100) as nat,
        (bits % 0x100) as nat,
    );
}

/// A dotted address is four numbers below 256, the most significant first.
pub proof fn dotted_addresses_have_four_numbers(a: nat, b: nat, c: nat, d: nat)
    requires
        a < 256,
        b < 256,
        c < 256,
        d < 256,
    ensures
        ip_address(
            decimal(a) + seq!['.'] + (decimal(b) + seq!['.'] + (decimal(c) + seq!['.'] + decimal(d))),
        ) == Some(IpAddr::V4((a * 0x100_0000 + b * 0x1_0000 + c * 0x100 + d) as u32)),
{
    lemma_ipv4_split(a, b, c, d);
}

/// A number of a dotted address has one to three digits and nothing else, no
/// zero in front of another digit, and is at most 255.
pub proof fn octets_are_small_numbers(s: Seq<char>, n: nat)
    ensures
        n < 256 ==> octet(decimal(n)) == Some(n),
        s.len() == 0 || s.len() > 3 ==> octet(s) is None,
        !all_digits(s) ==> octet(s) is None,
        s.len() > 1 && s[0] == '0' ==> octet(s) is None,
        digits_value(s) > 255 ==> octet(s) is None,
        octet(s) is Some ==> octet(s) == Some(digits_value(s)),
{
    if n < 256 {
        lemma_octet_text(n);
    }
}

/// Hexadecimal digits count the same in either case, and nothing else is one.
pub proof fn hexadecimal_digits_have_their_values(c: char)
    ensures
        '0' <= c <= '9' ==> hex_digit_value(c) == Some((c as nat - '0' as nat) as nat),
        'a' <= c <= 'f' ==> hex_digit_value(c) == Some((c as nat - 'a' as nat + 10) as nat),
        'A' <= c <= 'F' ==> hex_digit_value(c) == Some((c as nat - 'A' as nat + 10) as nat),
        hex_digit_value(c) is Some ==> '0' <= c <= '9' || 'a' <= c <= 'f' || 'A' <= c <= 'F',
{
}

/// Whether a text holds only lower-case hexadecimal digits and colons.
spec fn of_groups(s: Seq<char>) -> bool {
    forall|i: int|
        0 <= i < s.len() ==> '0' <= #[trigger] s[i] <= '9' || 'a' <= s[i] <= 'f' || s[i] == ':'
}

proof fn lemma_hex_text(n: nat)
    ensures
        hex_text(n).len() > 0,
        hex_value(hex_text(n)) == Some(n),
        forall|i: int|
            0 <= i < hex_text(n).len() ==> '0' <= #[trigger] hex_text(n)[i] <= '9' || 'a'
                <= hex_text(n)[i] <= 'f',
    decreases n,
{
    let s = hex_text(n);
    let d = n % 16;
    let c = hex_digit(d);
    assert(d < 10 ==> c as u32 == 48 + d);
    assert(d >= 10 ==> c as u32 == 87 + d);
    assert(hex_digit_value(c) == Some(d));
    assert(s.last() == c);
    if n < 16 {
        assert(s.drop_last() =~= Seq::<char>::empty());
        assert(hex_value(s.drop_last()) == Some(0nat));
    } else {
        lemma_hex_text(n / 16);
        assert(s.drop_last() =~= hex_text(n / 16));
        assert forall|i: int| 0 <= i < s.len() implies '0' <= #[trigger] s[i] <= '9' || 'a' <= s[i]
            <= 'f' by {
            if i < s.len() - 1 {
                assert(s[i] == hex_text(n / 16)[i]);
            }
        }
    }
}

proof fn lemma_group_text(g: u16)
    ensures
        hex_group(hex_text(g as nat)) == Some(g),
        hex_text(g as nat).len() > 0,
        of_groups(hex_text(g as nat)),
        !hex_text(g as nat).contains(':'),
{
    lemma_hex_text(g as nat);
    reveal_with_fuel(hex_text, 5);
}

/// The texts of groups.
spec fn group_texts(groups: Seq<u16>) -> Seq<Seq<char>> {
    groups.map_values(|g: u16| hex_text(g as nat))
}

proof fn lemma_joined_first(groups: Seq<u16>)
    requires
        groups.len() >= 2,
    ensures
        joined(groups) == hex_text(groups[0] as nat) + seq![':'] + joined(groups.drop_first()),
    decreases groups.len(),
{
    let rest = groups.drop_first();
    if groups.len() == 2 {
        let front = groups.drop_last();
        assert(front.len() == 1 && front[0] == groups[0]);
        assert(joined(front) == hex_text(groups[0] as nat));
        assert(rest.len() == 1 && rest[0] == groups[1]);
        assert(joined(rest) == hex_text(groups[1] as nat));
        assert(joined(groups) == joined(front) + seq![':'] + hex_text(groups[1] as nat));
    } else {
        let front = groups.drop_last();
        lemma_joined_first(front);
        assert(front.drop_first() =~= rest.drop_last());
        assert(front[0] == groups[0]);
        assert(rest.last() == groups.last());
        assert(joined(groups) =~= hex_text(groups[0] as nat) + seq![':'] + joined(rest));
    }
}

proof fn lemma_split_joined(groups: Seq<u16>)
    requires
        groups.len() >= 1,
    ensures
        split(joined(groups), ':') == group_texts(groups),
    decreases groups.len(),
{
    let first = hex_text(groups[0] as nat);
    lemma_group_text(groups[0]);
    if groups.len() == 1 {
        crate::text::lemma_split_none(first, ':');
        assert(group_texts(groups) =~= seq![first]);
    } else {
        let rest = groups.drop_first();
        lemma_joined_first(groups);
        lemma_split_joined(rest);
        crate::text::lemma_split_first(first, ':', joined(rest));
        assert(seq![first] + group_texts(rest) =~= group_texts(groups));
    }
}

proof fn lemma_parts_of_groups(groups: Seq<u16>, dotted: bool)
    ensures
        parts_groups(group_texts(groups), dotted) == Some(groups),
    decreases groups.len(),
{
    let parts = group_texts(groups);
    if groups.len() == 0 {
        assert(groups =~= Seq::<u16>::empty());
    } else {
        lemma_parts_of_groups(groups.drop_last(), false);
        assert(parts.drop_last() =~= group_texts(groups.drop_last()));
        lemma_group_text(groups.last());
        assert(groups.drop_last() + seq![groups.last()] =~= groups);
    }
}

/// Joined groups hold no two colons in a row and none at either end.
proof fn lemma_joined_clean(groups: Seq<u16>)
    ensures
        of_groups(joined(groups)),
        groups.len() > 0 ==> joined(groups).len() > 0,
        forall|i: int|
            0 <= i < joined(groups).len() && #[trigger] joined(groups)[i] == ':' ==> 0 < i < joined(
                groups,
            ).len() - 1 && joined(groups)[i + 1] != ':',
    decreases groups.len(),
{
    if groups.len() == 1 {
        lemma_group_text(groups[0]);
        assert forall|i: int| 0 <= i < joined(groups).len() implies #[trigger] joined(groups)[i]
            != ':' by {
            assert(joined(groups).contains(joined(groups)[i]));
        }
    } else if groups.len() > 1 {
        let front = joined(groups.drop_last());
        let last = hex_text(groups.last() as nat);
        let s = joined(groups);
        lemma_joined_clean(groups.drop_last());
        lemma_group_text(groups.last());
        assert forall|i: int| 0 <= i < last.len() implies #[trigger] last[i] != ':' by {
            assert(last.contains(last[i]));
        }
        assert forall|i: int| 0 <= i < s.len() implies #[trigger] s[i] == (if i < front.len() {
            front[i]
        } else if i == front.len() {
            ':'
        } else {
            last[i - front.len() - 1]
        }) by {}
    }
}

proof fn lemma_groups_of_joined(list: Seq<u16>, dotted: bool)
    ensures
        groups(joined(list), dotted) == Some(list),
{
    if list.len() == 0 {
        assert(list =~= Seq::<u16>::empty());
    } else {
        lemma_joined_clean(list);
        lemma_split_joined(list);
        lemma_parts_of_groups(list, dotted);
    }
}

proof fn lemma_no_double_colon(s: Seq<char>)
    requires
        forall|i: int| 0 <= i < s.len() - 1 && #[trigger] s[i] == ':' ==> s[i + 1] != ':',
    ensures
        double_colon(s) == s.len(),
    decreases s.len(),
{
    if s.len() >= 2 {
        let rest = s.drop_first();
        assert forall|i: int| 0 <= i < rest.len() - 1 && #[trigger] rest[i] == ':' implies rest[i
            + 1] != ':' by {
            assert(s[i + 1] == rest[i]);
        }
        lemma_no_double_colon(rest);
        assert(s[0] == ':' ==> s[1] != ':');
    }
}

proof fn lemma_double_colon(head: Seq<char>, tail: Seq<char>)
    requires
        forall|i: int|
            0 <= i < head.len() && #[trigger] head[i] == ':' ==> i < head.len() - 1 && head[i + 1]
                != ':',
    ensures
        double_colon(head + seq![':', ':'] + tail) == head.len(),
    decreases head.len(),
{
    let s = head + seq![':', ':'] + tail;
    if head.len() > 0 {
        let rest = head.drop_first();
        assert forall|i: int| 0 <= i < rest.len() && #[trigger] rest[i] == ':' implies i
            < rest.len() - 1 && rest[i + 1] != ':' by {
            assert(head[i + 1] == rest[i]);
        }
        lemma_double_colon(rest, tail);
        assert(s.drop_first() =~= rest + seq![':', ':'] + tail);
        assert(s[0] == head[0]);
        if head[0] == ':' {
            assert(s[1] == head[1]);
        }
    }
}

proof fn lemma_address_groups(bits: nat, n: nat)
    requires
        bits < crate::bytes::pow256(2 * n),
    ensures
        group_bits(address_groups(bits, n)) == bits,
        address_groups(bits, n).len() == n,
    decreases n,
{
    if n > 0 {
        let m = (n - 1) as nat;
        assert(crate::bytes::pow256(2 * n) == 0x1_0000 * crate::bytes::pow256(2 * m)) by {
            assert(2 * n == 2 * m + 2);
            reveal_with_fuel(crate::bytes::pow256, 3);
        }
        assert(bits / 0x1_0000 < crate::bytes::pow256(2 * m));
        lemma_address_groups(bits / 0x1_0000, m);
        assert(address_groups(bits, n).drop_last() =~= address_groups(bits / 0x1_0000, m));
    }
}

proof fn lemma_leading_zeros(groups: Seq<u16>)
    ensures
        leading_zeros(groups) <= groups.len(),
        forall|i: int| 0 <= i < leading_zeros(groups) ==> #[trigger] groups[i] == 0,
        leading_zeros(groups) < groups.len() ==> groups[leading_zeros(groups) as int] != 0,
    decreases groups.len(),
{
    if groups.len() > 0 && groups[0] == 0 {
        let rest = groups.drop_first();
        lemma_leading_zeros(rest);
        assert forall|i: int| 0 <= i < leading_zeros(groups) implies #[trigger] groups[i] == 0 by {
            if i > 0 {
                assert(groups[i] == rest[i - 1]);
            }
        }
    }
}

proof fn lemma_longest_run(groups: Seq<u16>, n: nat)
    requires
        n <= groups.len(),
    ensures
        ({
            let (start, len) = longest_run(groups, n);
            &&& start + len <= groups.len()
            &&& forall|i: int| start <= i < start + len ==> #[trigger] groups[i] == 0
        }),
    decreases n,
{
    if n > 0 {
        lemma_longest_run(groups, (n - 1) as nat);
        let rest = groups.skip(n - 1);
        lemma_leading_zeros(rest);
        let (start, len) = longest_run(groups, n);
        assert forall|i: int| start <= i < start + len implies #[trigger] groups[i] == 0 by {
            if start == n - 1 && len == leading_zeros(rest) {
                assert(groups[i] == rest[i - (n - 1)]);
            }
        }
    }
}

proof fn lemma_not_dotted(s: Seq<char>)
    requires
        of_groups(s),
    ensures
        ipv4(s) is None,
{
    assert(!s.contains('.')) by {
        if s.contains('.') {
            let i = choose|i: int| 0 <= i < s.len() && s[i] == '.';
            assert('0' <= s[i] <= '9' || 'a' <= s[i] <= 'f' || s[i] == ':');
        }
    }
    crate::text::lemma_split_none(s, '.');
}

proof fn lemma_plain_ipv6(bits: u128)
    requires
        bits / 0x1_0000_0000 != 0xffff,
    ensures
        ip_address(ipv6_text(bits)) == Some(IpAddr::V6(bits)),
        of_groups(ipv6_text(bits)),
{
    crate::bytes::lemma_pow256_values();
    lemma_address_groups(bits as nat, 8);
    let all = address_groups(bits as nat, 8);
    let (start, len) = longest_run(all, 8);
    let s = ipv6_text(bits);
    lemma_longest_run(all, 8);
    if len > 1 {
        let head = all.take(start as int);
        let tail = all.skip((start + len) as int);
        let a = joined(head);
        let b = joined(tail);
        lemma_joined_clean(head);
        lemma_joined_clean(tail);
        lemma_double_colon(a, b);
        lemma_groups_of_joined(head, false);
        lemma_groups_of_joined(tail, true);
        assert(s.take(a.len() as int) =~= a);
        assert(s.skip(a.len() as int + 2) =~= b);
        assert(head + zero_groups(len) + tail =~= all);
        assert(len == 8 - head.len() - tail.len());
        assert(of_groups(s)) by {
            assert forall|i: int| 0 <= i < s.len() implies '0' <= #[trigger] s[i] <= '9' || 'a'
                <= s[i] <= 'f' || s[i] == ':' by {
                if i < a.len() {
                    assert(s[i] == a[i]);
                } else if i >= a.len() + 2 {
                    assert(s[i] == b[i - a.len() - 2]);
                }
            }
        }
    } else {
        lemma_joined_clean(all);
        lemma_no_double_colon(s);
        lemma_groups_of_joined(all, true);
    }
    lemma_not_dotted(s);
}

/// A dotted address with a word in front is none: its first number would be too
/// long.
proof fn lemma_word_and_dotted(front: Seq<char>, low: u32)
    requires
        front.len() > 3,
        !front.contains('.'),
    ensures
        ipv4(front + ipv4_text(low)) is None,
{
    let a = (low / 0x100_0000) as nat;
    let dotted = ipv4_text(low);
    lemma_octets(low);
    lemma_octet_text(a);
    let rest = dotted.skip(decimal(a).len() as int + 1);
    let first = front + decimal(a);
    assert(front + dotted =~= first + seq!['.'] + rest);
    assert(!first.contains('.')) by {
        if first.contains('.') {
            let i = choose|i: int| 0 <= i < first.len() && first[i] == '.';
            if i < front.len() {
                assert(front[i] == '.');
            } else {
                assert(decimal(a)[i - front.len()] == '.');
            }
        }
    }
    crate::text::lemma_split_first(first, '.', rest);
    assert(split(front + dotted, '.')[0] == first);
}

proof fn lemma_all_ones()
    ensures
        hex_group(seq!['f', 'f', 'f', 'f']) == Some(0xffffu16),
{
    let none = Seq::<char>::empty();
    let w1 = seq!['f'];
    let w2 = seq!['f', 'f'];
    let w3 = seq!['f', 'f', 'f'];
    let word = seq!['f', 'f', 'f', 'f'];
    assert(w1.drop_last() =~= none && w1.last() == 'f');
    assert(w2.drop_last() =~= w1 && w2.last() == 'f');
    assert(w3.drop_last() =~= w2 && w3.last() == 'f');
    assert(word.drop_last() =~= w3 && word.last() == 'f');
    assert(hex_value(none) == Some(0nat));
    assert(hex_digit_value('f') == Some(15nat));
    assert(hex_value(w1) == Some(15nat));
    assert(hex_value(w2) == Some(255nat));
    assert(hex_value(w3) == Some(4095nat));
    assert(hex_value(word) == Some(0xffffnat));
}

/// A group and a dotted address are three groups.
proof fn lemma_group_and_dotted(low: u32)
    ensures
        groups(seq!['f', 'f', 'f', 'f', ':'] + ipv4_text(low), true) == Some(
            seq![0xffffu16, (low / 0x1_0000) as u16, (low % 0x1_0000) as u16],
        ),
{
    let dotted = ipv4_text(low);
    let word = seq!['f', 'f', 'f', 'f'];
    let tail = seq!['f', 'f', 'f', 'f', ':'] + dotted;
    let high = (low / 0x1_0000) as u16;
    let down = (low % 0x1_0000) as u16;
    assert(tail =~= word + seq![':'] + dotted);
    assert(!word.contains(':'));
    lemma_dotted_text(low);
    lemma_all_ones();
    ipv4_round_trip(low);
    lemma_dotted_is_no_group(low);
    crate::text::lemma_split_first(word, ':', dotted);
    crate::text::lemma_split_none(dotted, ':');
    let parts = split(tail, ':');
    assert(parts =~= seq![word, dotted]);
    let before = parts.drop_last();
    let none = Seq::<Seq<char>>::empty();
    assert(before =~= seq![word]);
    assert(before.drop_last() =~= none);
    assert(parts_groups(none, false) == Some(Seq::<u16>::empty()));
    assert(part_groups(word, false) == Some(seq![0xffffu16]));
    assert(Seq::<u16>::empty() + seq![0xffffu16] =~= seq![0xffffu16]);
    assert(parts_groups(before, false) == Some(seq![0xffffu16]));
    assert(part_groups(dotted, true) == Some(seq![high, down]));
    assert(seq![0xffffu16] + seq![high, down] =~= seq![0xffffu16, high, down]);
    assert(parts_groups(parts, true) == Some(seq![0xffffu16, high, down]));
}

proof fn lemma_dotted_is_no_group(low: u32)
    ensures
        hex_group(ipv4_text(low)) is None,
        ipv4(ipv4_text(low)) == Some(low),
{
    lemma_dotted_text(low);
    lemma_octets(low);
    lemma_ipv4_split(
        (low / 0x100_0000) as nat,
        (low / 0x1_0000 % 0x100) as nat,
        (low / 0x100 % 0x100) as nat,
        (low % 0x100) as nat,
    );
}

proof fn lemma_mapped_bits(low: u32)
    ensures
        group_bits(
            zero_groups(5) + seq![0xffffu16, (low / 0x1_0000) as u16, (low % 0x1_0000) as u16],
        ) == 0xffff_0000_0000 + low,
{
    let high = (low / 0x1_0000) as u16;
    let down = (low % 0x1_0000) as u16;
    let all = zero_groups(5) + seq![0xffffu16, high, down];
    lemma_zero_bits(5);
    let g5 = zero_groups(5);
    let g6 = g5.push(0xffff);
    let g7 = g6.push(high);
    assert(all =~= g7.push(down));
    assert(g6.drop_last() =~= g5 && g7.drop_last() =~= g6 && all.drop_last() =~= g7);
    assert(group_bits(g6) == 0xffff);
    assert(group_bits(g7) == 0xffff * 0x1_0000 + high);
    assert(group_bits(all) == (0xffff * 0x1_0000 + high) * 0x1_0000 + down);
}

proof fn lemma_mapped_ipv6(bits: u128)
    requires
        bits / 0x1_0000_0000 == 0xffff,
    ensures
        ip_address(ipv6_text(bits)) == Some(IpAddr::V6(bits)),
{
    let low = (bits % 0x1_0000_0000) as u32;
    let dotted = ipv4_text(low);
    reveal_strlit("::ffff:");
    let front = "::ffff:"@;
    assert(front =~= seq![':', ':', 'f', 'f', 'f', 'f', ':']);
    let s = front + dotted;
    assert(ipv6_text(bits) == s);
    lemma_word_and_dotted(front, low);
    assert(s[0] == ':' && s[1] == ':');
    assert(double_colon(s) == 0);
    assert(s.take(0) =~= Seq::<char>::empty());
    assert(groups(s.take(0), false) == Some(Seq::<u16>::empty()));
    assert(s.skip(2) =~= seq!['f', 'f', 'f', 'f', ':'] + dotted);
    lemma_group_and_dotted(low);
    lemma_mapped_bits(low);
    let tail = seq![0xffffu16, (low / 0x1_0000) as u16, (low % 0x1_0000) as u16];
    assert(Seq::<u16>::empty() + zero_groups(5) + tail =~= zero_groups(5) + tail);
    assert(bits == 0xffff_0000_0000 + low);
}

proof fn lemma_zero_bits(n: nat)
    ensures
        group_bits(zero_groups(n)) == 0,
    decreases n,
{
    if n > 0 {
        lemma_zero_bits((n - 1) as nat);
        assert(zero_groups(n).drop_last() =~= zero_groups((n - 1) as nat));
    }
}

proof fn lemma_dotted_text(bits: u32)
    ensures
        ipv4_text(bits).len() >= 7,
        forall|i: int|
            0 <= i < ipv4_text(bits).len() ==> crate::text::is_digit(
                #[trigger] ipv4_text(bits)[i],
            ) || ipv4_text(bits)[i] == '.',
        !ipv4_text(bits).contains(':'),
        !ipv4_text(bits).contains('['),
{
    let a = decimal((bits / 0x100_0000) as nat);
    let b = decimal((bits / 0x1_0000 % 0x100) as nat);
    let c = decimal((bits / 0x100 % 0x100) as nat);
    let d = decimal((bits % 0x100) as nat);
    crate::text::decimal_round_trip((bits / 0x100_0000) as nat);
    crate::text::decimal_round_trip((bits / 0x1_0000 % 0x100) as nat);
    crate::text::decimal_round_trip((bits / 0x100 % 0x100) as nat);
    crate::text::decimal_round_trip((bits % 0x100) as nat);
    let s = ipv4_text(bits);
    assert forall|i: int| 0 <= i < s.len() implies crate::text::is_digit(#[trigger] s[i]) || s[i]
        == '.' by {
        let i1 = i - a.len() - 1;
        let i2 = i1 - b.len() - 1;
        let i3 = i2 - c.len() - 1;
        if i < a.len() {
            assert(s[i] == a[i]);
        } else if 0 <= i1 < b.len() {
            assert(s[i] == b[i1]);
        } else if 0 <= i2 < c.len() {
            assert(s[i] == c[i2]);
        } else if 0 <= i3 {
            assert(s[i] == d[i3]);
        }
    }
}

/// An IPv6 address is read back from its text.
pub proof fn ipv6_round_trip(bits: u128)
    ensures
        ip_address(ip_text(IpAddr::V6(bits))) == Some(IpAddr::V6(bits)),
{
    if bits / 0x1_0000_0000 == 0xffff {
        lemma_mapped_ipv6(bits);
    } else {
        lemma_plain_ipv6(bits);
    }
}

/// Eight groups with single colons between them are an address, the most
/// significant first, and so are fewer of them with `::` in place of the groups
/// of zero that are missing.
pub proof fn groups_are_read_in_order(all: Seq<u16>, head: Seq<u16>, tail: Seq<u16>)
    ensures
        all.len() == 8 ==> ipv6(joined(all)) == Some(group_bits(all) as u128),
        all.len() != 8 ==> ipv6(joined(all)) is None,
        head.len() + tail.len() <= 7 ==> ipv6(joined(head) + seq![':', ':'] + joined(tail)) == Some(
            group_bits(
                head + zero_groups((8 - head.len() - tail.len()) as nat) + tail,
            ) as u128,
        ),
        head.len() + tail.len() > 7 ==> ipv6(joined(head) + seq![':', ':'] + joined(tail)) is None,
{
    lemma_joined_clean(all);
    lemma_no_double_colon(joined(all));
    lemma_groups_of_joined(all, true);
    let a = joined(head);
    let b = joined(tail);
    let s = a + seq![':', ':'] + b;
    lemma_joined_clean(head);
    lemma_double_colon(a, b);
    lemma_groups_of_joined(head, false);
    lemma_groups_of_joined(tail, true);
    assert(s.take(a.len() as int) =~= a);
    assert(s.skip(a.len() as int + 2) =~= b);
}

/// One more group counts for the lowest sixteen bits.
pub proof fn groups_have_sixteen_bits(groups: Seq<u16>, group: u16)
    ensures
        group_bits(Seq::empty()) == 0,
        group_bits(groups.push(group)) == group_bits(groups) * 0x1_0000 + group,
{
    assert(groups.push(group).drop_last() =~= groups);
}

proof fn lemma_no_scope_sign(bits: u128)
    ensures
        forall|i: int| 0 <= i < ipv6_text(bits).len() ==> #[trigger] ipv6_text(bits)[i] != '%',
{
    let s = ipv6_text(bits);
    if bits / 0x1_0000_0000 == 0xffff {
        let low = (bits % 0x1_0000_0000) as u32;
        lemma_dotted_text(low);
        reveal_strlit("::ffff:");
        let front = "::ffff:"@;
        assert(front =~= seq![':', ':', 'f', 'f', 'f', 'f', ':']);
        assert forall|i: int| 0 <= i < s.len() implies #[trigger] s[i] != '%' by {
            if i < 7 {
                assert(s[i] == front[i]);
            } else {
                assert(s[i] == ipv4_text(low)[i - 7]);
            }
        }
    } else {
        lemma_plain_ipv6(bits);
    }
}

proof fn lemma_scoped_text(bits: u128, scope: u32)
    ensures
        scoped_ipv6(ipv6_text(bits) + scope_text(scope)) == Some((bits, scope)),
{
    let t = ipv6_text(bits);
    let s = t + scope_text(scope);
    let n = t.len() as int;
    ipv6_round_trip(bits);
    lemma_no_scope_sign(bits);
    assert forall|i: int| 0 <= i < n implies s[i] != '%' by {
        assert(s[i] == t[i]);
    }
    if scope == 0 {
        assert(s =~= t);
        crate::text::lemma_find_is(s, '%', n);
        assert(s.take(n) =~= t);
    } else {
        let digits = decimal(scope as nat);
        crate::text::decimal_round_trip(scope as nat);
        assert(s[n] == '%');
        crate::text::lemma_find_is(s, '%', n);
        assert(s.take(n) =~= t);
        assert(s.skip(n + 1) =~= digits);
    }
}

proof fn lemma_port_digits(n: u16)
    ensures
        !decimal(n as nat).contains(':'),
        decimal(n as nat).len() > 0,
        all_digits(decimal(n as nat)),
        digits_value(decimal(n as nat)) == n,
{
    let port = decimal(n as nat);
    crate::text::decimal_round_trip(n as nat);
    if port.contains(':') {
        let i = choose|i: int| 0 <= i < port.len() && port[i] == ':';
        assert(crate::text::is_digit(port[i]));
    }
}

proof fn lemma_socket_v4(bits: u32, n: u16)
    ensures
        socket_address(ipv4_text(bits) + seq![':'] + decimal(n as nat)) == Some(
            plain_socket(IpAddr::V4(bits), n),
        ),
{
    let host = ipv4_text(bits);
    let port = decimal(n as nat);
    let s = host + seq![':'] + port;
    lemma_port_digits(n);
    lemma_dotted_text(bits);
    lemma_dotted_is_no_group(bits);
    crate::text::lemma_find_last(host, ':', port);
    assert(s.take(host.len() as int) =~= host);
    assert(s.skip(host.len() as int + 1) =~= port);
    assert(host.contains(host[0]));
}

proof fn lemma_socket_v6(bits: u128, scope: u32, n: u16)
    ensures
        socket_address(
            seq!['['] + (ipv6_text(bits) + scope_text(scope)) + seq![']'] + seq![':'] + decimal(
                n as nat,
            ),
        ) == Some(SocketAddr { ip: IpAddr::V6(bits), port: n, flow: 0, scope }),
{
    let inner = ipv6_text(bits) + scope_text(scope);
    let host = seq!['['] + inner + seq![']'];
    let port = decimal(n as nat);
    let s = host + seq![':'] + port;
    lemma_port_digits(n);
    lemma_scoped_text(bits, scope);
    crate::text::lemma_find_last(host, ':', port);
    assert(s.take(host.len() as int) =~= host);
    assert(s.skip(host.len() as int + 1) =~= port);
    assert(host.subrange(1, host.len() - 1) =~= inner);
}

/// An address and a port are read back from their text, with the scope of an
/// IPv6 address; the text has no room for flow information.
pub proof fn socket_round_trip(addr: SocketAddr)
    requires
        addr.flow == 0,
        addr.ip is V4 ==> addr.scope == 0,
    ensures
        socket_address(socket_text(addr)) == Some(addr),
{
    let port = decimal(addr.port as nat);
    match addr.ip {
        IpAddr::V4(bits) => {
            lemma_socket_v4(bits, addr.port);
        },
        IpAddr::V6(bits) => {
            let text = ipv6_text(bits);
            let scope = scope_text(addr.scope);
            lemma_socket_v6(bits, addr.scope, addr.port);
            assert(socket_text(addr) =~= seq!['['] + (text + scope) + seq![']'] + seq![':'] + port);
        },
    }
}

/// A port is digits only, up to 65535, behind the last colon.
pub proof fn socket_ports_are_digits(host: Seq<char>, port: Seq<char>)
    requires
        !port.contains(':'),
    ensures
        !all_digits(port) || port.len() == 0 || digits_value(port) > 65535 ==> socket_address(
            host + seq![':'] + port,
        ) is None,
        socket_address(host + seq![':'] + port) is Some ==> socket_address(
            host + seq![':'] + port,
        )->Some_0.port == digits_value(port),
        ipv4(host) is None && (host.len() < 2 || host[0] != '[' || host.last() != ']')
            ==> socket_address(host + seq![':'] + port) is None,
{
    let s = host + seq![':'] + port;
    crate::text::lemma_find_last(host, ':', port);
    assert(s.take(host.len() as int) =~= host);
    assert(s.skip(host.len() as int + 1) =~= port);
}

proof fn lemma_run_is_longest(groups: Seq<u16>, n: nat, i: int, k: int)
    requires
        n <= groups.len(),
        0 <= i < n,
        0 < k <= groups.len() - i,
        forall|j: int| i <= j < i + k ==> #[trigger] groups[j] == 0,
    ensures
        k <= longest_run(groups, n).1,
        k == longest_run(groups, n).1 ==> longest_run(groups, n).0 <= i,
    decreases n,
{
    let rest = groups.skip(n - 1);
    lemma_leading_zeros(rest);
    if i == n - 1 {
        assert(leading_zeros(rest) >= k) by {
            let stop = leading_zeros(rest) as int;
            if stop < k {
                assert(rest[stop] == groups[i + stop]);
            }
        }
        lemma_run_starts_before(groups, (n - 1) as nat);
    } else {
        lemma_run_is_longest(groups, (n - 1) as nat, i, k);
    }
}

proof fn lemma_run_starts_before(groups: Seq<u16>, n: nat)
    ensures
        longest_run(groups, n).0 < n || n == 0 && longest_run(groups, n).0 == 0,
    decreases n,
{
    if n > 0 {
        lemma_run_starts_before(groups, (n - 1) as nat);
    }
}

/// An IPv6 address leaves out its longest run of zero groups, the first of
/// equally long ones, where that is more than one group: no other run, of `k`
/// groups from `i` on, is longer. A mapped address shows its IPv4 address.
pub proof fn the_longest_run_of_zeros_is_left_out(bits: u128, i: int, k: int)
    requires
        0 <= i < 8,
        0 < k <= 8 - i,
        forall|j: int| i <= j < i + k ==> #[trigger] address_groups(bits as nat, 8)[j] == 0,
    ensures
        ({
            let all = address_groups(bits as nat, 8);
            let (start, len) = longest_run(all, 8);
            let mapped = 0xffff_0000_0000 <= bits <= 0xffff_ffff_ffff;
            &&& k <= len
            &&& k == len ==> start <= i
            &&& mapped ==> ipv6_text(bits) == "::ffff:"@ + ipv4_text(
                (bits - 0xffff_0000_0000) as u32,
            )
            &&& !mapped && len > 1 ==> ipv6_text(bits) == joined(all.take(start as int)) + "::"@
                + joined(all.skip((start + len) as int))
            &&& !mapped && len <= 1 ==> ipv6_text(bits) == joined(all)
        }),
{
    let all = address_groups(bits as nat, 8);
    lemma_address_groups_len(bits as nat, 8);
    lemma_run_is_longest(all, 8, i, k);
    reveal_strlit("::");
    assert("::"@ =~= seq![':', ':']);
    assert(bits == (bits / 0x1_0000_0000) * 0x1_0000_0000 + bits % 0x1_0000_0000);
}

} // verus!
