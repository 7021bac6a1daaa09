//! Port-range interception: the hosting-node mode.
//!
//! Instead of routing by hostname to a configured server list, the gateway
//! sits in front of every game server on a node and takes over connections to
//! a range of ports. Each connection goes to exactly the server the player
//! dialled; the only visible change is the MOTD line the node owner sets.

use vstd::prelude::*;

use crate::net::{plain_socket, IpAddr, SocketAddr};
use crate::text::{
    decimal, decimal_round_trip, decimal_text, find, find_char, from_chars, glue3, is_digit,
    lemma_find_is, number, parse_number, push_decimal, sub_chars, to_chars, trim, trim_chars,
    trim_end, trim_start,
};

verus! {

/// The ports that are taken over, and where their connections arrive.
#[derive(Debug, Clone, PartialEq, Eq)]
pub struct Intercept {
    /// Where intercepted connections are delivered. Loopback is enough: the
    /// kernel hands connections over regardless of the address players dialled,
    /// and it keeps the port unreachable from outside.
    pub listen: SocketAddr,
    /// The same for IPv6. Absent, IPv6 connections are left alone.
    pub listen_v6: Option<SocketAddr>,
    /// Ports whose connections are taken over, e.g. `["25565-25665", 30000]`.
    pub ports: Vec<PortRange>,
}

/// `127.0.0.1:25500`
pub open spec fn listen_default() -> SocketAddr {
    plain_socket(IpAddr::V4(0x7f00_0001), 25500)
}

/// `[::1]:25500`
pub open spec fn listen_v6_default() -> SocketAddr {
    plain_socket(IpAddr::V6(1), 25500)
}

/// Where intercepted IPv4 connections are delivered if nothing else is said.
pub fn default_listen() -> (addr: SocketAddr)
    ensures
        addr == listen_default(),
{
    SocketAddr::new(IpAddr::V4(0x7f00_0001), 25500)
}

/// Where intercepted IPv6 connections are delivered if nothing else is said.
pub fn default_listen_v6() -> (addr: Option<SocketAddr>)
    ensures
        addr == Some(listen_v6_default()),
{
    Some(SocketAddr::new(IpAddr::V6(1), 25500))
}

/// Whether `port` lies in one of the ranges.
pub open spec fn covered(ports: Seq<PortRange>, port: u16) -> bool {
    exists|i: int| 0 <= i < ports.len() && (#[trigger] ports[i]).holds(port)
}

/// Whether `port` lies in one of the ranges.
pub fn ranges_cover(ports: &Vec<PortRange>, port: u16) -> (yes: bool)
    ensures
        yes == covered(ports@, port),
{
    let mut i: usize = 0;
    while i < ports.len()
        invariant
            i <= ports@.len(),
            forall|j: int| 0 <= j < i ==> !(#[trigger] ports@[j]).holds(port),
        decreases ports@.len() - i,
    {
        if ports[i].contains(port) {
            return true;
        }
        i = i + 1;
    }
    false
}

impl Intercept {
    /// Whether connections to `port` are taken over.
    pub fn covers(&self, port: u16) -> (yes: bool)
        ensures
            yes == covered(self.ports@, port),
    {
        ranges_cover(&self.ports, port)
    }
}

/// An inclusive range of ports, written `30000-40000` or as a single port.
#[derive(Debug, Clone, Copy, PartialEq, Eq, PartialOrd, Ord, Structural)]
pub struct PortRange {
    pub start: u16,
    pub end: u16,
}

/// The port that one side of a range spells, or what is wrong with it.
pub open spec fn port_of(part: Seq<char>) -> Result<u16, Seq<char>> {
    match number(trim(part)) {
        Some(n) => if n > u16::MAX {
            Err("`"@ + part + "` is not a port"@)
        } else if n == 0 {
            Err("port 0 cannot be intercepted"@)
        } else {
            Ok(n as u16)
        },
        None => Err("`"@ + part + "` is not a port"@),
    }
}

/// The range that `s` spells, or what is wrong with it.
pub open spec fn range_of(s: Seq<char>) -> Result<PortRange, Seq<char>> {
    let at = find(s, '-') as int;
    let (first, second) = if at < s.len() {
        (port_of(s.take(at)), port_of(s.skip(at + 1)))
    } else {
        (port_of(s), port_of(s))
    };
    match (first, second) {
        (Err(error), _) => Err(error),
        (_, Err(error)) => Err(error),
        (Ok(start), Ok(end)) => if start > end {
            Err("range `"@ + s + "` ends before it starts"@)
        } else {
            Ok(PortRange { start, end })
        },
    }
}

/// A range as text.
pub open spec fn range_text(range: PortRange) -> Seq<char> {
    if range.start == range.end {
        decimal(range.start as nat)
    } else {
        decimal(range.start as nat) + seq!['-'] + decimal(range.end as nat)
    }
}

fn parse_port(part: &[char]) -> (r: Result<u16, String>)
    ensures
        match port_of(part@) {
            Ok(port) => r == Ok::<u16, String>(port),
            Err(error) => r is Err && r->Err_0@ == error,
        },
{
    match parse_number(trim_chars(part), 0xffff) {
        Some(n) => if n == 0 {
            Err("port 0 cannot be intercepted".to_owned())
        } else {
            Ok(n as u16)
        },
        None => Err(glue3("`", from_chars(part).as_str(), "` is not a port")),
    }
}

impl PortRange {
    /// Whether `port` lies in the range.
    pub open spec fn holds(self, port: u16) -> bool {
        self.start <= port <= self.end
    }

    /// A range that was read: it starts above zero and does not end before it
    /// starts.
    pub open spec fn wf(self) -> bool {
        1 <= self.start <= self.end
    }

    /// Whether the two ranges touch.
    pub open spec fn meets(self, other: PortRange) -> bool {
        self.start <= other.end && other.start <= self.end
    }

    /// Whether `port` lies in the range.
    pub fn contains(&self, port: u16) -> (yes: bool)
        ensures
            yes == self.holds(port),
    {
        self.start <= port && port <= self.end
    }

    /// Whether some port lies in both ranges.
    pub fn overlaps(&self, other: &PortRange) -> (yes: bool)
        ensures
            yes == self.meets(*other),
    {
        self.start <= other.end && other.start <= self.end
    }

    /// Reads `30000-40000` or a single port.
    pub fn from_str(s: &str) -> (r: Result<Self, String>)
        ensures
            match range_of(s@) {
                Ok(range) => r == Ok::<PortRange, String>(range) && range.wf(),
                Err(error) => r is Err && r->Err_0@ == error,
            },
    {
        let chars = to_chars(s);
        let at: usize = find_char(chars.as_slice(), '-');
        let start: u16;
        let end: u16;
        if at < chars.len() {
            let first = sub_chars(chars.as_slice(), 0, at);
            let second = sub_chars(chars.as_slice(), at + 1, chars.len());
            assert(first@ =~= s@.take(at as int));
            assert(second@ =~= s@.skip(at + 1));
            start = match parse_port(first) {
                Ok(port) => port,
                Err(error) => return Err(error),
            };
            end = match parse_port(second) {
                Ok(port) => port,
                Err(error) => return Err(error),
            };
        } else {
            start = match parse_port(chars.as_slice()) {
                Ok(port) => port,
                Err(error) => return Err(error),
            };
            end = start;
        }
        if start > end {
            return Err(glue3("range `", s, "` ends before it starts"));
        }
        Ok(PortRange { start, end })
    }

    /// A single port given as a number.
    pub fn from_number(value: i128) -> (r: Result<Self, String>)
        ensures
            if value < 0 || value > u16::MAX {
                r is Err && r->Err_0@ == "port out of range"@
            } else if value == 0 {
                r is Err && r->Err_0@ == "port 0 cannot be intercepted"@
            } else {
                r == Ok::<PortRange, String>(PortRange { start: value as u16, end: value as u16 })
            },
    {
        if value < 0 || value > 0xffff {
            return Err("port out of range".to_owned());
        }
        if value == 0 {
            return Err("port 0 cannot be intercepted".to_owned());
        }
        Ok(PortRange { start: value as u16, end: value as u16 })
    }

    /// The range as text.
    pub fn to_text(&self) -> (text: String)
        ensures
            text@ == range_text(*self),
    {
        let mut text = decimal_text(self.start as u128);
        if self.start != self.end {
            text.push('-');
            push_decimal(&mut text, self.end as u128);
            assert(text@ =~= range_text(*self));
        }
        text
    }
}

// -------------------------------------------------------------------- laws --

/// Two ranges overlap exactly where some port lies in both, and then both ways.
pub proof fn overlap_is_a_shared_port(a: PortRange, b: PortRange)
    requires
        a.wf(),
        b.wf(),
    ensures
        a.meets(b) == (exists|port: u16| a.holds(port) && b.holds(port)),
        a.meets(b) == b.meets(a),
{
    if a.meets(b) {
        let port = if a.start >= b.start {
            a.start
        } else {
            b.start
        };
        assert(a.holds(port) && b.holds(port));
    }
}

proof fn lemma_trim_decimal(n: nat)
    ensures
        trim(decimal(n)) == decimal(n),
{
    decimal_round_trip(n);
    let s = decimal(n);
    assert(is_digit(s[0]));
    assert(is_digit(s[s.len() - 1]));
    assert(trim_start(s) == s);
    assert(trim_end(s) == s);
}

/// A range is read back from its text.
pub proof fn range_round_trip(range: PortRange)
    requires
        range.wf(),
    ensures
        range_of(range_text(range)) == Ok::<PortRange, Seq<char>>(range),
{
    let a = decimal(range.start as nat);
    let b = decimal(range.end as nat);
    let s = range_text(range);
    decimal_round_trip(range.start as nat);
    decimal_round_trip(range.end as nat);
    lemma_trim_decimal(range.start as nat);
    lemma_trim_decimal(range.end as nat);
    assert forall|i: int| 0 <= i < a.len() implies a[i] != '-' by {
        assert(is_digit(a[i]));
    }
    if range.start == range.end {
        lemma_find_is(s, '-', s.len() as int);
    } else {
        assert forall|i: int| 0 <= i < a.len() implies s[i] != '-' by {
            assert(s[i] == a[i]);
        }
        lemma_find_is(s, '-', a.len() as int);
        assert(s.take(a.len() as int) =~= a);
        assert(s.skip(a.len() as int + 1) =~= b);
    }
}

/// A range holds its first port, its last port and every port between them, and
/// no other.
pub proof fn ranges_hold_both_ends(range: PortRange, port: u16)
    ensures
        range.wf() ==> range.holds(range.start) && range.holds(range.end),
        port < range.start || port > range.end ==> !range.holds(port),
        range.start <= port <= range.end ==> range.holds(port),
        covered(seq![range], port) == range.holds(port),
        !covered(Seq::empty(), port),
{
    assert(seq![range][0] == range);
}

/// Ranges put together cover what one of them covers.
pub proof fn ranges_cover_together(a: Seq<PortRange>, b: Seq<PortRange>, port: u16)
    ensures
        covered(a + b, port) == (covered(a, port) || covered(b, port)),
{
    let all = a + b;
    if covered(a, port) {
        let i = choose|i: int| 0 <= i < a.len() && (#[trigger] a[i]).holds(port);
        assert(all[i].holds(port));
    }
    if covered(b, port) {
        let i = choose|i: int| 0 <= i < b.len() && (#[trigger] b[i]).holds(port);
        assert(all[a.len() + i].holds(port));
    }
    if covered(all, port) {
        let i = choose|i: int| 0 <= i < all.len() && (#[trigger] all[i]).holds(port);
        if i < a.len() {
            assert(a[i].holds(port));
        } else {
            assert(b[i - a.len()].holds(port));
        }
    }
}

/// A range is spelled by its two ports, in ascending order and with blanks round
/// each at will; a text without `-` is a single port. Ports are from 1 to 65535.
pub proof fn ranges_are_spelled_by_their_ports(first: Seq<char>, second: Seq<char>)
    requires
        !first.contains('-'),
    ensures
        ({
            let a = number(trim(first));
            let b = number(trim(second));
            let first_fits = a is Some && 1 <= a->Some_0 <= 65535;
            let second_fits = b is Some && 1 <= b->Some_0 <= 65535;
            &&& range_of(first) == if first_fits {
                Ok::<PortRange, Seq<char>>(
                    PortRange { start: a->Some_0 as u16, end: a->Some_0 as u16 },
                )
            } else {
                Err::<PortRange, Seq<char>>(range_of(first)->Err_0)
            }
            &&& range_of(first + seq!['-'] + second) == if first_fits && second_fits && a->Some_0
                <= b->Some_0 {
                Ok::<PortRange, Seq<char>>(
                    PortRange { start: a->Some_0 as u16, end: b->Some_0 as u16 },
                )
            } else {
                Err::<PortRange, Seq<char>>(range_of(first + seq!['-'] + second)->Err_0)
            }
        }),
{
    let s = first + seq!['-'] + second;
    let n = first.len() as int;
    assert forall|i: int| 0 <= i < n implies first[i] != '-' && s[i] != '-' by {
        assert(first.contains(first[i]));
        assert(s[i] == first[i]);
    }
    lemma_find_is(first, '-', n);
    lemma_find_is(s, '-', n);
    assert(s.take(n) =~= first);
    assert(s.skip(n + 1) =~= second);
}

/// Intercepted connections arrive on loopback where nothing else is said.
pub proof fn interception_is_private_by_default()
    ensures
        listen_default().ip == IpAddr::V4(0x7f00_0001),
        listen_default().port == 25500,
        listen_v6_default().ip == IpAddr::V6(1),
        listen_v6_default().port == 25500,
{
}

} // verus!
