//! Host patterns and backend addresses.

use vstd::prelude::*;
use vstd::string::StrSliceExecFns;

use crate::text::{
    decimal, decimal_round_trip, find, find_char, find_last, find_last_char, glue3, is_digit,
    lemma_find, lemma_find_is, lemma_find_last, number, parse_number, sub_chars, to_chars,
};

verus! {

/// A host pattern without a leading `*.`.
pub open spec fn pattern_body(pattern: Seq<char>) -> Seq<char> {
    if pattern.len() >= 2 && pattern[0] == '*' && pattern[1] == '.' {
        pattern.skip(2)
    } else {
        pattern
    }
}

/// What is wrong with a host pattern, if anything.
pub open spec fn pattern_error(pattern: Seq<char>) -> Option<Seq<char>> {
    let body = pattern_body(pattern);
    if pattern.len() == 0 {
        Some("empty host pattern"@)
    } else if pattern == seq!['*'] {
        None
    } else if body.len() == 0 {
        Some("wildcard needs a domain after `*.`"@)
    } else if body.contains('*') {
        Some("`*` is only allowed as a leading `*.` label"@)
    } else if body.contains('/') || body.contains(' ') {
        Some("host pattern contains an invalid character"@)
    } else if body.contains(':') {
        Some("host pattern must not contain a port"@)
    } else {
        None
    }
}

fn has_char(chars: &[char], c: char) -> (yes: bool)
    ensures
        yes == chars@.contains(c),
{
    proof {
        lemma_find(chars@, c);
    }
    find_char(chars, c) < chars.len()
}

/// Accepts `example.net`, `*.example.net` or `*`.
pub fn validate_host_pattern(pattern: &str) -> (r: Result<(), String>)
    ensures
        match pattern_error(pattern@) {
            None => r is Ok,
            Some(error) => r is Err && r->Err_0@ == error,
        },
{
    let chars = to_chars(pattern);
    if chars.len() == 0 {
        return Err("empty host pattern".to_owned());
    }
    if chars.len() == 1 && chars[0] == '*' {
        assert(pattern@ =~= seq!['*']);
        return Ok(());
    }
    let start: usize = if chars.len() >= 2 && chars[0] == '*' && chars[1] == '.' {
        2
    } else {
        0
    };
    let body = sub_chars(chars.as_slice(), start, chars.len());
    assert(body@ =~= pattern_body(pattern@));
    if body.len() == 0 {
        return Err("wildcard needs a domain after `*.`".to_owned());
    }
    if has_char(body, '*') {
        return Err("`*` is only allowed as a leading `*.` label".to_owned());
    }
    if has_char(body, '/') || has_char(body, ' ') {
        return Err("host pattern contains an invalid character".to_owned());
    }
    if has_char(body, ':') {
        return Err("host pattern must not contain a port".to_owned());
    }
    Ok(())
}

/// The number that a port field spells.
pub open spec fn port_field(s: Seq<char>) -> Option<u16> {
    match number(s) {
        Some(n) => if n <= u16::MAX {
            Some(n as u16)
        } else {
            None
        },
        None => None,
    }
}

/// Host and port field of an address, or what is wrong with it.
pub open spec fn address_fields(s: Seq<char>) -> Result<(Seq<char>, Seq<char>), Seq<char>> {
    if s.len() > 0 && s[0] == '[' {
        let rest = s.skip(1);
        let at = find(rest, ']') as int;
        if at == rest.len() {
            Err("`"@ + s + "` is missing the closing `]`"@)
        } else if at + 1 < rest.len() && rest[at + 1] == ':' {
            Ok((rest.take(at), rest.skip(at + 2)))
        } else {
            Err("`"@ + s + "` is missing a port"@)
        }
    } else {
        match find_last(s, ':') {
            Some(at) => Ok((s.take(at as int), s.skip(at as int + 1))),
            None => Err("`"@ + s + "` is missing a port (expected host:port)"@),
        }
    }
}

/// Host and port of an address, or what is wrong with it.
pub open spec fn host_port(s: Seq<char>) -> Result<(Seq<char>, u16), Seq<char>> {
    match address_fields(s) {
        Err(error) => Err(error),
        Ok((host, port)) => match port_field(port) {
            Some(port) => Ok((host, port)),
            None => Err("`"@ + s + "` has an invalid port"@),
        },
    }
}

/// What is wrong with a backend address, if anything.
pub open spec fn address_error(s: Seq<char>) -> Option<Seq<char>> {
    match host_port(s) {
        Err(error) => Some(error),
        Ok((host, port)) => if host.len() == 0 {
            Some("`"@ + s + "` has an empty host"@)
        } else if port == 0 {
            Some("`"@ + s + "` has port 0"@)
        } else {
            None
        },
    }
}

/// Backend addresses are `host:port`; the host may be a DNS name.
pub fn validate_address(address: &str) -> (r: Result<(), String>)
    ensures
        match address_error(address@) {
            None => r is Ok,
            Some(error) => r is Err && r->Err_0@ == error,
        },
{
    match split_host_port(address) {
        Err(error) => Err(error),
        Ok((host, port)) => {
            if host.is_empty() {
                return Err(glue3("`", address, "` has an empty host"));
            }
            if port == 0 {
                return Err(glue3("`", address, "` has port 0"));
            }
            Ok(())
        },
    }
}

/// Splits `host:port`, including the `[::1]:25565` form.
pub fn split_host_port(address: &str) -> (r: Result<(&str, u16), String>)
    ensures
        match host_port(address@) {
            Ok((host, port)) => r is Ok && r->Ok_0.0@ == host && r->Ok_0.1 == port,
            Err(error) => r is Err && r->Err_0@ == error,
        },
{
    let chars = to_chars(address);
    let n: usize = chars.len();
    let host_start: usize;
    let host_end: usize;
    let port_start: usize;
    if n > 0 && chars[0] == '[' {
        let rest = sub_chars(chars.as_slice(), 1, n);
        assert(rest@ =~= address@.skip(1));
        let at: usize = find_char(rest, ']');
        if at == rest.len() {
            return Err(glue3("`", address, "` is missing the closing `]`"));
        }
        if !(at + 1 < rest.len() && rest[at + 1] == ':') {
            return Err(glue3("`", address, "` is missing a port"));
        }
        host_start = 1;
        host_end = at + 1;
        port_start = at + 3;
        assert(address@.subrange(1, at + 1) =~= rest@.take(at as int));
        assert(address@.subrange(at + 3, n as int) =~= rest@.skip(at + 2));
    } else {
        match find_last_char(chars.as_slice(), ':') {
            Some(at) => {
                host_start = 0;
                host_end = at;
                port_start = at + 1;
                assert(address@.subrange(0, at as int) =~= address@.take(at as int));
                assert(address@.subrange(at + 1, n as int) =~= address@.skip(at + 1));
            },
            None => {
                return Err(glue3("`", address, "` is missing a port (expected host:port)"));
            },
        }
    }
    match parse_number(sub_chars(chars.as_slice(), port_start, n), 0xffff) {
        Some(port) => Ok((address.substring_char(host_start, host_end), port as u16)),
        None => Err(glue3("`", address, "` has an invalid port")),
    }
}

// -------------------------------------------------------------------- laws --

/// A host pattern is `*`, a domain, or `*.` and a domain, where a domain has at
/// least one character and none of `*`, `/`, a blank and `:`.
pub proof fn patterns_are_domains_with_one_wildcard(domain: Seq<char>)
    ensures
        ({
            let plain = domain.len() > 0 && forall|i: int|
                0 <= i < domain.len() ==> domain[i] != '*' && domain[i] != '/' && domain[i] != ' '
                    && #[trigger] domain[i] != ':';
            &&& (pattern_error(seq!['*', '.'] + domain) is None) == plain
            &&& !(domain.len() >= 2 && domain[0] == '*' && domain[1] == '.') && domain != seq!['*']
                ==> (pattern_error(domain) is None) == plain
        }),
        pattern_error(seq!['*']) is None,
{
    let wild = seq!['*', '.'] + domain;
    assert(wild.skip(2) =~= domain);
    assert(wild != seq!['*']) by {
        assert(wild.len() >= 2);
    }
    let plain = domain.len() > 0 && forall|i: int|
        0 <= i < domain.len() ==> domain[i] != '*' && domain[i] != '/' && domain[i] != ' '
            && #[trigger] domain[i] != ':';
    let bad = domain.contains('*') || domain.contains('/') || domain.contains(' ')
        || domain.contains(':');
    if bad {
        assert(!plain);
    } else if domain.len() > 0 {
        assert forall|i: int| 0 <= i < domain.len() implies domain[i] != '*' && domain[i] != '/'
            && domain[i] != ' ' && #[trigger] domain[i] != ':' by {
            assert(domain.contains(domain[i]));
        }
    }
}

/// Each complaint about a pattern names what is wrong with it.
pub proof fn patterns_are_told_what_is_wrong(domain: Seq<char>)
    ensures
        pattern_error(Seq::empty()) == Some("empty host pattern"@),
        pattern_error(seq!['*', '.']) == Some("wildcard needs a domain after `*.`"@),
        domain.contains('*') ==> pattern_error(seq!['*', '.'] + domain) == Some(
            "`*` is only allowed as a leading `*.` label"@,
        ),
        domain.contains(':') && !domain.contains('*') && !domain.contains('/') && !domain.contains(
            ' ',
        ) ==> pattern_error(seq!['*', '.'] + domain) == Some(
            "host pattern must not contain a port"@,
        ),
        (domain.contains('/') || domain.contains(' ')) && !domain.contains('*') ==> pattern_error(
            seq!['*', '.'] + domain,
        ) == Some("host pattern contains an invalid character"@),
{
    let bare = seq!['*', '.'];
    assert(bare.skip(2) =~= Seq::<char>::empty());
    let wild = seq!['*', '.'] + domain;
    assert(wild.skip(2) =~= domain);
    assert(wild.len() >= 2 && bare.len() == 2 && seq!['*'].len() == 1);
}

proof fn lemma_no_colon(s: Seq<char>)
    requires
        !s.contains(':'),
    ensures
        find_last(s, ':') is None,
    decreases s.len(),
{
    if s.len() > 0 {
        let shorter = s.drop_last();
        assert forall|i: int| 0 <= i < shorter.len() implies shorter[i] != ':' by {
            assert(s.contains(s[i]));
        }
        assert(s.contains(s.last()));
        lemma_no_colon(shorter);
    }
}

/// An address is a host, a colon and a port: the port stands behind the last
/// colon and is a number up to 65535. Without a colon there is no address.
pub proof fn ports_stand_behind_the_last_colon(host: Seq<char>, field: Seq<char>, port: u16)
    requires
        host.len() == 0 || host[0] != '[',
        !field.contains(':'),
    ensures
        host_port(host + seq![':'] + decimal(port as nat)) == Ok::<(Seq<char>, u16), Seq<char>>(
            (host, port),
        ),
        number(field) is Some && number(field)->Some_0 <= 65535 ==> host_port(
            host + seq![':'] + field,
        ) == Ok::<(Seq<char>, u16), Seq<char>>((host, number(field)->Some_0 as u16)),
        number(field) is None || number(field)->Some_0 > 65535 ==> host_port(
            host + seq![':'] + field,
        ) is Err,
        !host.contains(':') ==> host_port(host) is Err,
{
    let digits = decimal(port as nat);
    decimal_round_trip(port as nat);
    assert(!digits.contains(':')) by {
        if digits.contains(':') {
            let i = choose|i: int| 0 <= i < digits.len() && digits[i] == ':';
            assert(is_digit(digits[i]));
        }
    }
    lemma_find_last(host, ':', digits);
    lemma_find_last(host, ':', field);
    let s = host + seq![':'] + field;
    let t = host + seq![':'] + digits;
    assert(s.take(host.len() as int) =~= host && s.skip(host.len() as int + 1) =~= field);
    assert(t.take(host.len() as int) =~= host && t.skip(host.len() as int + 1) =~= digits);
    assert(s[0] != '[' && t[0] != '[');
    if !host.contains(':') {
        lemma_no_colon(host);
    }
}

/// In brackets the host ends at the first closing bracket, with the colon and
/// the port right behind it; colons inside belong to the host.
pub proof fn bracketed_hosts_end_at_their_bracket(
    host: Seq<char>,
    field: Seq<char>,
    rest: Seq<char>,
)
    requires
        !host.contains(']'),
    ensures
        number(field) is Some && number(field)->Some_0 <= 65535 ==> host_port(
            seq!['['] + host + seq![']', ':'] + field,
        ) == Ok::<(Seq<char>, u16), Seq<char>>((host, number(field)->Some_0 as u16)),
        number(field) is None || number(field)->Some_0 > 65535 ==> host_port(
            seq!['['] + host + seq![']', ':'] + field,
        ) is Err,
        rest.len() == 0 || rest[0] != ':' ==> host_port(seq!['['] + host + seq![']'] + rest)
            is Err,
        host_port(seq!['['] + host) is Err,
{
    let s = seq!['['] + host + seq![']', ':'] + field;
    let behind = s.skip(1);
    assert(behind =~= host + seq![']', ':'] + field);
    assert forall|i: int| 0 <= i < host.len() implies host[i] != ']' by {
        assert(host.contains(host[i]));
    }
    lemma_find_is(behind, ']', host.len() as int);
    assert(behind.take(host.len() as int) =~= host);
    assert(behind.skip(host.len() as int + 2) =~= field);
    let t = seq!['['] + host + seq![']'] + rest;
    assert(t.skip(1) =~= host + seq![']'] + rest);
    lemma_find_is(t.skip(1), ']', host.len() as int);
    let u = seq!['['] + host;
    assert(u.skip(1) =~= host);
    lemma_find_is(host, ']', host.len() as int);
}

/// A backend address can be used exactly where it splits into a host of at least
/// one character and a port other than zero.
pub proof fn usable_addresses_have_a_host_and_a_port(s: Seq<char>)
    ensures
        (address_error(s) is None) == (host_port(s) is Ok && host_port(s)->Ok_0.0.len() > 0
            && host_port(s)->Ok_0.1 > 0),
        host_port(s) is Ok && host_port(s)->Ok_0.0.len() == 0 ==> address_error(s) == Some(
            "`"@ + s + "` has an empty host"@,
        ),
        host_port(s) is Ok && host_port(s)->Ok_0.0.len() > 0 && host_port(s)->Ok_0.1 == 0
            ==> address_error(s) == Some("`"@ + s + "` has port 0"@),
{
}

} // verus!
