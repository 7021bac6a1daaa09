//! Strings as sequences of characters: searching, splitting, numbers.

use vstd::prelude::*;
use vstd::slice::slice_subrange;
use vstd::string::StringExecFns;
use vstd::utf8::{decode_utf8, encode_utf8_decode_utf8, valid_utf8};

use crate::bytes::{is_prefix, same_bytes};

verus! {

// ------------------------------------------------------------ std strings --

/// `std::str::from_utf8`: the text that `bytes` encode, or nothing where they
/// are not UTF-8.
#[verifier::external_body]
pub(crate) fn from_utf8(bytes: &[u8]) -> (text: Option<&str>)
    ensures
        match text {
            Some(text) => valid_utf8(bytes@) && text@ == decode_utf8(bytes@),
            None => !valid_utf8(bytes@),
        },
{
    std::str::from_utf8(bytes).ok()
}

/// `String::push` appends one character.
pub assume_specification[ String::push ](text: &mut String, c: char)
    ensures
        final(text)@ == old(text)@.push(c),
;

/// The characters of `text`.
pub fn to_chars(text: &str) -> (chars: Vec<char>)
    ensures
        chars@ == text@,
{
    let mut chars: Vec<char> = Vec::new();
    for c in it: text.chars()
        invariant
            it.seq() == text@,
            chars@ == text@.take(it.index()),
    {
        chars.push(c);
        assert(chars@ =~= text@.take(it.index() + 1));
    }
    assert(chars@ =~= text@);
    chars
}

/// Appends `chars` to `out`.
pub fn push_chars(out: &mut String, chars: &[char])
    ensures
        final(out)@ == old(out)@ + chars@,
{
    let mut i: usize = 0;
    while i < chars.len()
        invariant
            i <= chars@.len(),
            out@ == old(out)@ + chars@.take(i as int),
        decreases chars@.len() - i,
    {
        out.push(chars[i]);
        i = i + 1;
        assert(out@ =~= old(out)@ + chars@.take(i as int));
    }
    assert(chars@.take(i as int) =~= chars@);
}

/// The string of these characters.
pub fn from_chars(chars: &[char]) -> (text: String)
    ensures
        text@ == chars@,
{
    let mut text = String::new();
    push_chars(&mut text, chars);
    assert(text@ =~= chars@);
    text
}

/// Whether two strings are the same.
pub fn same_text(a: &str, b: &str) -> (same: bool)
    ensures
        same == (a@ == b@),
{
    proof {
        encode_utf8_decode_utf8(a@);
        encode_utf8_decode_utf8(b@);
    }
    same_bytes(a.as_bytes(), b.as_bytes())
}

/// Whether two character sequences are the same.
pub fn same_chars(a: &[char], b: &[char]) -> (same: bool)
    ensures
        same == (a@ == b@),
{
    if a.len() != b.len() {
        return false;
    }
    let mut i: usize = 0;
    while i < a.len()
        invariant
            i <= a@.len(),
            a@.len() == b@.len(),
            forall|j: int| 0 <= j < i ==> a@[j] == b@[j],
        decreases a@.len() - i,
    {
        if a[i] != b[i] {
            return false;
        }
        i = i + 1;
    }
    assert(a@ =~= b@);
    true
}

/// The characters from `from` up to `to`.
pub fn sub_chars<'a>(chars: &'a [char], from: usize, to: usize) -> (part: &'a [char])
    requires
        from <= to <= chars@.len(),
    ensures
        part@ == chars@.subrange(from as int, to as int),
{
    slice_subrange(chars, from, to)
}

/// Whether `chars` starts with `prefix`.
pub fn chars_start_with(chars: &[char], prefix: &[char]) -> (yes: bool)
    ensures
        yes == is_prefix(prefix@, chars@),
{
    if prefix.len() > chars.len() {
        return false;
    }
    let head = slice_subrange(chars, 0, prefix.len());
    assert(head@ =~= chars@.take(prefix@.len() as int));
    same_chars(head, prefix)
}

// -------------------------------------------------------------- searching --

/// Where `c` first stands in `s`, or the length of `s` where it does not.
pub open spec fn find(s: Seq<char>, c: char) -> nat
    decreases s.len(),
{
    if s.len() == 0 || s[0] == c {
        0
    } else {
        1 + find(s.drop_first(), c)
    }
}

/// What `find` finds.
pub proof fn lemma_find(s: Seq<char>, c: char)
    ensures
        find(s, c) <= s.len(),
        find(s, c) < s.len() ==> s[find(s, c) as int] == c,
        forall|i: int| 0 <= i < find(s, c) ==> s[i] != c,
        (find(s, c) < s.len()) == s.contains(c),
    decreases s.len(),
{
    if s.len() != 0 && s[0] != c {
        lemma_find(s.drop_first(), c);
        assert forall|i: int| 0 <= i < find(s, c) implies s[i] != c by {
            if i > 0 {
                assert(s[i] == s.drop_first()[i - 1]);
            }
        }
        if s.contains(c) {
            let i = choose|i: int| 0 <= i < s.len() && s[i] == c;
            assert(s.drop_first()[i - 1] == c);
        }
        if find(s, c) < s.len() {
            assert(s[find(s, c) as int] == c);
        }
    }
}

/// The first place of `c` is the place with no `c` before it.
pub proof fn lemma_find_is(s: Seq<char>, c: char, at: int)
    requires
        0 <= at <= s.len(),
        at < s.len() ==> s[at] == c,
        forall|i: int| 0 <= i < at ==> s[i] != c,
    ensures
        find(s, c) == at,
{
    lemma_find(s, c);
}

/// Where `c` first stands in `chars`, or their number.
pub fn find_char(chars: &[char], c: char) -> (at: usize)
    ensures
        at == find(chars@, c),
        at <= chars@.len(),
{
    let mut i: usize = 0;
    while i < chars.len()
        invariant
            i <= chars@.len(),
            forall|j: int| 0 <= j < i ==> chars@[j] != c,
        decreases chars@.len() - i,
    {
        if chars[i] == c {
            proof {
                lemma_find_is(chars@, c, i as int);
            }
            return i;
        }
        i = i + 1;
    }
    proof {
        lemma_find_is(chars@, c, i as int);
    }
    i
}

/// Where `c` last stands in `s`, if anywhere.
pub open spec fn find_last(s: Seq<char>, c: char) -> Option<nat>
    decreases s.len(),
{
    if s.len() == 0 {
        None
    } else if s.last() == c {
        Some((s.len() - 1) as nat)
    } else {
        find_last(s.drop_last(), c)
    }
}

/// The last `c` is the one with no `c` behind it.
pub proof fn lemma_find_last(before: Seq<char>, c: char, behind: Seq<char>)
    requires
        !behind.contains(c),
    ensures
        find_last(before + seq![c] + behind, c) == Some(before.len()),
    decreases behind.len(),
{
    let s = before + seq![c] + behind;
    if behind.len() > 0 {
        let shorter = behind.drop_last();
        assert forall|i: int| 0 <= i < shorter.len() implies shorter[i] != c by {
            assert(behind.contains(behind[i]));
        }
        assert(behind.contains(behind.last()));
        lemma_find_last(before, c, shorter);
        assert(s.drop_last() =~= before + seq![c] + shorter);
    }
}

/// Where `c` last stands in `chars`.
pub fn find_last_char(chars: &[char], c: char) -> (at: Option<usize>)
    ensures
        match find_last(chars@, c) {
            Some(i) => at == Some(i as usize) && i < chars@.len() && chars@[i as int] == c,
            None => at is None,
        },
{
    let mut i: usize = chars.len();
    assert(chars@.take(i as int) =~= chars@);
    while i > 0
        invariant
            i <= chars@.len(),
            find_last(chars@, c) == find_last(chars@.take(i as int), c),
        decreases i,
    {
        assert(chars@.take(i as int).drop_last() =~= chars@.take(i - 1));
        i = i - 1;
        if chars[i] == c {
            return Some(i);
        }
    }
    None
}

// -------------------------------------------------------------- splitting --

/// The parts of `s` between the places where `sep` stands.
pub open spec fn split(s: Seq<char>, sep: char) -> Seq<Seq<char>>
    decreases s.len(),
{
    if find(s, sep) < s.len() {
        seq![s.take(find(s, sep) as int)] + split(s.skip(find(s, sep) as int + 1), sep)
    } else {
        seq![s]
    }
}

/// The views of a list of texts.
pub open spec fn views(parts: Seq<Vec<char>>) -> Seq<Seq<char>> {
    parts.map_values(|part: Vec<char>| part@)
}

/// A copy of `chars`.
pub fn copy_chars(chars: &[char]) -> (copy: Vec<char>)
    ensures
        copy@ == chars@,
{
    vstd::slice::slice_to_vec(chars)
}

/// The parts of `chars` between the separators.
pub fn split_chars(chars: &[char], sep: char) -> (parts: Vec<Vec<char>>)
    ensures
        views(parts@) == split(chars@, sep),
{
    let mut parts: Vec<Vec<char>> = Vec::new();
    let mut start: usize = 0;
    proof {
        assert(chars@.skip(0) =~= chars@);
        assert(views(parts@) + split(chars@, sep) =~= split(chars@, sep));
    }
    loop
        invariant
            start <= chars@.len(),
            views(parts@) + split(chars@.skip(start as int), sep) == split(chars@, sep),
        decreases chars@.len() - start,
    {
        let rest = slice_subrange(chars, start, chars.len());
        let ghost tail = chars@.skip(start as int);
        assert(rest@ =~= tail);
        let at: usize = find_char(rest, sep);
        let ghost before = parts@;
        proof {
            lemma_find(tail, sep);
        }
        if at == rest.len() {
            let part: Vec<char> = copy_chars(rest);
            parts.push(part);
            proof {
                assert(split(tail, sep) =~= seq![tail]);
                assert(views(parts@) =~= views(before) + seq![tail]);
            }
            return parts;
        }
        let part: Vec<char> = copy_chars(slice_subrange(rest, 0, at));
        parts.push(part);
        proof {
            let head = tail.take(at as int);
            assert(part@ =~= head);
            assert(tail.skip(at + 1) =~= chars@.skip(start + at + 1));
            assert(split(tail, sep) == seq![head] + split(tail.skip(at + 1), sep));
            assert(views(parts@) =~= views(before) + seq![head]);
            assert(views(parts@) + split(tail.skip(at + 1), sep) =~= views(before) + (seq![head]
                + split(tail.skip(at + 1), sep)));
        }
        start = start + at + 1;
    }
}

// ----------------------------------------------------------------- letters --

/// One character in ASCII lower case; others stay as they are.
pub open spec fn lower_char(c: char) -> char {
    if 'A' <= c <= 'Z' {
        ((c as u32) + 32) as char
    } else {
        c
    }
}

/// Lower case changes capital letters only, and into small letters.
pub proof fn lemma_lower_char(c: char)
    ensures
        lower_char(c) == c || ('A' <= c <= 'Z' && 'a' <= lower_char(c) <= 'z'),
{
    if 'A' <= c <= 'Z' {
        assert(lower_char(c) as u32 == c as u32 + 32);
    }
}

/// `s` in ASCII lower case.
pub open spec fn lower(s: Seq<char>) -> Seq<char> {
    s.map_values(|c: char| lower_char(c))
}

/// `c` in ASCII lower case.
pub fn to_lower_char(c: char) -> (r: char)
    ensures
        r == lower_char(c),
{
    if 'A' <= c && c <= 'Z' {
        ((c as u8) + 32) as char
    } else {
        c
    }
}

/// `chars` in ASCII lower case.
pub fn to_lower(chars: &[char]) -> (r: Vec<char>)
    ensures
        r@ == lower(chars@),
{
    let mut r: Vec<char> = Vec::new();
    let mut i: usize = 0;
    while i < chars.len()
        invariant
            i <= chars@.len(),
            r@ == lower(chars@.take(i as int)),
        decreases chars@.len() - i,
    {
        r.push(to_lower_char(chars[i]));
        i = i + 1;
        assert(r@ =~= lower(chars@.take(i as int)));
    }
    assert(chars@.take(i as int) =~= chars@);
    r
}

/// The characters with the Unicode property `White_Space`.
pub open spec fn is_space(c: char) -> bool {
    ||| 0x9 <= c as u32 <= 0xd
    ||| c as u32 == 0x20
    ||| c as u32 == 0x85
    ||| c as u32 == 0xa0
    ||| c as u32 == 0x1680
    ||| 0x2000 <= c as u32 <= 0x200a
    ||| c as u32 == 0x2028
    ||| c as u32 == 0x2029
    ||| c as u32 == 0x202f
    ||| c as u32 == 0x205f
    ||| c as u32 == 0x3000
}

/// Whether `c` is white space.
pub fn is_white_space(c: char) -> (yes: bool)
    ensures
        yes == is_space(c),
{
    let n: u32 = c as u32;
    (0x9 <= n && n <= 0xd) || n == 0x20 || n == 0x85 || n == 0xa0 || n == 0x1680 || (0x2000 <= n
        && n <= 0x200a) || n == 0x2028 || n == 0x2029 || n == 0x202f || n == 0x205f || n == 0x3000
}

/// `s` without the white space in front.
pub open spec fn trim_start(s: Seq<char>) -> Seq<char>
    decreases s.len(),
{
    if s.len() > 0 && is_space(s[0]) {
        trim_start(s.drop_first())
    } else {
        s
    }
}

/// `s` without the white space behind.
pub open spec fn trim_end(s: Seq<char>) -> Seq<char>
    decreases s.len(),
{
    if s.len() > 0 && is_space(s.last()) {
        trim_end(s.drop_last())
    } else {
        s
    }
}

/// `s` without the white space at both ends.
pub open spec fn trim(s: Seq<char>) -> Seq<char> {
    trim_end(trim_start(s))
}

/// `chars` without the white space in front.
pub fn trim_start_chars<'a>(chars: &'a [char]) -> (r: &'a [char])
    ensures
        r@ == trim_start(chars@),
        r@.len() <= chars@.len(),
{
    let mut i: usize = 0;
    assert(chars@.skip(0) =~= chars@);
    while i < chars.len() && is_white_space(chars[i])
        invariant
            i <= chars@.len(),
            trim_start(chars@.skip(i as int)) == trim_start(chars@),
        decreases chars@.len() - i,
    {
        assert(chars@.skip(i as int).drop_first() =~= chars@.skip(i + 1));
        i = i + 1;
    }
    assert(chars@.subrange(i as int, chars@.len() as int) =~= chars@.skip(i as int));
    slice_subrange(chars, i, chars.len())
}

/// `chars` without the white space behind.
pub fn trim_end_chars<'a>(chars: &'a [char]) -> (r: &'a [char])
    ensures
        r@ == trim_end(chars@),
        r@.len() <= chars@.len(),
{
    let mut i: usize = chars.len();
    assert(chars@.take(i as int) =~= chars@);
    while i > 0 && is_white_space(chars[i - 1])
        invariant
            i <= chars@.len(),
            trim_end(chars@.take(i as int)) == trim_end(chars@),
        decreases i,
    {
        assert(chars@.take(i as int).drop_last() =~= chars@.take(i - 1));
        i = i - 1;
    }
    assert(chars@.subrange(0, i as int) =~= chars@.take(i as int));
    slice_subrange(chars, 0, i)
}

/// `chars` without the white space at both ends.
pub fn trim_chars<'a>(chars: &'a [char]) -> (r: &'a [char])
    ensures
        r@ == trim(chars@),
        r@.len() <= chars@.len(),
{
    trim_end_chars(trim_start_chars(chars))
}

/// `s` without any `c` at its end.
pub open spec fn trim_end_of(s: Seq<char>, c: char) -> Seq<char>
    decreases s.len(),
{
    if s.len() > 0 && s.last() == c {
        trim_end_of(s.drop_last(), c)
    } else {
        s
    }
}

/// `chars` without any `c` at their end.
pub fn trim_end_of_chars<'a>(chars: &'a [char], c: char) -> (r: &'a [char])
    ensures
        r@ == trim_end_of(chars@, c),
{
    let mut i: usize = chars.len();
    assert(chars@.take(i as int) =~= chars@);
    while i > 0 && chars[i - 1] == c
        invariant
            i <= chars@.len(),
            trim_end_of(chars@.take(i as int), c) == trim_end_of(chars@, c),
        decreases i,
    {
        assert(chars@.take(i as int).drop_last() =~= chars@.take(i - 1));
        i = i - 1;
    }
    assert(chars@.subrange(0, i as int) =~= chars@.take(i as int));
    slice_subrange(chars, 0, i)
}

// ----------------------------------------------------------------- numbers --

/// The decimal digit for `d`, below ten.
pub open spec fn digit(d: nat) -> char {
    (48 + d) as char
}

/// `n` in decimal, without leading zeros.
pub open spec fn decimal(n: nat) -> Seq<char>
    decreases n,
{
    if n < 10 {
        seq![digit(n)]
    } else {
        decimal(n / 10).push(digit(n % 10))
    }
}

/// `i` in decimal, with a minus sign where it is below zero.
pub open spec fn integer_text(i: int) -> Seq<char> {
    if i < 0 {
        seq!['-'] + decimal((-i) as nat)
    } else {
        decimal(i as nat)
    }
}

/// Whether `c` is an ASCII decimal digit.
pub open spec fn is_digit(c: char) -> bool {
    '0' <= c <= '9'
}

/// Whether every character is an ASCII decimal digit.
pub open spec fn all_digits(s: Seq<char>) -> bool {
    forall|i: int| 0 <= i < s.len() ==> is_digit(#[trigger] s[i])
}

/// The number that decimal digits spell.
pub open spec fn digits_value(s: Seq<char>) -> nat
    decreases s.len(),
{
    if s.len() == 0 {
        0
    } else {
        digits_value(s.drop_last()) * 10 + (s.last() as nat - 48) as nat
    }
}

/// The number that `s` spells: digits, with at most a plus sign in front.
pub open spec fn number(s: Seq<char>) -> Option<nat> {
    let digits = if s.len() > 0 && s[0] == '+' {
        s.skip(1)
    } else {
        s
    };
    if digits.len() > 0 && all_digits(digits) {
        Some(digits_value(digits))
    } else {
        None
    }
}

/// The number that `s` spells, with a plus or a minus sign in front at most.
pub open spec fn signed_number(s: Seq<char>) -> Option<int> {
    if s.len() > 0 && s[0] == '-' {
        if s.len() > 1 && all_digits(s.skip(1)) {
            Some(-(digits_value(s.skip(1)) as int))
        } else {
            None
        }
    } else {
        match number(s) {
            Some(n) => Some(n as int),
            None => None,
        }
    }
}

/// The decimal digit for `d`.
pub fn to_digit(d: u8) -> (c: char)
    requires
        d < 10,
    ensures
        c == digit(d as nat),
{
    (48 + d) as char
}

/// Appends `n` in decimal.
pub fn push_decimal(out: &mut String, n: u128)
    ensures
        final(out)@ == old(out)@ + decimal(n as nat),
    decreases n,
{
    if n >= 10 {
        push_decimal(out, n / 10);
    }
    let ghost before = out@;
    out.push(to_digit((n % 10) as u8));
    assert(out@ =~= old(out)@ + decimal(n as nat));
}

/// `n` in decimal.
pub fn decimal_text(n: u128) -> (text: String)
    ensures
        text@ == decimal(n as nat),
{
    let mut text = String::new();
    push_decimal(&mut text, n);
    assert(text@ =~= decimal(n as nat));
    text
}

/// Appends `i` in decimal.
pub fn push_integer(out: &mut String, i: i128)
    ensures
        final(out)@ == old(out)@ + integer_text(i as int),
{
    if i == i128::MIN {
        out.push('-');
        push_decimal(out, 0x8000_0000_0000_0000_0000_0000_0000_0000);
        assert(out@ =~= old(out)@ + integer_text(i as int));
    } else if i < 0 {
        out.push('-');
        push_decimal(out, (-i) as u128);
        assert(out@ =~= old(out)@ + integer_text(i as int));
    } else {
        push_decimal(out, i as u128);
    }
}

/// `i` in decimal.
pub fn integer_to_text(i: i128) -> (text: String)
    ensures
        text@ == integer_text(i as int),
{
    let mut text = String::new();
    push_integer(&mut text, i);
    assert(text@ =~= integer_text(i as int));
    text
}

/// The number that all-decimal `chars` spell, if it is at most `max`.
pub fn parse_digits(chars: &[char], max: u64) -> (n: Option<u64>)
    ensures
        n == if chars@.len() > 0 && all_digits(chars@) && digits_value(chars@) <= max {
            Some(digits_value(chars@) as u64)
        } else {
            None::<u64>
        },
{
    if chars.len() == 0 {
        return None;
    }
    let mut value: u128 = 0;
    let mut i: usize = 0;
    let mut over: bool = false;
    while i < chars.len()
        invariant
            i <= chars@.len(),
            forall|j: int| 0 <= j < i ==> is_digit(#[trigger] chars@[j]),
            !over ==> value <= max && value == digits_value(chars@.take(i as int)),
            over ==> digits_value(chars@.take(i as int)) > max,
        decreases chars@.len() - i,
    {
        let c: char = chars[i];
        if c < '0' || c > '9' {
            assert(!is_digit(chars@[i as int]));
            return None;
        }
        proof {
            assert(chars@.take(i + 1).drop_last() =~= chars@.take(i as int));
        }
        if !over {
            value = value * 10 + (c as u8 - 48) as u128;
            if value > max as u128 {
                over = true;
            }
        }
        i = i + 1;
    }
    assert(chars@.take(i as int) =~= chars@);
    if over {
        None
    } else {
        Some(value as u64)
    }
}

/// The number that `chars` spell, if it is at most `max`: digits, with at most
/// a plus sign in front.
pub fn parse_number(chars: &[char], max: u64) -> (n: Option<u64>)
    ensures
        n == match number(chars@) {
            Some(value) => if value <= max {
                Some(value as u64)
            } else {
                None::<u64>
            },
            None => None::<u64>,
        },
{
    if chars.len() > 0 && chars[0] == '+' {
        let digits = slice_subrange(chars, 1, chars.len());
        assert(digits@ =~= chars@.skip(1));
        parse_digits(digits, max)
    } else {
        parse_digits(chars, max)
    }
}

/// The number that `chars` spell, if it fits an `i64`.
pub fn parse_signed(chars: &[char]) -> (n: Option<i64>)
    ensures
        n == match signed_number(chars@) {
            Some(value) => if i64::MIN <= value <= i64::MAX {
                Some(value as i64)
            } else {
                None::<i64>
            },
            None => None::<i64>,
        },
{
    if chars.len() > 0 && chars[0] == '-' {
        let digits = slice_subrange(chars, 1, chars.len());
        assert(digits@ =~= chars@.skip(1));
        match parse_digits(digits, 0x8000_0000_0000_0000) {
            Some(n) => Some((-(n as i128)) as i64),
            None => None,
        }
    } else {
        match parse_number(chars, 0x7fff_ffff_ffff_ffff) {
            Some(n) => Some(n as i64),
            None => None,
        }
    }
}

/// A number in decimal spells that number, and starts with a digit.
pub proof fn decimal_round_trip(n: nat)
    ensures
        number(decimal(n)) == Some(n),
        all_digits(decimal(n)),
        digits_value(decimal(n)) == n,
        decimal(n).len() > 0,
    decreases n,
{
    let s = decimal(n);
    let d = digit(n % 10);
    assert(d as nat == 48 + n % 10);
    if n < 10 {
        assert(s.drop_last() =~= Seq::<char>::empty());
        assert(s.last() == d);
        assert(digits_value(s.drop_last()) == 0);
    } else {
        decimal_round_trip(n / 10);
        assert(s.drop_last() =~= decimal(n / 10));
    }
    assert(is_digit(s[0]));
}

/// An integer in decimal spells that integer.
pub proof fn integer_round_trip(i: int)
    ensures
        signed_number(integer_text(i)) == Some(i),
{
    if i < 0 {
        decimal_round_trip((-i) as nat);
        assert(integer_text(i).skip(1) =~= decimal((-i) as nat));
    } else {
        decimal_round_trip(i as nat);
        assert(is_digit(decimal(i as nat)[0]));
    }
}

/// The lower-case hexadecimal digit for `d`, below sixteen.
pub open spec fn hex_digit(d: nat) -> char {
    if d < 10 {
        (48 + d) as char
    } else {
        (87 + d) as char
    }
}

/// The `len` low hexadecimal digits of `n`, most significant first.
pub open spec fn hex(n: nat, len: nat) -> Seq<char>
    decreases len,
{
    if len == 0 {
        Seq::empty()
    } else {
        hex(n / 16, (len - 1) as nat).push(hex_digit(n % 16))
    }
}

/// Appends the `len` low hexadecimal digits of `n`.
pub fn push_hex(out: &mut String, n: u128, len: usize)
    ensures
        final(out)@ == old(out)@ + hex(n as nat, len as nat),
    decreases len,
{
    if len > 0 {
        push_hex(out, n / 16, len - 1);
        let d: u8 = (n % 16) as u8;
        if d < 10 {
            out.push((48 + d) as char);
        } else {
            out.push((87 + d) as char);
        }
    }
    assert(out@ =~= old(out)@ + hex(n as nat, len as nat));
}

// -------------------------------------------------------------------- parts --

/// A text without the separator is its own only part.
pub proof fn lemma_split_none(s: Seq<char>, sep: char)
    requires
        !s.contains(sep),
    ensures
        split(s, sep) == seq![s],
{
    lemma_find(s, sep);
}

/// A first part without the separator is cut off at the separator behind it.
pub proof fn lemma_split_first(first: Seq<char>, sep: char, rest: Seq<char>)
    requires
        !first.contains(sep),
    ensures
        split(first + seq![sep] + rest, sep) == seq![first] + split(rest, sep),
{
    let s = first + seq![sep] + rest;
    assert(s[first.len() as int] == sep);
    assert forall|i: int| 0 <= i < first.len() implies s[i] != sep by {
        assert(first.contains(first[i]));
    }
    lemma_find_is(s, sep, first.len() as int);
    assert(s.take(first.len() as int) =~= first);
    assert(s.skip(first.len() as int + 1) =~= rest);
}

/// Trimming takes nothing in.
pub proof fn lemma_trim_contains(s: Seq<char>, c: char)
    ensures
        trim(s).contains(c) ==> s.contains(c),
{
    lemma_trim_start_contains(s, c);
    lemma_trim_end_contains(trim_start(s), c);
}

proof fn lemma_trim_start_contains(s: Seq<char>, c: char)
    ensures
        trim_start(s).contains(c) ==> s.contains(c),
    decreases s.len(),
{
    if s.len() > 0 && is_space(s[0]) {
        lemma_trim_start_contains(s.drop_first(), c);
        if s.drop_first().contains(c) {
            let i = choose|i: int| 0 <= i < s.drop_first().len() && s.drop_first()[i] == c;
            assert(s[i + 1] == c);
        }
    }
}

proof fn lemma_trim_end_contains(s: Seq<char>, c: char)
    ensures
        trim_end(s).contains(c) ==> s.contains(c),
    decreases s.len(),
{
    if s.len() > 0 && is_space(s.last()) {
        lemma_trim_end_contains(s.drop_last(), c);
        if s.drop_last().contains(c) {
            let i = choose|i: int| 0 <= i < s.drop_last().len() && s.drop_last()[i] == c;
            assert(s[i] == c);
        }
    }
}

/// A number in decimal holds nothing but digits and at most a minus sign.
pub proof fn lemma_integer_contains(i: int, c: char)
    requires
        !is_digit(c),
        c != '-',
    ensures
        !integer_text(i).contains(c),
{
    let n = if i < 0 {
        (-i) as nat
    } else {
        i as nat
    };
    decimal_round_trip(n);
    if integer_text(i).contains(c) {
        let k = choose|k: int| 0 <= k < integer_text(i).len() && integer_text(i)[k] == c;
        if i < 0 {
            assert(decimal(n)[k - 1] == c);
            assert(is_digit(decimal(n)[k - 1]));
        } else {
            assert(is_digit(decimal(n)[k]));
        }
    }
}

// ----------------------------------------------------------- lists of texts --

/// The views of a list of strings.
pub open spec fn texts(list: Seq<String>) -> Seq<Seq<char>> {
    list.map_values(|text: String| text@)
}

/// The view of a string that may be absent.
pub open spec fn opt_text(text: Option<String>) -> Option<Seq<char>> {
    match text {
        Some(text) => Some(text@),
        None => None,
    }
}

/// The views of a list of strings that may be absent.
pub open spec fn opt_texts(list: Option<Vec<String>>) -> Option<Seq<Seq<char>>> {
    match list {
        Some(list) => Some(texts(list@)),
        None => None,
    }
}

/// The same string once more, where there is one.
pub fn copy_opt(text: &Option<String>) -> (copy: Option<String>)
    ensures
        opt_text(copy) == opt_text(*text),
{
    match text {
        Some(text) => Some(text.clone()),
        None => None,
    }
}

/// The same strings once more.
pub fn copy_texts(list: &Vec<String>) -> (copy: Vec<String>)
    ensures
        texts(copy@) == texts(list@),
{
    let mut copy: Vec<String> = Vec::new();
    let mut i: usize = 0;
    while i < list.len()
        invariant
            i <= list@.len(),
            copy@.len() == i,
            forall|j: int| 0 <= j < i ==> (#[trigger] copy@[j])@ == list@[j]@,
        decreases list@.len() - i,
    {
        copy.push(list[i].clone());
        i = i + 1;
    }
    assert(texts(copy@) =~= texts(list@));
    copy
}

/// Whether two lists hold the same strings in the same order.
pub fn same_texts(a: &Vec<String>, b: &Vec<String>) -> (same: bool)
    ensures
        same == (texts(a@) == texts(b@)),
{
    assert(texts(a@).len() == a@.len() && texts(b@).len() == b@.len());
    if a.len() != b.len() {
        return false;
    }
    let mut i: usize = 0;
    while i < a.len()
        invariant
            i <= a@.len(),
            a@.len() == b@.len(),
            forall|j: int| 0 <= j < i ==> (#[trigger] a@[j])@ == b@[j]@,
        decreases a@.len() - i,
    {
        if !same_text(a[i].as_str(), b[i].as_str()) {
            assert(texts(a@)[i as int] != texts(b@)[i as int]);
            return false;
        }
        i = i + 1;
    }
    assert(texts(a@) =~= texts(b@));
    true
}

/// Whether `text` stands in the list.
pub fn lists_text(list: &Vec<String>, text: &str) -> (yes: bool)
    ensures
        yes == texts(list@).contains(text@),
{
    let mut i: usize = 0;
    while i < list.len()
        invariant
            i <= list@.len(),
            forall|j: int| 0 <= j < i ==> (#[trigger] list@[j])@ != text@,
        decreases list@.len() - i,
    {
        if same_text(list[i].as_str(), text) {
            assert(texts(list@)[i as int] == text@);
            return true;
        }
        i = i + 1;
    }
    false
}

/// Appends a string to a list.
pub fn push_text(list: &mut Vec<String>, text: String)
    ensures
        texts(final(list)@) == texts(old(list)@).push(text@),
{
    list.push(text);
    assert(texts(list@) =~= texts(old(list)@).push(text@));
}

/// Three pieces of text in a row.
pub fn glue3(a: &str, b: &str, c: &str) -> (text: String)
    ensures
        text@ == a@ + b@ + c@,
{
    let mut text = String::new();
    text.append(a);
    text.append(b);
    text.append(c);
    assert(text@ =~= a@ + b@ + c@);
    text
}

/// Five pieces of text in a row.
pub fn glue5(a: &str, b: &str, c: &str, d: &str, e: &str) -> (text: String)
    ensures
        text@ == a@ + b@ + c@ + d@ + e@,
{
    let mut text = glue3(a, b, c);
    text.append(d);
    text.append(e);
    text
}

/// Whether `a` comes before `b`, character by character.
pub open spec fn text_less(a: Seq<char>, b: Seq<char>) -> bool
    decreases a.len(),
{
    if b.len() == 0 {
        false
    } else if a.len() == 0 {
        true
    } else if a[0] != b[0] {
        a[0] < b[0]
    } else {
        text_less(a.drop_first(), b.drop_first())
    }
}

/// Of two different texts exactly one comes before the other.
pub proof fn lemma_text_order(a: Seq<char>, b: Seq<char>)
    ensures
        text_less(a, b) ==> a != b,
        text_less(a, b) ==> !text_less(b, a),
        !text_less(a, b) && !text_less(b, a) ==> a == b,
    decreases a.len(),
{
    if a.len() > 0 && b.len() > 0 && a[0] == b[0] {
        lemma_text_order(a.drop_first(), b.drop_first());
        if a.drop_first() == b.drop_first() {
            assert(a =~= seq![a[0]] + a.drop_first());
            assert(b =~= seq![b[0]] + b.drop_first());
        }
    } else if a.len() == 0 && b.len() == 0 {
        assert(a =~= b);
    }
}

/// The order of texts is transitive.
pub proof fn lemma_text_less_trans(a: Seq<char>, b: Seq<char>, c: Seq<char>)
    requires
        text_less(a, b),
        text_less(b, c),
    ensures
        text_less(a, c),
    decreases a.len(),
{
    if a.len() > 0 && a[0] == b[0] && b[0] == c[0] {
        lemma_text_less_trans(a.drop_first(), b.drop_first(), c.drop_first());
    }
}

/// Whether `a` comes before `b`, character by character.
pub fn comes_before(a: &str, b: &str) -> (yes: bool)
    ensures
        yes == text_less(a@, b@),
{
    let x = to_chars(a);
    let y = to_chars(b);
    let mut i: usize = 0;
    assert(x@.skip(0) =~= x@);
    assert(y@.skip(0) =~= y@);
    while i < x.len() && i < y.len()
        invariant
            i <= x@.len(),
            i <= y@.len(),
            x@ == a@,
            y@ == b@,
            text_less(a@, b@) == text_less(x@.skip(i as int), y@.skip(i as int)),
        decreases x@.len() - i,
    {
        if x[i] != y[i] {
            return x[i] < y[i];
        }
        assert(x@.skip(i as int).drop_first() =~= x@.skip(i + 1));
        assert(y@.skip(i as int).drop_first() =~= y@.skip(i + 1));
        i = i + 1;
    }
    i < y.len()
}

// -------------------------------------------------------------------- laws --

/// Each capital letter becomes the small letter at the same place of the
/// alphabet, every other character stays, and nothing is added or lost.
pub proof fn capitals_become_small(s: Seq<char>, i: int)
    requires
        0 <= i < s.len(),
    ensures
        lower(s).len() == s.len(),
        forall|k: int|
            0 <= k < 26 && s[i] == #[trigger] "ABCDEFGHIJKLMNOPQRSTUVWXYZ"@[k] ==> lower(s)[i]
                == "abcdefghijklmnopqrstuvwxyz"@[k],
        !"ABCDEFGHIJKLMNOPQRSTUVWXYZ"@.contains(s[i]) ==> lower(s)[i] == s[i],
{
    reveal_strlit("ABCDEFGHIJKLMNOPQRSTUVWXYZ");
    reveal_strlit("abcdefghijklmnopqrstuvwxyz");
    let capitals = "ABCDEFGHIJKLMNOPQRSTUVWXYZ"@;
    let small = "abcdefghijklmnopqrstuvwxyz"@;
    assert(capitals =~= seq![
        'A', 'B', 'C', 'D', 'E', 'F', 'G', 'H', 'I', 'J', 'K', 'L', 'M', 'N', 'O', 'P',
        'Q', 'R', 'S', 'T', 'U', 'V', 'W', 'X', 'Y', 'Z',
    ]);
    assert(small =~= seq![
        'a', 'b', 'c', 'd', 'e', 'f', 'g', 'h', 'i', 'j', 'k', 'l', 'm', 'n', 'o', 'p',
        'q', 'r', 's', 't', 'u', 'v', 'w', 'x', 'y', 'z',
    ]);
    let c = s[i];
    assert forall|k: int| 0 <= k < 26 implies #[trigger] capitals[k] as u32 == 65 + k && small[k] as u32
        == 97 + k by {}
    if 'A' <= c <= 'Z' {
        let k = c as u32 as int - 65;
        assert(capitals[k] as u32 == c as u32);
        assert(capitals[k] == c);
        assert(lower_char(c) as u32 == c as u32 + 32);
        assert(small[k] as u32 == lower_char(c) as u32);
    }
    assert forall|k: int| 0 <= k < 26 && c == #[trigger] capitals[k] implies lower(s)[i]
        == small[k] by {
        assert(capitals[k] as u32 == 65 + k);
        assert(lower_char(c) as u32 == 97 + k);
        assert(small[k] as u32 == 97 + k);
    }
}

/// Trimming takes away white space and nothing else: what is left stands in the
/// text with white space on both sides, and neither begins nor ends with any.
pub proof fn trimming_takes_the_white_space(
    front: Seq<char>,
    middle: Seq<char>,
    back: Seq<char>,
)
    requires
        forall|i: int| 0 <= i < front.len() ==> is_space(#[trigger] front[i]),
        forall|i: int| 0 <= i < back.len() ==> is_space(#[trigger] back[i]),
        middle.len() > 0,
        !is_space(middle[0]),
        !is_space(middle.last()),
    ensures
        trim(front + middle + back) == middle,
        trim_start(front + middle + back) == middle + back,
        trim(front) == Seq::<char>::empty(),
{
    lemma_trim_front(front, middle + back);
    assert(front + middle + back =~= front + (middle + back));
    assert((middle + back)[0] == middle[0]);
    lemma_trim_back(middle, back);
    lemma_trim_front(front, Seq::empty());
    assert(front + Seq::<char>::empty() =~= front);
}

proof fn lemma_trim_front(front: Seq<char>, rest: Seq<char>)
    requires
        forall|i: int| 0 <= i < front.len() ==> is_space(#[trigger] front[i]),
    ensures
        trim_start(front + rest) == trim_start(rest),
    decreases front.len(),
{
    if front.len() > 0 {
        let less = front.drop_first();
        assert forall|i: int| 0 <= i < less.len() implies is_space(#[trigger] less[i]) by {
            assert(less[i] == front[i + 1]);
        }
        lemma_trim_front(less, rest);
        assert((front + rest)[0] == front[0]);
        assert((front + rest).drop_first() =~= less + rest);
    } else {
        assert(front + rest =~= rest);
    }
}

proof fn lemma_trim_back(middle: Seq<char>, back: Seq<char>)
    requires
        forall|i: int| 0 <= i < back.len() ==> is_space(#[trigger] back[i]),
        middle.len() > 0,
        !is_space(middle.last()),
    ensures
        trim_end(middle + back) == middle,
    decreases back.len(),
{
    if back.len() > 0 {
        let less = back.drop_last();
        assert forall|i: int| 0 <= i < less.len() implies is_space(#[trigger] less[i]) by {
            assert(less[i] == back[i]);
        }
        lemma_trim_back(middle, less);
        assert((middle + back).last() == back.last());
        assert((middle + back).drop_last() =~= middle + less);
    } else {
        assert(middle + back =~= middle);
    }
}

/// White space is what Unicode calls so: these characters and no others.
pub proof fn white_space_is_listed(c: char)
    ensures
        is_space(c) == seq![
            '\t', '\n', '\u{b}', '\u{c}', '\r', ' ', '\u{85}', '\u{a0}', '\u{1680}', '\u{2000}',
            '\u{2001}', '\u{2002}', '\u{2003}', '\u{2004}', '\u{2005}', '\u{2006}', '\u{2007}',
            '\u{2008}', '\u{2009}', '\u{200a}', '\u{2028}', '\u{2029}', '\u{202f}', '\u{205f}',
            '\u{3000}',
        ].contains(c),
{
    let list = seq![
        '\t', '\n', '\u{b}', '\u{c}', '\r', ' ', '\u{85}', '\u{a0}', '\u{1680}', '\u{2000}',
        '\u{2001}', '\u{2002}', '\u{2003}', '\u{2004}', '\u{2005}', '\u{2006}', '\u{2007}',
        '\u{2008}', '\u{2009}', '\u{200a}', '\u{2028}', '\u{2029}', '\u{202f}', '\u{205f}',
        '\u{3000}',
    ];
    assert(list.len() == 25);
    assert(forall|i: int| 0 <= i < 25 ==> is_space(#[trigger] list[i]));
    if is_space(c) {
        let n = c as u32 as int;
        let k = if n <= 0xd {
            n - 9
        } else if n == 0x20 {
            5
        } else if n == 0x85 {
            6
        } else if n == 0xa0 {
            7
        } else if n == 0x1680 {
            8
        } else if n <= 0x200a {
            9 + (n - 0x2000)
        } else if n == 0x2028 {
            20
        } else if n == 0x2029 {
            21
        } else if n == 0x202f {
            22
        } else if n == 0x205f {
            23
        } else {
            24
        };
        assert(list[k] as u32 == n);
        assert(list[k] == c);
    }
}

/// A number in decimal: its digits are those of the number, the last one its
/// remainder by ten, and no zero stands in front but for zero itself.
pub proof fn decimals_have_their_digits(n: nat)
    ensures
        n < 10 ==> decimal(n) == seq!["0123456789"@[n as int]],
        n >= 10 ==> decimal(n) == decimal(n / 10) + seq!["0123456789"@[(n % 10) as int]],
        n > 0 ==> decimal(n)[0] != '0',
        decimal(n).len() > 0,
    decreases n,
{
    reveal_strlit("0123456789");
    let digits = "0123456789"@;
    assert(digits =~= seq!['0', '1', '2', '3', '4', '5', '6', '7', '8', '9']);
    assert forall|k: int| 0 <= k < 10 implies #[trigger] digits[k] == digit(k as nat) by {
        assert(digits[k] as u32 == 48 + k);
        assert(digit(k as nat) as u32 == 48 + k);
    }
    if n >= 10 {
        decimals_have_their_digits(n / 10);
        assert(decimal(n) =~= decimal(n / 10) + seq![digits[(n % 10) as int]]);
    } else if n > 0 {
        assert(digit(n) as u32 == 48 + n);
    }
}

/// A number is read digit by digit; a plus sign may stand in front, and nothing
/// but digits may follow.
pub proof fn numbers_are_read_by_digits(s: Seq<char>, d: int)
    requires
        0 <= d < 10,
    ensures
        number(seq!["0123456789"@[d]]) == Some(d as nat),
        s.len() > 0 && number(s) is Some && number(s.push("0123456789"@[d])) is Some ==> number(
            s.push("0123456789"@[d]),
        ) == Some((number(s)->Some_0 * 10 + d) as nat),
        number(s) is Some && s.len() > 0 ==> number(s.push("0123456789"@[d])) is Some,
        number(Seq::empty()) is None,
        number(seq!['+']) is None,
        s.len() > 0 && s[0] != '+' ==> number(seq!['+'] + s) == number(s),
        (exists|i: int| 0 < i < s.len() && !"0123456789"@.contains(#[trigger] s[i]))
            ==> number(s) is None,
        s.len() > 0 && s[0] != '+' && !"0123456789"@.contains(s[0]) ==> number(s) is None,
{
    reveal_strlit("0123456789");
    let list = "0123456789"@;
    assert(list =~= seq!['0', '1', '2', '3', '4', '5', '6', '7', '8', '9']);
    let c = list[d];
    assert(c as u32 == 48 + d);
    assert(is_digit(c) && c != '+');
    assert(seq![c].drop_last() =~= Seq::<char>::empty());
    assert(seq![c].last() == c);
    assert(digits_value(Seq::<char>::empty()) == 0);
    assert(digits_value(seq![c]) == digits_value(seq![c].drop_last()) * 10 + d);
    assert(all_digits(seq![c]));
    assert forall|x: char| is_digit(x) implies #[trigger] list.contains(x) by {
        assert(list[x as u32 as int - 48] as u32 == x as u32);
        assert(list[x as u32 as int - 48] == x);
    }
    assert forall|x: char| #[trigger] list.contains(x) implies is_digit(x) by {
        let k = choose|k: int| 0 <= k < list.len() && list[k] == x;
        assert(is_digit(list[k]));
    }
    let t = s.push(c);
    if s.len() > 0 {
        let from: int = if s[0] == '+' {
            1
        } else {
            0
        };
        let digits = s.skip(from);
        assert(t.skip(from) =~= digits.push(c));
        assert(s.skip(0) =~= s && t.skip(0) =~= t);
        assert(digits.push(c).drop_last() =~= digits);
        assert(digits_value(digits.push(c)) == digits_value(digits) * 10 + d);
        if number(s) is Some {
            assert(all_digits(digits));
            assert(all_digits(digits.push(c)));
        }
        assert((seq!['+'] + s).skip(1) =~= s);
        if exists|i: int| 0 < i < s.len() && !list.contains(#[trigger] s[i]) {
            let i = choose|i: int| 0 < i < s.len() && !list.contains(#[trigger] s[i]);
            assert(digits[i - from] == s[i]);
            assert(!is_digit(digits[i - from]));
        }
        if s[0] != '+' && !list.contains(s[0]) {
            assert(digits[0] == s[0]);
            assert(!is_digit(digits[0]));
        }
    }
    assert(seq!['+'].skip(1) =~= Seq::<char>::empty());
}

/// The first character in which two texts differ orders them, and a text comes
/// before every longer one that begins with it.
pub proof fn texts_are_ordered_by_their_characters(
    same: Seq<char>,
    a: char,
    b: char,
    x: Seq<char>,
    y: Seq<char>,
)
    ensures
        a as u32 != b as u32 ==> text_less(same + seq![a] + x, same + seq![b] + y) == ((a as u32) < (
        b as u32)),
        text_less(same, same + seq![b] + y),
        !text_less(same, same),
        !text_less(same + seq![b] + y, same),
    decreases same.len(),
{
    if same.len() > 0 {
        let less = same.drop_first();
        texts_are_ordered_by_their_characters(less, a, b, x, y);
        assert((same + seq![a] + x).drop_first() =~= less + seq![a] + x);
        assert((same + seq![b] + y).drop_first() =~= less + seq![b] + y);
        assert((same + seq![a] + x)[0] == same[0]);
        assert((same + seq![b] + y)[0] == same[0]);
    } else {
        assert((same + seq![a] + x)[0] == a);
        assert((same + seq![b] + y)[0] == b);
    }
}

/// Parts without the separator, put together with it, are those parts again.
pub proof fn splitting_undoes_joining(first: Seq<char>, sep: char, rest: Seq<char>)
    requires
        !first.contains(sep),
    ensures
        split(first, sep) == seq![first],
        split(first + seq![sep] + rest, sep) == seq![first] + split(rest, sep),
{
    lemma_split_none(first, sep);
    lemma_split_first(first, sep, rest);
}

} // verus!
