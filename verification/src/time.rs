//! Spans of time.

use vstd::arithmetic::power::pow;
use vstd::prelude::*;
use vstd::string::StringExecFns;

use crate::text::{all_digits, decimal, digit, digits_value, is_digit, push_decimal, to_digit};

verus! {

/// Nanoseconds in a second.
pub const NANOS_PER_SEC: u32 = 1_000_000_000;

/// A span of time: whole seconds and the nanoseconds beyond them.
#[derive(Debug, Clone, Copy, PartialEq, Eq, PartialOrd, Ord, Hash, Structural)]
pub struct Duration {
    pub secs: u64,
    pub nanos: u32,
}

/// The longest span, in nanoseconds.
pub open spec fn max_nanos() -> nat {
    (u64::MAX * 1_000_000_000 + 999_999_999) as nat
}

impl View for Duration {
    type V = nat;

    /// The span in nanoseconds.
    open spec fn view(&self) -> nat {
        (self.secs * 1_000_000_000 + self.nanos) as nat
    }
}

impl Duration {
    /// The nanoseconds do not make up a second.
    pub open spec fn wf(&self) -> bool {
        self.nanos < NANOS_PER_SEC
    }

    /// A number of whole seconds.
    pub fn from_secs(secs: u64) -> (d: Self)
        ensures
            d.wf(),
            d@ == secs * 1_000_000_000,
            d == (Duration { secs, nanos: 0 }),
    {
        Duration { secs, nanos: 0 }
    }

    /// A number of milliseconds.
    pub fn from_millis(ms: u64) -> (d: Self)
        ensures
            d.wf(),
            d@ == ms * 1_000_000,
    {
        Duration { secs: ms / 1_000, nanos: ((ms % 1_000) * 1_000_000) as u32 }
    }

    /// A number of nanoseconds.
    pub fn from_nanos(nanos: u128) -> (d: Self)
        requires
            nanos <= max_nanos(),
        ensures
            d.wf(),
            d@ == nanos,
    {
        Duration { secs: (nanos / 1_000_000_000) as u64, nanos: (nanos % 1_000_000_000) as u32 }
    }

    /// Whole milliseconds in this span.
    pub fn as_millis(&self) -> (ms: u128)
        requires
            self.wf(),
        ensures
            ms == self@ / 1_000_000,
    {
        self.secs as u128 * 1_000 + (self.nanos / 1_000_000) as u128
    }

    /// Whether the span is empty.
    pub fn is_zero(&self) -> (yes: bool)
        ensures
            yes == (self@ == 0),
    {
        self.secs == 0 && self.nanos == 0
    }

    /// Whether this span is at least as long as `other`.
    pub fn at_least(&self, other: &Duration) -> (yes: bool)
        requires
            self.wf(),
            other.wf(),
        ensures
            yes == (self@ >= other@),
    {
        self.secs > other.secs || (self.secs == other.secs && self.nanos >= other.nanos)
    }
}

/// The `len` low decimal digits of `n`.
pub open spec fn fixed_decimal(n: nat, len: nat) -> Seq<char>
    decreases len,
{
    if len == 0 {
        Seq::empty()
    } else {
        fixed_decimal(n / 10, (len - 1) as nat).push(digit(n % 10))
    }
}

/// A decimal fraction of `len` digits, without zeros at its end.
pub open spec fn fraction(n: nat, len: nat) -> Seq<char>
    decreases len,
{
    if n == 0 || len == 0 {
        Seq::empty()
    } else if n % 10 == 0 {
        fraction(n / 10, (len - 1) as nat)
    } else {
        seq!['.'] + fixed_decimal(n, len)
    }
}

/// A span in the largest of seconds, milliseconds, microseconds and nanoseconds
/// that it fills, with a fraction where it needs one.
pub open spec fn span_text(d: Duration) -> Seq<char> {
    if d.secs > 0 {
        decimal(d.secs as nat) + fraction(d.nanos as nat, 9) + "s"@
    } else if d.nanos >= 1_000_000 {
        decimal((d.nanos / 1_000_000) as nat) + fraction((d.nanos % 1_000_000) as nat, 6) + "ms"@
    } else if d.nanos >= 1_000 {
        decimal((d.nanos / 1_000) as nat) + fraction((d.nanos % 1_000) as nat, 3) + "µs"@
    } else {
        decimal(d.nanos as nat) + "ns"@
    }
}

fn push_fixed(out: &mut String, n: u32, len: usize)
    ensures
        final(out)@ == old(out)@ + fixed_decimal(n as nat, len as nat),
    decreases len,
{
    if len > 0 {
        push_fixed(out, n / 10, len - 1);
        out.push(to_digit((n % 10) as u8));
    }
    assert(out@ =~= old(out)@ + fixed_decimal(n as nat, len as nat));
}

fn push_fraction(out: &mut String, n: u32, len: usize)
    ensures
        final(out)@ == old(out)@ + fraction(n as nat, len as nat),
    decreases len,
{
    if n == 0 || len == 0 {
        assert(out@ =~= old(out)@ + fraction(n as nat, len as nat));
    } else if n % 10 == 0 {
        push_fraction(out, n / 10, len - 1);
    } else {
        out.push('.');
        push_fixed(out, n, len);
        assert(out@ =~= old(out)@ + fraction(n as nat, len as nat));
    }
}

impl Duration {
    /// The span as text, such as `2s`, `1.5s` or `750ms`.
    pub fn to_text(&self) -> (text: String)
        ensures
            text@ == span_text(*self),
    {
        let mut text = String::new();
        if self.secs > 0 {
            push_decimal(&mut text, self.secs as u128);
            push_fraction(&mut text, self.nanos, 9);
            text.append("s");
        } else if self.nanos >= 1_000_000 {
            push_decimal(&mut text, (self.nanos / 1_000_000) as u128);
            push_fraction(&mut text, self.nanos % 1_000_000, 6);
            text.append("ms");
        } else if self.nanos >= 1_000 {
            push_decimal(&mut text, (self.nanos / 1_000) as u128);
            push_fraction(&mut text, self.nanos % 1_000, 3);
            text.append("µs");
        } else {
            push_decimal(&mut text, self.nanos as u128);
            text.append("ns");
        }
        assert(text@ =~= span_text(*self));
        text
    }
}

// -------------------------------------------------------------------- laws --

/// The digits of a fraction spell it, as many as were asked for.
proof fn lemma_fixed_decimal(n: nat, len: nat)
    requires
        n < pow(10, len),
    ensures
        fixed_decimal(n, len).len() == len,
        all_digits(fixed_decimal(n, len)),
        digits_value(fixed_decimal(n, len)) == n,
    decreases len,
{
    reveal(pow);
    let s = fixed_decimal(n, len);
    if len > 0 {
        assert(n / 10 < pow(10, (len - 1) as nat)) by (nonlinear_arith)
            requires
                n < 10 * pow(10, (len - 1) as nat),
        ;
        lemma_fixed_decimal(n / 10, (len - 1) as nat);
        assert(s.drop_last() =~= fixed_decimal(n / 10, (len - 1) as nat));
        let d = digit(n % 10);
        assert(d as nat == 48 + n % 10);
        assert forall|i: int| 0 <= i < s.len() implies is_digit(#[trigger] s[i]) by {
            if i < len - 1 {
                assert(s[i] == s.drop_last()[i]);
                assert(is_digit(s.drop_last()[i]));
            }
        }
    } else {
        assert(s =~= Seq::<char>::empty());
    }
}

/// A fraction of `len` digits is a point and the digits that spell it, down to
/// the last that is not zero; of zero nothing is written.
pub proof fn fractions_are_spelled_by_their_digits(n: nat, len: nat)
    requires
        n < pow(10, len),
    ensures
        n == 0 ==> fraction(n, len) == Seq::<char>::empty(),
        n > 0 ==> {
            let s = fraction(n, len);
            &&& 2 <= s.len() <= len + 1
            &&& s[0] == '.'
            &&& all_digits(s.skip(1))
            &&& s.last() != '0'
            &&& digits_value(s.skip(1)) * pow(10, (len + 1 - s.len()) as nat) == n
        },
    decreases len,
{
    reveal(pow);
    if n > 0 {
        assert(len > 0);
        if n % 10 == 0 {
            assert(n / 10 < pow(10, (len - 1) as nat)) by (nonlinear_arith)
                requires
                    n < 10 * pow(10, (len - 1) as nat),
            ;
            fractions_are_spelled_by_their_digits(n / 10, (len - 1) as nat);
            let s = fraction(n, len);
            let value = digits_value(s.skip(1)) as int;
            let rest = pow(10, (len - s.len()) as nat);
            assert(pow(10, (len + 1 - s.len()) as nat) == 10 * rest);
            assert(value * (10 * rest) == 10 * (value * rest)) by (nonlinear_arith);
        } else {
            lemma_fixed_decimal(n, len);
            let s = fraction(n, len);
            assert(s.skip(1) =~= fixed_decimal(n, len));
            assert(digit(n % 10) as nat == 48 + n % 10);
            assert(pow(10, 0) == 1);
        }
    }
}

/// A span is written in seconds from one second on, below that in milliseconds,
/// microseconds or nanoseconds: the whole ones, and the rest as a fraction.
pub proof fn spans_are_written_in_the_largest_unit(d: Duration)
    requires
        d.wf(),
    ensures
        d@ >= 1_000_000_000 ==> span_text(d) == decimal(d@ / 1_000_000_000) + fraction(
            d@ % 1_000_000_000,
            9,
        ) + "s"@,
        1_000_000 <= d@ < 1_000_000_000 ==> span_text(d) == decimal(d@ / 1_000_000) + fraction(
            d@ % 1_000_000,
            6,
        ) + "ms"@,
        1_000 <= d@ < 1_000_000 ==> span_text(d) == decimal(d@ / 1_000) + fraction(d@ % 1_000, 3)
            + "µs"@,
        d@ < 1_000 ==> span_text(d) == decimal(d@) + "ns"@,
{
}

} // verus!
