//! Human-readable durations in the config file (`10s`, `500ms`, `2m`).

use vstd::prelude::*;
use vstd::string::StringExecFns;

use crate::text::{
    all_digits, decimal, decimal_round_trip, digits_value, is_digit, is_space, is_white_space,
    parse_digits, push_chars, push_decimal, same_chars, to_chars, trim, trim_chars, trim_end,
    trim_start,
};
use crate::time::{max_nanos, Duration};

verus! {

/// A duration that is written `10s`, `1m30s` or as a plain number of seconds.
#[derive(Debug, Clone, Copy, PartialEq, Eq, PartialOrd, Ord, Structural)]
pub struct HumanDuration(pub Duration);

/// The text of a duration of so many milliseconds: the largest of minutes,
/// seconds and milliseconds that divides it.
pub open spec fn duration_text(ms: nat) -> Seq<char> {
    if ms == 0 {
        "0s"@
    } else if ms % 60_000 == 0 {
        decimal(ms / 60_000) + "m"@
    } else if ms % 1_000 == 0 {
        decimal(ms / 1_000) + "s"@
    } else {
        decimal(ms) + "ms"@
    }
}

/// A number of whole seconds.
pub open spec fn seconds(secs: u64) -> HumanDuration {
    HumanDuration(Duration { secs, nanos: 0 })
}

impl HumanDuration {
    /// A number of whole seconds.
    pub fn from_secs(secs: u64) -> (d: Self)
        ensures
            d.0.wf(),
            d.0@ == secs * 1_000_000_000,
            d == seconds(secs),
    {
        Self(Duration::from_secs(secs))
    }

    /// A number of milliseconds.
    pub fn from_millis(ms: u64) -> (d: Self)
        ensures
            d.0.wf(),
            d.0@ == ms * 1_000_000,
    {
        Self(Duration::from_millis(ms))
    }

    /// A number of whole seconds that must not be negative.
    pub fn from_signed_secs(secs: i64) -> (r: Result<Self, String>)
        ensures
            if secs >= 0 {
                r is Ok && r->Ok_0.0.wf() && r->Ok_0.0@ == secs * 1_000_000_000
            } else {
                r is Err && r->Err_0@ == "duration must not be negative"@
            },
    {
        if secs < 0 {
            return Err("duration must not be negative".to_owned());
        }
        Ok(Self::from_secs(secs as u64))
    }

    /// The span itself.
    pub fn get(self) -> (d: Duration)
        ensures
            d == self.0,
    {
        self.0
    }

    /// Whether the span is empty.
    pub fn is_zero(self) -> (yes: bool)
        ensures
            yes == (self.0@ == 0),
    {
        self.0.is_zero()
    }

    /// The compact text form.
    pub fn to_text(&self) -> (text: String)
        requires
            self.0.wf(),
        ensures
            text@ == duration_text(self.0@ / 1_000_000),
    {
        let ms: u128 = self.0.as_millis();
        let mut text = String::new();
        if ms == 0 {
            text.append("0s");
        } else if ms % 60_000 == 0 {
            push_decimal(&mut text, ms / 60_000);
            text.append("m");
        } else if ms % 1_000 == 0 {
            push_decimal(&mut text, ms / 1_000);
            text.append("s");
        } else {
            push_decimal(&mut text, ms);
            text.append("ms");
        }
        assert(text@ =~= duration_text(self.0@ / 1_000_000));
        text
    }
}

/// How long one of a unit is, in nanoseconds. A bare number counts seconds.
pub open spec fn unit_nanos(unit: Seq<char>) -> Option<nat> {
    if unit == "ms"@ {
        Some(1_000_000)
    } else if unit == "s"@ || unit.len() == 0 {
        Some(1_000_000_000)
    } else if unit == "m"@ {
        Some(60_000_000_000)
    } else if unit == "h"@ {
        Some(3_600_000_000_000)
    } else if unit == "d"@ {
        Some(86_400_000_000_000)
    } else {
        None
    }
}

/// The length of one component, or what is wrong with it.
pub open spec fn component(number: Seq<char>, unit: Seq<char>) -> Result<nat, Seq<char>> {
    if number.len() == 0 {
        Err("missing number before unit `"@ + unit + "`"@)
    } else if digits_value(number) > u64::MAX {
        Err("invalid number `"@ + number + "`"@)
    } else {
        match unit_nanos(unit) {
            Some(nanos) => Ok(digits_value(number) * nanos),
            None => Err("unknown unit `"@ + unit + "`, expected ms, s, m, h or d"@),
        }
    }
}

/// Whether `c` is an ASCII letter.
pub open spec fn is_letter(c: char) -> bool {
    'a' <= c <= 'z' || 'A' <= c <= 'Z'
}

/// How far a reading came: the sum of the components that were complete, the
/// one that is being read, and what stopped it, if anything did.
pub ghost struct Reading {
    pub number: Seq<char>,
    pub unit: Seq<char>,
    pub total: nat,
    pub saw_digit: bool,
    pub error: Option<Seq<char>>,
}

/// The reading after one more character. A digit behind a unit starts the next
/// component; white space is skipped.
pub open spec fn read_char(before: Reading, c: char) -> Reading {
    if before.error is Some {
        before
    } else if is_digit(c) {
        if before.unit.len() > 0 {
            match component(before.number, before.unit) {
                Ok(nanos) => Reading {
                    number: seq![c],
                    unit: Seq::empty(),
                    total: before.total + nanos,
                    saw_digit: true,
                    error: None,
                },
                Err(error) => Reading { error: Some(error), ..before },
            }
        } else {
            Reading { number: before.number.push(c), saw_digit: true, ..before }
        }
    } else if is_letter(c) {
        Reading { unit: before.unit.push(c), ..before }
    } else if is_space(c) {
        before
    } else {
        Reading { error: Some("unexpected character `"@ + seq![c] + "` in duration"@), ..before }
    }
}

/// The reading of all of `s`.
pub open spec fn read_all(s: Seq<char>) -> Reading
    decreases s.len(),
{
    if s.len() == 0 {
        Reading {
            number: Seq::empty(),
            unit: Seq::empty(),
            total: 0,
            saw_digit: false,
            error: None,
        }
    } else {
        read_char(read_all(s.drop_last()), s.last())
    }
}

/// The sum of all components that `s` spells before anything is wrong with it.
pub open spec fn spelled_nanos(s: Seq<char>) -> nat {
    let reading = read_all(trim(s));
    if reading.error is None && reading.saw_digit {
        match component(reading.number, reading.unit) {
            Ok(nanos) => reading.total + nanos,
            Err(_) => reading.total,
        }
    } else {
        reading.total
    }
}

/// What is wrong with `s` as a duration, if anything.
pub open spec fn duration_error(s: Seq<char>) -> Option<Seq<char>> {
    let input = trim(s);
    let reading = read_all(input);
    if input.len() == 0 {
        Some("empty duration"@)
    } else if reading.error is Some {
        reading.error
    } else if !reading.saw_digit {
        Some("`"@ + input + "` is not a duration"@)
    } else {
        match component(reading.number, reading.unit) {
            Ok(_) => None,
            Err(error) => Some(error),
        }
    }
}

/// Three pieces of text in a row.
fn three(a: &str, b: &[char], c: &str) -> (text: String)
    ensures
        text@ == a@ + b@ + c@,
{
    let mut text = String::new();
    text.append(a);
    push_chars(&mut text, b);
    text.append(c);
    assert(text@ =~= a@ + b@ + c@);
    text
}

fn unit_length(unit: &[char]) -> (nanos: Option<u64>)
    ensures
        match unit_nanos(unit@) {
            Some(value) => nanos == Some(value as u64) && value <= 86_400_000_000_000,
            None => nanos is None,
        },
{
    if same_chars(unit, to_chars("ms").as_slice()) {
        Some(1_000_000)
    } else if unit.len() == 0 || same_chars(unit, to_chars("s").as_slice()) {
        Some(1_000_000_000)
    } else if same_chars(unit, to_chars("m").as_slice()) {
        Some(60_000_000_000)
    } else if same_chars(unit, to_chars("h").as_slice()) {
        Some(3_600_000_000_000)
    } else if same_chars(unit, to_chars("d").as_slice()) {
        Some(86_400_000_000_000)
    } else {
        None
    }
}

/// The length of one component.
fn flush(number: &[char], unit: &[char]) -> (r: Result<u128, String>)
    requires
        all_digits(number@),
    ensures
        match component(number@, unit@) {
            Ok(nanos) => r is Ok && r->Ok_0 == nanos && nanos <= u64::MAX * 86_400_000_000_000,
            Err(error) => r is Err && r->Err_0@ == error,
        },
{
    if number.len() == 0 {
        return Err(three("missing number before unit `", unit, "`"));
    }
    let value: u64 = match parse_digits(number, 0xffff_ffff_ffff_ffff) {
        Some(value) => value,
        None => return Err(three("invalid number `", number, "`")),
    };
    match unit_length(unit) {
        Some(nanos) => {
            assert(value as nat * nanos as nat <= u64::MAX * 86_400_000_000_000) by (nonlinear_arith)
                requires
                    value <= u64::MAX,
                    nanos <= 86_400_000_000_000,
            ;
            Ok(value as u128 * nanos as u128)
        },
        None => Err(three("unknown unit `", unit, "`, expected ms, s, m, h or d")),
    }
}

proof fn lemma_total_grows(s: Seq<char>, n: int)
    requires
        0 <= n <= s.len(),
    ensures
        read_all(s.take(n)).total <= read_all(s).total,
        read_all(s.take(n)).error is Some ==> read_all(s) == read_all(s.take(n)),
    decreases s.len() - n,
{
    if n < s.len() {
        lemma_total_grows(s, n + 1);
        assert(s.take(n + 1).drop_last() =~= s.take(n));
    } else {
        assert(s.take(n) =~= s);
    }
}

/// Reads a duration. Nothing comes back where it would be longer than a
/// [`Duration`] can be.
pub fn parse_checked(input: &str) -> (r: Option<Result<Duration, String>>)
    ensures
        if spelled_nanos(input@) > max_nanos() {
            r is None
        } else {
            r is Some && match duration_error(input@) {
                None => r->Some_0 is Ok && r->Some_0->Ok_0.wf() && r->Some_0->Ok_0@
                    == spelled_nanos(input@),
                Some(error) => r->Some_0 is Err && r->Some_0->Err_0@ == error,
            }
        },
{
    let all = to_chars(input);
    let chars = trim_chars(all.as_slice());
    if chars.len() == 0 {
        return Some(Err("empty duration".to_owned()));
    }
    let mut number: Vec<char> = Vec::new();
    let mut unit: Vec<char> = Vec::new();
    let mut total: u128 = 0;
    let mut saw_digit: bool = false;
    let mut i: usize = 0;
    assert(chars@.take(0) =~= Seq::<char>::empty());
    assert(number@ =~= Seq::<char>::empty());
    while i < chars.len()
        invariant
            i <= chars@.len(),
            chars@ == trim(input@),
            chars@.len() > 0,
            read_all(chars@.take(i as int)) == (Reading {
                number: number@,
                unit: unit@,
                total: total as nat,
                saw_digit,
                error: None,
            }),
            all_digits(number@),
            total <= max_nanos(),
        decreases chars@.len() - i,
    {
        let c: char = chars[i];
        proof {
            assert(chars@.take(i + 1).drop_last() =~= chars@.take(i as int));
            assert(chars@.take(i + 1).last() == c);
            lemma_total_grows(chars@, i + 1);
        }
        if '0' <= c && c <= '9' {
            if unit.len() > 0 {
                match flush(number.as_slice(), unit.as_slice()) {
                    Ok(nanos) => {
                        total = total + nanos;
                        if total > 18_446_744_073_709_551_615_999_999_999 {
                            return None;
                        }
                    },
                    Err(error) => return Some(Err(error)),
                }
                number = Vec::new();
                unit = Vec::new();
                assert(unit@ =~= Seq::<char>::empty());
                assert(number@.push(c) =~= seq![c]);
            }
            number.push(c);
            saw_digit = true;
        } else if ('a' <= c && c <= 'z') || ('A' <= c && c <= 'Z') {
            unit.push(c);
        } else if !is_white_space(c) {
            let mut offender: Vec<char> = Vec::new();
            offender.push(c);
            assert(offender@ =~= seq![c]);
            return Some(
                Err(three("unexpected character `", offender.as_slice(), "` in duration")),
            );
        }
        i = i + 1;
    }
    assert(chars@.take(i as int) =~= chars@);
    if !saw_digit {
        return Some(Err(three("`", chars, "` is not a duration")));
    }
    match flush(number.as_slice(), unit.as_slice()) {
        Ok(nanos) => {
            total = total + nanos;
            if total > 18_446_744_073_709_551_615_999_999_999 {
                return None;
            }
            Some(Ok(Duration::from_nanos(total)))
        },
        Err(error) => Some(Err(error)),
    }
}

/// Reads a duration: numbers, each with a unit of `ms`, `s`, `m`, `h` or `d`
/// behind it, or a plain number of seconds.
pub fn parse(input: &str) -> (r: Result<Duration, String>)
    requires
        spelled_nanos(input@) <= max_nanos(),
    ensures
        match duration_error(input@) {
            None => r is Ok && r->Ok_0.wf() && r->Ok_0@ == spelled_nanos(input@),
            Some(error) => r is Err && r->Err_0@ == error,
        },
{
    match parse_checked(input) {
        Some(r) => r,
        None => Err(String::new()),
    }
}

// -------------------------------------------------------------------- laws --

proof fn lemma_read_digits(s: Seq<char>)
    requires
        all_digits(s),
    ensures
        read_all(s) == (Reading {
            number: s,
            unit: Seq::empty(),
            total: 0,
            saw_digit: s.len() > 0,
            error: None,
        }),
    decreases s.len(),
{
    if s.len() > 0 {
        assert forall|i: int| 0 <= i < s.drop_last().len() implies is_digit(
            #[trigger] s.drop_last()[i],
        ) by {
            assert(is_digit(s[i]));
        }
        lemma_read_digits(s.drop_last());
        assert(is_digit(s[s.len() - 1]));
        assert(s.drop_last().push(s.last()) =~= s);
    } else {
        assert(s =~= Seq::<char>::empty());
    }
}

proof fn lemma_read_letters(digits: Seq<char>, letters: Seq<char>)
    requires
        all_digits(digits),
        digits.len() > 0,
        forall|i: int| 0 <= i < letters.len() ==> is_letter(#[trigger] letters[i]),
    ensures
        read_all(digits + letters) == (Reading {
            number: digits,
            unit: letters,
            total: 0,
            saw_digit: true,
            error: None,
        }),
    decreases letters.len(),
{
    let s = digits + letters;
    if letters.len() == 0 {
        lemma_read_digits(digits);
        assert(s =~= digits);
        assert(letters =~= Seq::<char>::empty());
    } else {
        lemma_read_letters(digits, letters.drop_last());
        assert(s.drop_last() =~= digits + letters.drop_last());
        assert(s.last() == letters[letters.len() - 1]);
        assert(is_letter(letters[letters.len() - 1]));
        assert(letters.drop_last().push(letters.last()) =~= letters);
    }
}

/// One number with a unit behind it spells that many of the unit.
pub proof fn number_with_unit(n: nat, unit: Seq<char>)
    requires
        n <= u64::MAX,
        unit_nanos(unit) is Some,
        forall|i: int| 0 <= i < unit.len() ==> is_letter(#[trigger] unit[i]),
    ensures
        duration_error(decimal(n) + unit) == None::<Seq<char>>,
        spelled_nanos(decimal(n) + unit) == n * unit_nanos(unit)->Some_0,
{
    let s = decimal(n) + unit;
    decimal_round_trip(n);
    lemma_read_letters(decimal(n), unit);
    assert(is_digit(decimal(n)[0]));
    assert(s[0] == decimal(n)[0]);
    assert(trim_start(s) == s);
    if unit.len() > 0 {
        assert(s.last() == unit[unit.len() - 1]);
        assert(is_letter(unit[unit.len() - 1]));
    } else {
        assert(s.last() == decimal(n)[decimal(n).len() - 1]);
        assert(is_digit(decimal(n)[decimal(n).len() - 1]));
    }
    assert(trim_end(s) == s);
}

/// The text of a duration of whole milliseconds is read back as that duration.
pub proof fn duration_round_trip(d: Duration)
    requires
        d.wf(),
        d@ % 1_000_000 == 0,
        d@ % 1_000_000_000 == 0 || d@ / 1_000_000 <= u64::MAX,
    ensures
        duration_error(duration_text(d@ / 1_000_000)) == None::<Seq<char>>,
        spelled_nanos(duration_text(d@ / 1_000_000)) == d@,
{
    let ms = d@ / 1_000_000;
    reveal_strlit("0s");
    reveal_strlit("ms");
    reveal_strlit("s");
    reveal_strlit("m");
    reveal_strlit("h");
    reveal_strlit("d");
    if ms == 0 {
        number_with_unit(0, "s"@);
        assert("0s"@ =~= decimal(0) + "s"@);
    } else if ms % 60_000 == 0 {
        assert("m"@ != "ms"@) by {
            assert("m"@.len() != "ms"@.len());
        }
        assert("m"@ != "s"@) by {
            assert("m"@[0] != "s"@[0]);
        }
        number_with_unit(ms / 60_000, "m"@);
    } else if ms % 1_000 == 0 {
        assert("s"@ != "ms"@) by {
            assert("s"@.len() != "ms"@.len());
        }
        number_with_unit(ms / 1_000, "s"@);
    } else {
        number_with_unit(ms, "ms"@);
    }
}

proof fn lemma_units()
    ensures
        unit_nanos("ms"@) == Some(1_000_000nat),
        unit_nanos("s"@) == Some(1_000_000_000nat),
        unit_nanos(Seq::empty()) == Some(1_000_000_000nat),
        unit_nanos("m"@) == Some(60_000_000_000nat),
        unit_nanos("h"@) == Some(3_600_000_000_000nat),
        unit_nanos("d"@) == Some(86_400_000_000_000nat),
{
    reveal_strlit("ms");
    reveal_strlit("s");
    reveal_strlit("m");
    reveal_strlit("h");
    reveal_strlit("d");
    assert("ms"@.len() == 2);
    assert("s"@[0] == 's' && "m"@[0] == 'm' && "h"@[0] == 'h' && "d"@[0] == 'd');
}

/// A number of milliseconds, seconds, minutes, hours or days lasts that long,
/// and a plain number counts seconds.
pub proof fn units_last_their_time(n: nat)
    requires
        n <= u64::MAX,
    ensures
        duration_error(decimal(n) + "ms"@) is None,
        spelled_nanos(decimal(n) + "ms"@) == n * 1_000_000,
        duration_error(decimal(n) + "s"@) is None,
        spelled_nanos(decimal(n) + "s"@) == n * 1_000_000_000,
        duration_error(decimal(n)) is None,
        spelled_nanos(decimal(n)) == n * 1_000_000_000,
        duration_error(decimal(n) + "m"@) is None,
        spelled_nanos(decimal(n) + "m"@) == n * 60_000_000_000,
        duration_error(decimal(n) + "h"@) is None,
        spelled_nanos(decimal(n) + "h"@) == n * 3_600_000_000_000,
        duration_error(decimal(n) + "d"@) is None,
        spelled_nanos(decimal(n) + "d"@) == n * 86_400_000_000_000,
{
    lemma_units();
    reveal_strlit("ms");
    reveal_strlit("s");
    reveal_strlit("m");
    reveal_strlit("h");
    reveal_strlit("d");
    number_with_unit(n, "ms"@);
    number_with_unit(n, "s"@);
    number_with_unit(n, "m"@);
    number_with_unit(n, "h"@);
    number_with_unit(n, "d"@);
    number_with_unit(n, Seq::empty());
    assert(decimal(n) + Seq::<char>::empty() =~= decimal(n));
}

/// No other word is a unit, a unit needs a number before it, and a number has to
/// fit.
pub proof fn other_units_are_refused(n: nat, unit: Seq<char>)
    requires
        unit.len() > 0,
        forall|i: int| 0 <= i < unit.len() ==> is_letter(#[trigger] unit[i]),
    ensures
        unit != "ms"@ && unit != "s"@ && unit != "m"@ && unit != "h"@ && unit != "d"@
            ==> duration_error(decimal(n) + unit) is Some,
        n > u64::MAX ==> duration_error(decimal(n) + unit) is Some,
        duration_error(unit) is Some,
        duration_error(Seq::empty()) == Some("empty duration"@),
{
    let s = decimal(n) + unit;
    decimal_round_trip(n);
    lemma_read_letters(decimal(n), unit);
    assert(is_digit(decimal(n)[0]));
    assert(s[0] == decimal(n)[0]);
    assert(trim_start(s) == s);
    assert(s.last() == unit[unit.len() - 1]);
    assert(is_letter(unit[unit.len() - 1]));
    assert(trim_end(s) == s);
    assert(is_letter(unit[0]));
    assert(trim_start(unit) == unit);
    assert(trim_end(unit) == unit);
    lemma_read_word(unit);
}

proof fn lemma_read_word(word: Seq<char>)
    requires
        forall|i: int| 0 <= i < word.len() ==> is_letter(#[trigger] word[i]),
    ensures
        read_all(word) == (Reading {
            number: Seq::empty(),
            unit: word,
            total: 0,
            saw_digit: false,
            error: None,
        }),
    decreases word.len(),
{
    if word.len() > 0 {
        lemma_read_word(word.drop_last());
        assert(is_letter(word[word.len() - 1]));
        assert(word.drop_last().push(word.last()) =~= word);
    } else {
        assert(word =~= Seq::<char>::empty());
    }
}

proof fn lemma_read_more(s: Seq<char>, digits: Seq<char>, letters: Seq<char>)
    requires
        read_all(s).error is None,
        read_all(s).unit.len() > 0,
        component(read_all(s).number, read_all(s).unit) is Ok,
        all_digits(digits),
        digits.len() > 0,
        forall|i: int| 0 <= i < letters.len() ==> is_letter(#[trigger] letters[i]),
    ensures
        read_all(s + digits + letters) == (Reading {
            number: digits,
            unit: letters,
            total: read_all(s).total + component(read_all(s).number, read_all(s).unit)->Ok_0,
            saw_digit: true,
            error: None,
        }),
    decreases digits.len() + letters.len(),
{
    let all = s + digits + letters;
    if letters.len() > 0 {
        let shorter = letters.drop_last();
        lemma_read_more(s, digits, shorter);
        assert(all.drop_last() =~= s + digits + shorter);
        assert(is_letter(letters[letters.len() - 1]));
        assert(shorter.push(letters.last()) =~= letters);
    } else {
        let shorter = digits.drop_last();
        assert(is_digit(digits[digits.len() - 1]));
        assert forall|i: int| 0 <= i < shorter.len() implies is_digit(#[trigger] shorter[i]) by {
            assert(is_digit(digits[i]));
        }
        assert(letters =~= Seq::<char>::empty());
        assert(all.drop_last() =~= s + shorter + letters);
        assert(shorter.push(digits.last()) =~= digits);
        if shorter.len() > 0 {
            lemma_read_more(s, shorter, letters);
        } else {
            assert(all.drop_last() =~= s);
            assert(digits =~= seq![digits.last()]);
        }
    }
}

proof fn lemma_last_is_unit(s: Seq<char>)
    requires
        s.len() > 0,
        is_letter(s.last()),
        read_all(s).error is None,
    ensures
        read_all(s).unit.len() > 0,
{
}

/// Components add up: whatever a duration spells that ends with a unit, one more
/// number and unit behind it last that much longer.
pub proof fn components_add_up(s: Seq<char>, n: nat, unit: Seq<char>)
    requires
        s.len() > 0,
        !is_space(s[0]),
        is_letter(s.last()),
        duration_error(s) is None,
        n <= u64::MAX,
        unit == "ms"@ || unit == "s"@ || unit == "m"@ || unit == "h"@ || unit == "d"@,
    ensures
        duration_error(s + decimal(n) + unit) is None,
        spelled_nanos(s + decimal(n) + unit) == spelled_nanos(s) + spelled_nanos(
            decimal(n) + unit,
        ),
{
    lemma_units();
    reveal_strlit("ms");
    reveal_strlit("s");
    reveal_strlit("m");
    reveal_strlit("h");
    reveal_strlit("d");
    assert forall|i: int| 0 <= i < unit.len() implies is_letter(#[trigger] unit[i]) by {}
    decimal_round_trip(n);
    number_with_unit(n, unit);
    assert(trim_start(s) == s && trim_end(s) == s);
    lemma_last_is_unit(s);
    lemma_read_more(s, decimal(n), unit);
    let all = s + decimal(n) + unit;
    assert(all[0] == s[0]);
    assert(all.last() == unit.last());
    assert(is_letter(unit[unit.len() - 1]));
    assert(trim_start(all) == all && trim_end(all) == all);
}

/// White space between the parts of a duration changes nothing.
pub proof fn blanks_are_passed_over(a: Seq<char>, blank: char, b: Seq<char>)
    requires
        is_space(blank),
        a.len() > 0,
        !is_space(a[0]),
        b.len() > 0,
        !is_space(b.last()),
    ensures
        spelled_nanos(a + seq![blank] + b) == spelled_nanos(a + b),
        (duration_error(a + seq![blank] + b) is None) == (duration_error(a + b) is None),
{
    lemma_read_blank(a, blank, b);
    let with = a + seq![blank] + b;
    let without = a + b;
    assert(with[0] == a[0] && without[0] == a[0]);
    assert(with.last() == b.last() && without.last() == b.last());
    assert(trim_start(with) == with && trim_end(with) == with);
    assert(trim_start(without) == without && trim_end(without) == without);
}

proof fn lemma_read_blank(a: Seq<char>, blank: char, b: Seq<char>)
    requires
        is_space(blank),
    ensures
        read_all(a + seq![blank] + b) == read_all(a + b),
    decreases b.len(),
{
    let with = a + seq![blank] + b;
    if b.len() > 0 {
        lemma_read_blank(a, blank, b.drop_last());
        assert(with.drop_last() =~= a + seq![blank] + b.drop_last());
        assert((a + b).drop_last() =~= a + b.drop_last());
    } else {
        assert(with.drop_last() =~= a);
        assert(a + b =~= a);
    }
}

/// Nothing but digits, letters and white space stands in a duration, and one
/// without a digit is none.
pub proof fn other_characters_are_refused(s: Seq<char>, i: int)
    requires
        0 <= i < s.len(),
        trim(s) == s,
    ensures
        !is_digit(s[i]) && !is_letter(s[i]) && !is_space(s[i]) ==> duration_error(s) is Some,
        (forall|k: int| 0 <= k < s.len() ==> !is_digit(#[trigger] s[k])) ==> duration_error(s)
            is Some,
{
    if !is_digit(s[i]) && !is_letter(s[i]) && !is_space(s[i]) {
        assert(s.take(i + 1).drop_last() =~= s.take(i));
        assert(s.take(i + 1).last() == s[i]);
        lemma_total_grows(s, i + 1);
    }
    if forall|k: int| 0 <= k < s.len() ==> !is_digit(#[trigger] s[k]) {
        lemma_saw_no_digit(s);
    }
}

proof fn lemma_saw_no_digit(s: Seq<char>)
    requires
        forall|k: int| 0 <= k < s.len() ==> !is_digit(#[trigger] s[k]),
    ensures
        !read_all(s).saw_digit,
    decreases s.len(),
{
    if s.len() > 0 {
        assert forall|k: int| 0 <= k < s.drop_last().len() implies !is_digit(
            #[trigger] s.drop_last()[k],
        ) by {
            assert(!is_digit(s[k]));
        }
        lemma_saw_no_digit(s.drop_last());
        assert(!is_digit(s[s.len() - 1]));
    }
}

/// Durations are written in whole minutes where they are some, else in whole
/// seconds where they are some, and else in milliseconds.
pub proof fn durations_are_written_in_the_largest_unit(n: nat)
    ensures
        duration_text(0) == "0s"@,
        n > 0 ==> duration_text(n * 60_000) == decimal(n) + "m"@,
        n % 60 != 0 ==> duration_text(n * 1_000) == decimal(n) + "s"@,
        n % 1_000 != 0 ==> duration_text(n) == decimal(n) + "ms"@,
{
}

} // verus!
