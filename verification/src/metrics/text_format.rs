//! The Prometheus text exposition format.

use vstd::prelude::*;
use vstd::string::StringExecFns;

use crate::text::{decimal, push_decimal, to_chars};

verus! {

/// A label value with backslashes, quotes and line breaks escaped.
pub open spec fn escaped(s: Seq<char>) -> Seq<char>
    decreases s.len(),
{
    if s.len() == 0 {
        Seq::empty()
    } else {
        escaped(s.drop_last()) + escaped_char(s.last())
    }
}

/// One character of a label value.
pub open spec fn escaped_char(c: char) -> Seq<char> {
    if c == '\\' {
        seq!['\\', '\\']
    } else if c == '"' {
        seq!['\\', '"']
    } else if c == '\n' {
        seq!['\\', 'n']
    } else {
        seq![c]
    }
}

/// Prometheus label values may not contain a raw backslash, quote or newline.
pub fn escape(value: &str) -> (out: String)
    ensures
        out@ == escaped(value@),
{
    let chars = to_chars(value);
    let mut out = String::new();
    let mut i: usize = 0;
    assert(chars@.take(0) =~= Seq::<char>::empty());
    while i < chars.len()
        invariant
            i <= chars@.len(),
            out@ == escaped(chars@.take(i as int)),
        decreases chars@.len() - i,
    {
        let c: char = chars[i];
        let ghost before = out@;
        if c == '\\' {
            out.push('\\');
            out.push('\\');
        } else if c == '"' {
            out.push('\\');
            out.push('"');
        } else if c == '\n' {
            out.push('\\');
            out.push('n');
        } else {
            out.push(c);
        }
        i = i + 1;
        proof {
            let more = chars@.take(i as int);
            assert(more.drop_last() =~= chars@.take(i - 1));
            assert(more.last() == c);
            assert(out@ =~= before + escaped_char(c));
        }
    }
    assert(chars@.take(i as int) =~= chars@);
    out
}

/// The two lines that introduce a metric family.
pub open spec fn header_text(name: Seq<char>, help: Seq<char>, kind: Seq<char>) -> Seq<char> {
    "# HELP "@ + name + " "@ + help + "\n# TYPE "@ + name + " "@ + kind + "\n"@
}

/// A metric family of one value.
pub open spec fn single_text(
    name: Seq<char>,
    help: Seq<char>,
    kind: Seq<char>,
    value: Seq<char>,
) -> Seq<char> {
    header_text(name, help, kind) + name + " "@ + value + "\n"@
}

/// The first `n` lines of a family that is split by one label.
pub open spec fn labelled_lines(
    name: Seq<char>,
    label: Seq<char>,
    values: Seq<(String, u64)>,
    n: nat,
) -> Seq<char>
    decreases n,
{
    if n == 0 || n > values.len() {
        Seq::empty()
    } else {
        labelled_lines(name, label, values, (n - 1) as nat) + name + "{"@ + label + "=\""@ + escaped(
            values[n - 1].0@,
        ) + "\"} "@ + decimal(values[n - 1].1 as nat) + "\n"@
    }
}

/// A family that is split by one label; nothing where it has no values.
pub open spec fn labelled_text(
    name: Seq<char>,
    help: Seq<char>,
    label: Seq<char>,
    values: Seq<(String, u64)>,
    kind: Seq<char>,
) -> Seq<char> {
    if values.len() == 0 {
        Seq::empty()
    } else {
        header_text(name, help, kind) + labelled_lines(name, label, values, values.len())
    }
}

/// The first `n` labels of a sample.
pub open spec fn label_list(labels: Seq<(&str, &str)>, n: nat) -> Seq<char>
    decreases n,
{
    if n == 0 || n > labels.len() {
        Seq::empty()
    } else {
        label_list(labels, (n - 1) as nat) + (if n > 1 {
            ","@
        } else {
            Seq::empty()
        }) + labels[n - 1].0@ + "=\""@ + escaped(labels[n - 1].1@) + "\""@
    }
}

/// One sample of a family.
pub open spec fn sample_text(name: Seq<char>, labels: Seq<(&str, &str)>, value: Seq<char>) -> Seq<
    char,
> {
    name + "{"@ + label_list(labels, labels.len()) + "} "@ + value + "\n"@
}

/// Header for a family whose samples are written by the caller.
pub fn family_header(out: &mut String, name: &str, help: &str, kind: &str)
    ensures
        final(out)@ == old(out)@ + header_text(name@, help@, kind@),
{
    out.append("# HELP ");
    out.append(name);
    out.append(" ");
    out.append(help);
    out.append("\n# TYPE ");
    out.append(name);
    out.append(" ");
    out.append(kind);
    out.append("\n");
    assert(out@ =~= old(out)@ + header_text(name@, help@, kind@));
}

/// Writes a family of one value that is already text.
pub fn single(out: &mut String, name: &str, help: &str, kind: &str, value: &str)
    ensures
        final(out)@ == old(out)@ + single_text(name@, help@, kind@, value@),
{
    family_header(out, name, help, kind);
    out.append(name);
    out.append(" ");
    out.append(value);
    out.append("\n");
    assert(out@ =~= old(out)@ + single_text(name@, help@, kind@, value@));
}

/// Writes a counter.
pub fn counter(out: &mut String, name: &str, help: &str, value: u64)
    ensures
        final(out)@ == old(out)@ + single_text(name@, help@, "counter"@, decimal(value as nat)),
{
    let text = crate::text::decimal_text(value as u128);
    single(out, name, help, "counter", text.as_str());
}

/// Writes a metric family with one label.
pub fn labelled(
    out: &mut String,
    name: &str,
    help: &str,
    label: &str,
    values: &[(String, u64)],
    kind: &str,
)
    ensures
        final(out)@ == old(out)@ + labelled_text(name@, help@, label@, values@, kind@),
{
    if values.len() == 0 {
        assert(out@ =~= old(out)@ + labelled_text(name@, help@, label@, values@, kind@));
        return;
    }
    family_header(out, name, help, kind);
    let ghost start = out@;
    let mut i: usize = 0;
    assert(out@ =~= start + labelled_lines(name@, label@, values@, 0));
    while i < values.len()
        invariant
            i <= values@.len(),
            out@ == start + labelled_lines(name@, label@, values@, i as nat),
        decreases values@.len() - i,
    {
        out.append(name);
        out.append("{");
        out.append(label);
        out.append("=\"");
        out.append(escape(values[i].0.as_str()).as_str());
        out.append("\"} ");
        push_decimal(out, values[i].1 as u128);
        out.append("\n");
        i = i + 1;
        assert(out@ =~= start + labelled_lines(name@, label@, values@, i as nat));
    }
    assert(out@ =~= old(out)@ + labelled_text(name@, help@, label@, values@, kind@));
}

/// Writes one sample whose value is already text.
pub fn sample_line(out: &mut String, name: &str, labels: &[(&str, &str)], value: &str)
    ensures
        final(out)@ == old(out)@ + sample_text(name@, labels@, value@),
{
    out.append(name);
    out.append("{");
    let ghost start = out@;
    let mut i: usize = 0;
    assert(out@ =~= start + label_list(labels@, 0));
    while i < labels.len()
        invariant
            i <= labels@.len(),
            out@ == start + label_list(labels@, i as nat),
        decreases labels@.len() - i,
    {
        if i > 0 {
            out.append(",");
        }
        out.append(labels[i].0);
        out.append("=\"");
        out.append(escape(labels[i].1).as_str());
        out.append("\"");
        i = i + 1;
        assert(out@ =~= start + label_list(labels@, i as nat));
    }
    out.append("} ");
    out.append(value);
    out.append("\n");
    assert(out@ =~= old(out)@ + sample_text(name@, labels@, value@));
}

// -------------------------------------------------------------------- laws --

/// An escaped label value never breaks the line it stands in, and every quote in
/// it stands behind a backslash.
pub proof fn escaped_values_stay_in_place(s: Seq<char>)
    ensures
        !escaped(s).contains('\n'),
        forall|i: int|
            0 <= i < escaped(s).len() && #[trigger] escaped(s)[i] == '"' ==> i > 0 && escaped(s)[i
                - 1] == '\\',
    decreases s.len(),
{
    if s.len() > 0 {
        let before = escaped(s.drop_last());
        let last = escaped_char(s.last());
        escaped_values_stay_in_place(s.drop_last());
        assert forall|i: int| 0 <= i < escaped(s).len() implies #[trigger] escaped(s)[i] != '\n' by {
            if i < before.len() {
                assert(escaped(s)[i] == before[i]);
                assert(before.contains(before[i]));
            } else {
                assert(escaped(s)[i] == last[i - before.len()]);
            }
        }
        assert forall|i: int|
            0 <= i < escaped(s).len() && #[trigger] escaped(s)[i] == '"' implies i > 0 && escaped(
            s,
        )[i - 1] == '\\' by {
            if i < before.len() {
                assert(escaped(s)[i] == before[i]);
                assert(escaped(s)[i - 1] == before[i - 1]);
            } else {
                assert(escaped(s)[i] == last[i - before.len()]);
                assert(last[0] == escaped(s)[before.len() as int]);
            }
        }
    }
}

/// Label values that differ still differ when they are escaped.
pub proof fn escaping_loses_nothing(a: Seq<char>, b: Seq<char>)
    requires
        escaped(a) == escaped(b),
    ensures
        a == b,
{
    lemma_unescape(a);
    lemma_unescape(b);
}

/// What an escaped label value stood for.
pub open spec fn unescaped(s: Seq<char>) -> Seq<char>
    decreases s.len(),
{
    if s.len() == 0 {
        Seq::empty()
    } else if s[0] == '\\' && s.len() > 1 {
        seq![if s[1] == 'n' {
            '\n'
        } else {
            s[1]
        }] + unescaped(s.skip(2))
    } else {
        seq![s[0]] + unescaped(s.skip(1))
    }
}

/// Escaping goes over concatenation.
pub proof fn lemma_escaped_split(a: Seq<char>, b: Seq<char>)
    ensures
        escaped(a + b) == escaped(a) + escaped(b),
    decreases b.len(),
{
    if b.len() == 0 {
        assert(a + b =~= a);
        assert(escaped(a) + escaped(b) =~= escaped(a));
    } else {
        lemma_escaped_split(a, b.drop_last());
        assert((a + b).drop_last() =~= a + b.drop_last());
        assert(escaped(a + b) =~= escaped(a) + escaped(b));
    }
}

/// An escaped value reads back as what it stood for.
pub proof fn lemma_unescape(s: Seq<char>)
    ensures
        unescaped(escaped(s)) == s,
    decreases s.len(),
{
    if s.len() == 0 {
        assert(unescaped(escaped(s)) =~= s);
    } else {
        let first = seq![s[0]];
        let rest = s.skip(1);
        assert(s =~= first + rest);
        lemma_escaped_split(first, rest);
        lemma_unescape(rest);
        assert(first.drop_last() =~= Seq::<char>::empty());
        assert(escaped(first.drop_last()) =~= Seq::<char>::empty());
        assert(first.last() == s[0]);
        assert(escaped(first) =~= escaped_char(s[0]));
        let e = escaped(s);
        assert(e =~= escaped_char(s[0]) + escaped(rest));
        if s[0] == '\\' || s[0] == '"' || s[0] == '\n' {
            assert(e.skip(2) =~= escaped(rest));
        } else {
            assert(e.skip(1) =~= escaped(rest));
        }
        assert(unescaped(e) =~= s);
    }
}

/// Backslashes, quotes and line breaks are escaped the way Prometheus reads
/// them, and every other character stands for itself.
pub proof fn characters_are_escaped_one_by_one(s: Seq<char>, c: char)
    ensures
        escaped(Seq::empty()) == Seq::<char>::empty(),
        escaped(s.push('\\')) == escaped(s) + seq!['\\', '\\'],
        escaped(s.push('"')) == escaped(s) + seq!['\\', '"'],
        escaped(s.push('\n')) == escaped(s) + seq!['\\', 'n'],
        c != '\\' && c != '"' && c != '\n' ==> escaped(s.push(c)) == escaped(s).push(c),
{
    assert(s.push('\\').drop_last() =~= s);
    assert(s.push('"').drop_last() =~= s);
    assert(s.push('\n').drop_last() =~= s);
    assert(s.push(c).drop_last() =~= s);
    if c != '\\' && c != '"' && c != '\n' {
        assert(escaped(s.push(c)) =~= escaped(s).push(c));
    }
}

/// A family is introduced by a line with its help and a line with its type, and
/// a single value follows on a line of its own behind the name.
pub proof fn families_have_help_and_type(
    name: Seq<char>,
    help: Seq<char>,
    kind: Seq<char>,
    value: Seq<char>,
)
    ensures
        single_text(name, help, kind, value) == "# HELP "@ + name + " "@ + help + "\n# TYPE "@
            + name + " "@ + kind + "\n"@ + name + " "@ + value + "\n"@,
{
}

/// One more label of a sample stands behind a comma where others stand before
/// it, its value escaped and in quotes.
pub proof fn labels_follow_each_other(labels: Seq<(&str, &str)>, label: &str, value: &str)
    ensures
        ({
            let all = labels.push((label, value));
            let one = label@ + "=\""@ + escaped(value@) + "\""@;
            label_list(all, all.len()) == if labels.len() == 0 {
                one
            } else {
                label_list(labels, labels.len()) + ","@ + one
            }
        }),
{
    let all = labels.push((label, value));
    let one = label@ + "=\""@ + escaped(value@) + "\""@;
    lemma_first_labels(labels, (label, value), labels.len());
    if labels.len() == 0 {
        assert(label_list(all, 0) =~= Seq::<char>::empty());
        assert(label_list(all, 1) =~= one);
    } else {
        assert(label_list(all, all.len()) =~= label_list(labels, labels.len()) + ","@ + one);
    }
}

proof fn lemma_first_labels(labels: Seq<(&str, &str)>, label: (&str, &str), n: nat)
    requires
        n <= labels.len(),
    ensures
        label_list(labels.push(label), n) == label_list(labels, n),
    decreases n,
{
    if n > 0 {
        lemma_first_labels(labels, label, (n - 1) as nat);
    }
}

/// One more value of a split family is one more line: the name, the label with
/// the value in quotes, and the count.
pub proof fn values_follow_each_other(
    name: Seq<char>,
    label: Seq<char>,
    values: Seq<(String, u64)>,
    value: (String, u64),
)
    ensures
        ({
            let all = values.push(value);
            labelled_lines(name, label, all, all.len()) == labelled_lines(
                name,
                label,
                values,
                values.len(),
            ) + (name + "{"@ + label + "=\""@ + escaped(value.0@) + "\"} "@ + decimal(
                value.1 as nat,
            ) + "\n"@)
        }),
        labelled_lines(name, label, Seq::empty(), 0) == Seq::<char>::empty(),
{
    let all = values.push(value);
    lemma_first_values(name, label, values, value, values.len());
    assert(labelled_lines(name, label, all, all.len()) =~= labelled_lines(
        name,
        label,
        values,
        values.len(),
    ) + (name + "{"@ + label + "=\""@ + escaped(value.0@) + "\"} "@ + decimal(value.1 as nat)
        + "\n"@));
}

proof fn lemma_first_values(
    name: Seq<char>,
    label: Seq<char>,
    values: Seq<(String, u64)>,
    value: (String, u64),
    n: nat,
)
    requires
        n <= values.len(),
    ensures
        labelled_lines(name, label, values.push(value), n) == labelled_lines(name, label, values, n),
    decreases n,
{
    if n > 0 {
        lemma_first_values(name, label, values, value, (n - 1) as nat);
    }
}

} // verus!
