//! What an event changes in the metrics.

use vstd::prelude::*;

verus! {

/// By how much a metric changes.
#[derive(Debug, Clone, Copy, PartialEq, Eq, Structural)]
pub enum Amount {
    /// A counter that goes up by this much.
    Count(u64),
    /// A gauge that goes up by one.
    Up,
    /// A gauge that goes down by one.
    Down,
}

/// A change of one metric.
#[derive(Debug, PartialEq, Eq)]
pub struct Change {
    pub name: &'static str,
    /// Names and values of its labels.
    pub labels: Vec<(&'static str, String)>,
    pub amount: Amount,
}

/// A change as a value.
pub ghost struct ChangeValue {
    pub name: Seq<char>,
    pub labels: Seq<(Seq<char>, Seq<char>)>,
    pub amount: Amount,
}

/// Labels as values.
pub open spec fn label_values(labels: Seq<(&'static str, String)>) -> Seq<(Seq<char>, Seq<char>)> {
    labels.map_values(|label: (&'static str, String)| (label.0@, label.1@))
}

impl View for Change {
    type V = ChangeValue;

    open spec fn view(&self) -> ChangeValue {
        ChangeValue {
            name: self.name@,
            labels: label_values(self.labels@),
            amount: self.amount,
        }
    }
}

/// The values of a list of changes.
pub open spec fn change_values(changes: Seq<Change>) -> Seq<ChangeValue> {
    changes.map_values(|change: Change| change@)
}

/// A change of a metric without labels.
pub open spec fn plain_change(name: Seq<char>, amount: Amount) -> ChangeValue {
    ChangeValue { name, labels: Seq::empty(), amount }
}

/// A change of a metric with one label.
pub open spec fn labelled_change(
    name: Seq<char>,
    label: Seq<char>,
    value: Seq<char>,
    amount: Amount,
) -> ChangeValue {
    ChangeValue { name, labels: seq![(label, value)], amount }
}

/// Appends a change of a metric without labels.
pub(crate) fn push_plain(changes: &mut Vec<Change>, name: &'static str, amount: Amount)
    ensures
        change_values(final(changes)@) == change_values(old(changes)@).push(
            plain_change(name@, amount),
        ),
{
    let labels: Vec<(&'static str, String)> = Vec::new();
    assert(label_values(labels@) =~= Seq::<(Seq<char>, Seq<char>)>::empty());
    changes.push(Change { name, labels, amount });
    assert(change_values(changes@) =~= change_values(old(changes)@).push(
        plain_change(name@, amount),
    ));
}

/// Appends a change of a metric with one label.
pub(crate) fn push_labelled(
    changes: &mut Vec<Change>,
    name: &'static str,
    label: &'static str,
    value: &str,
    amount: Amount,
)
    ensures
        change_values(final(changes)@) == change_values(old(changes)@).push(
            labelled_change(name@, label@, value@, amount),
        ),
{
    let mut labels: Vec<(&'static str, String)> = Vec::new();
    labels.push((label, value.to_owned()));
    assert(label_values(labels@) =~= seq![(label@, value@)]);
    changes.push(Change { name, labels, amount });
    assert(change_values(changes@) =~= change_values(old(changes)@).push(
        labelled_change(name@, label@, value@, amount),
    ));
}

/// No changes.
pub(crate) fn no_changes() -> (changes: Vec<Change>)
    ensures
        change_values(changes@) == Seq::<ChangeValue>::empty(),
{
    let changes: Vec<Change> = Vec::new();
    assert(change_values(changes@) =~= Seq::<ChangeValue>::empty());
    changes
}

/// By how much a list of changes moves a gauge.
pub open spec fn gauge_moves(
    changes: Seq<ChangeValue>,
    name: Seq<char>,
    labels: Seq<(Seq<char>, Seq<char>)>,
) -> int
    decreases changes.len(),
{
    if changes.len() == 0 {
        0
    } else {
        let last = changes.last();
        gauge_moves(changes.drop_last(), name, labels) + if last.name == name && last.labels
            == labels {
            match last.amount {
                Amount::Count(_) => 0int,
                Amount::Up => 1,
                Amount::Down => -1,
            }
        } else {
            0
        }
    }
}

/// A step up moves its own gauge by one, a step down takes one back, and a count
/// moves none; a change of one gauge moves no other.
pub proof fn changes_move_their_own_gauge(
    changes: Seq<ChangeValue>,
    change: ChangeValue,
    name: Seq<char>,
    labels: Seq<(Seq<char>, Seq<char>)>,
)
    ensures
        gauge_moves(Seq::empty(), name, labels) == 0,
        change.name != name || change.labels != labels ==> gauge_moves(
            changes.push(change),
            name,
            labels,
        ) == gauge_moves(changes, name, labels),
        change.amount is Count ==> gauge_moves(changes.push(change), name, labels) == gauge_moves(
            changes,
            name,
            labels,
        ),
        change.name == name && change.labels == labels && change.amount is Up ==> gauge_moves(
            changes.push(change),
            name,
            labels,
        ) == gauge_moves(changes, name, labels) + 1,
        change.name == name && change.labels == labels && change.amount is Down ==> gauge_moves(
            changes.push(change),
            name,
            labels,
        ) == gauge_moves(changes, name, labels) - 1,
{
    assert(changes.push(change).drop_last() =~= changes);
}

} // verus!
