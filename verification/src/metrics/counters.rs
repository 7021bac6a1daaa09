//! Everything the gateway counts.

use vstd::prelude::*;
use vstd::string::StringExecFns;

use crate::metrics::text_format::{counter, labelled, single, single_text};
use crate::text::{
    comes_before, decimal, decimal_text, lemma_text_less_trans, lemma_text_order, same_text,
    text_less,
};

verus! {

/// A sum that starts over at zero behind the largest number.
pub open spec fn wrapped_sum(a: u64, b: u64) -> u64 {
    if a + b > u64::MAX {
        (a + b - 0x1_0000_0000_0000_0000) as u64
    } else {
        (a + b) as u64
    }
}

/// The sum of two numbers; behind the largest number comes zero.
pub(crate) fn wrapping_sum(a: u64, b: u64) -> (sum: u64)
    ensures
        sum == wrapped_sum(a, b),
{
    ((a as u128 + b as u128) % 0x1_0000_0000_0000_0000) as u64
}

/// One less; behind zero comes the largest number.
pub open spec fn one_less(n: u64) -> u64 {
    if n == 0 {
        u64::MAX
    } else {
        (n - 1) as u64
    }
}

/// The labels and counts of a list.
pub open spec fn entry_values(entries: Seq<(String, u64)>) -> Seq<(Seq<char>, u64)> {
    entries.map_values(|entry: (String, u64)| (entry.0@, entry.1))
}

/// Labels come in strictly ascending order, so none occurs twice.
pub open spec fn ordered(entries: Seq<(Seq<char>, u64)>) -> bool {
    forall|i: int, j: int| 0 <= i < j < entries.len() ==> text_less(entries[i].0, entries[j].0)
}

/// Whether a label has been counted.
pub open spec fn has_label(entries: Seq<(Seq<char>, u64)>, label: Seq<char>) -> bool {
    exists|i: int| 0 <= i < entries.len() && (#[trigger] entries[i]).0 == label
}

/// The count of a label; zero where it has not been counted.
pub open spec fn count_of(entries: Seq<(Seq<char>, u64)>, label: Seq<char>) -> u64
    decreases entries.len(),
{
    if entries.len() == 0 {
        0
    } else if entries.last().0 == label {
        entries.last().1
    } else {
        count_of(entries.drop_last(), label)
    }
}

/// Whether a label has been counted so much more, and no other label.
pub open spec fn counted_more(
    before: Seq<(Seq<char>, u64)>,
    after: Seq<(Seq<char>, u64)>,
    label: Seq<char>,
    amount: u64,
) -> bool {
    &&& forall|other: Seq<char>| #[trigger]
        count_of(after, other) == if other == label {
            wrapped_sum(count_of(before, other), amount)
        } else {
            count_of(before, other)
        }
    &&& forall|other: Seq<char>| #[trigger]
        has_label(after, other) == (has_label(before, other) || other == label)
}

/// The count of the entry that has the label.
proof fn lemma_count_at(entries: Seq<(Seq<char>, u64)>, label: Seq<char>, i: int)
    requires
        ordered(entries),
        0 <= i < entries.len(),
        entries[i].0 == label,
    ensures
        count_of(entries, label) == entries[i].1,
    decreases entries.len(),
{
    if i < entries.len() - 1 {
        lemma_text_order(entries[i].0, entries.last().0);
        assert(ordered(entries.drop_last()));
        assert(entries.drop_last()[i].0 == label);
        lemma_count_at(entries.drop_last(), label, i);
    }
}

proof fn lemma_count_absent(entries: Seq<(Seq<char>, u64)>, label: Seq<char>)
    requires
        !has_label(entries, label),
    ensures
        count_of(entries, label) == 0,
    decreases entries.len(),
{
    if entries.len() > 0 {
        assert(entries[entries.len() - 1].0 != label);
        assert forall|i: int| 0 <= i < entries.drop_last().len() implies (
        #[trigger] entries.drop_last()[i]).0 != label by {
            assert(entries[i].0 != label);
        }
        lemma_count_absent(entries.drop_last(), label);
    }
}

/// A counter split by one label value.
#[derive(Debug)]
pub struct LabelCounter {
    /// In the order of the labels.
    values: Vec<(String, u64)>,
}

impl View for LabelCounter {
    type V = Seq<(Seq<char>, u64)>;

    closed spec fn view(&self) -> Seq<(Seq<char>, u64)> {
        entry_values(self.values@)
    }
}

impl Default for LabelCounter {
    fn default() -> (counter: Self)
        ensures
            counter.wf(),
            counter@.len() == 0,
    {
        LabelCounter { values: Vec::new() }
    }
}

impl LabelCounter {
    /// The labels are ordered.
    pub open spec fn wf(&self) -> bool {
        ordered(self@)
    }

    /// Counts one more for a label.
    pub fn increment(&mut self, label: &str)
        requires
            old(self).wf(),
        ensures
            final(self).wf(),
            counted_more(old(self)@, final(self)@, label@, 1),
    {
        self.add(label, 1);
    }

    /// Adds to the count of a label.
    pub fn add(&mut self, label: &str, amount: u64)
        requires
            old(self).wf(),
        ensures
            final(self).wf(),
            counted_more(old(self)@, final(self)@, label@, amount),
    {
        let ghost before = self@;
        let mut i: usize = 0;
        while i < self.values.len() && comes_before(self.values[i].0.as_str(), label)
            invariant
                i <= self.values@.len(),
                self@ == before,
                *self == *old(self),
                before.len() == self.values@.len(),
                forall|j: int| 0 <= j < i ==> text_less((#[trigger] before[j]).0, label@),
            decreases self.values@.len() - i,
        {
            assert(before[i as int].0 == self.values@[i as int].0@);
            i = i + 1;
        }
        if i < self.values.len() && same_text(self.values[i].0.as_str(), label) {
            let sum: u64 = wrapping_sum(self.values[i].1, amount);
            let name: String = self.values[i].0.clone();
            assert(before[i as int] == (label@, self.values@[i as int].1));
            self.values.set(i, (name, sum));
            proof {
                let after = self@;
                assert(after =~= before.update(i as int, (label@, sum)));
                lemma_same_labels(before, after, i as int, label@, amount);
                assert forall|other: Seq<char>|
                    count_of(after, other) == if other == label@ {
                        wrapped_sum(count_of(before, other), amount)
                    } else {
                        count_of(before, other)
                    } by {
                    lemma_same_labels(before, after, i as int, other, amount);
                }
                assert forall|other: Seq<char>|
                    has_label(after, other) == (has_label(before, other) || other == label@) by {
                    if has_label(before, other) {
                        let k = choose|k: int|
                            0 <= k < before.len() && (#[trigger] before[k]).0 == other;
                        assert(after[k].0 == other);
                    }
                    if has_label(after, other) {
                        let k = choose|k: int|
                            0 <= k < after.len() && (#[trigger] after[k]).0 == other;
                        assert(before[k].0 == other);
                    }
                }
            }
            return;
        }
        self.values.insert(i, (label.to_owned(), amount));
        proof {
            let after = self@;
            assert(after =~= before.insert(i as int, (label@, amount)));
            lemma_inserted(before, after, i as int, label@, amount);
        }
    }

    /// The count of a label.
    pub fn get(&self, label: &str) -> (n: u64)
        requires
            self.wf(),
        ensures
            n == count_of(self@, label@),
    {
        let mut i: usize = 0;
        while i < self.values.len()
            invariant
                i <= self.values@.len(),
                self.wf(),
                self@.len() == self.values@.len(),
                forall|j: int| 0 <= j < i ==> (#[trigger] self@[j]).0 != label@,
            decreases self.values@.len() - i,
        {
            assert(self@[i as int] == (self.values@[i as int].0@, self.values@[i as int].1));
            if same_text(self.values[i].0.as_str(), label) {
                proof {
                    lemma_count_at(self@, label@, i as int);
                }
                return self.values[i].1;
            }
            i = i + 1;
        }
        proof {
            lemma_count_absent(self@, label@);
        }
        0
    }

    /// All labels with their counts, in the order of the labels.
    pub fn snapshot(&self) -> (entries: Vec<(String, u64)>)
        ensures
            entry_values(entries@) == self@,
    {
        let mut entries: Vec<(String, u64)> = Vec::new();
        let mut i: usize = 0;
        while i < self.values.len()
            invariant
                i <= self.values@.len(),
                entries@.len() == i,
                forall|j: int|
                    0 <= j < i ==> (#[trigger] entries@[j]).0@ == self.values@[j].0@ && entries@[j].1
                        == self.values@[j].1,
            decreases self.values@.len() - i,
        {
            entries.push((self.values[i].0.clone(), self.values[i].1));
            i = i + 1;
        }
        assert(entry_values(entries@) =~= self@);
        entries
    }
}

proof fn lemma_same_labels(
    before: Seq<(Seq<char>, u64)>,
    after: Seq<(Seq<char>, u64)>,
    i: int,
    other: Seq<char>,
    amount: u64,
)
    requires
        ordered(before),
        0 <= i < before.len(),
        after == before.update(i, (before[i].0, wrapped_sum(before[i].1, amount))),
    ensures
        ordered(after),
        count_of(after, other) == if other == before[i].0 {
            wrapped_sum(count_of(before, other), amount)
        } else {
            count_of(before, other)
        },
{
    assert forall|j: int, k: int| 0 <= j < k < after.len() implies text_less(
        after[j].0,
        after[k].0,
    ) by {
        assert(after[j].0 == before[j].0 && after[k].0 == before[k].0);
    }
    if has_label(before, other) {
        let k = choose|k: int| 0 <= k < before.len() && (#[trigger] before[k]).0 == other;
        lemma_count_at(before, other, k);
        assert(after[k].0 == other);
        lemma_count_at(after, other, k);
        if other == before[i].0 && k != i {
            lemma_text_order(before[i].0, before[k].0);
            lemma_text_order(before[k].0, before[i].0);
        }
    } else {
        lemma_count_absent(before, other);
        assert(!has_label(after, other)) by {
            if has_label(after, other) {
                let k = choose|k: int| 0 <= k < after.len() && (#[trigger] after[k]).0 == other;
                assert(before[k].0 == other);
            }
        }
        lemma_count_absent(after, other);
        assert(before[i].0 != other);
    }
}

proof fn lemma_inserted(
    before: Seq<(Seq<char>, u64)>,
    after: Seq<(Seq<char>, u64)>,
    i: int,
    label: Seq<char>,
    amount: u64,
)
    requires
        ordered(before),
        0 <= i <= before.len(),
        after == before.insert(i, (label, amount)),
        forall|j: int| 0 <= j < i ==> text_less((#[trigger] before[j]).0, label),
        i < before.len() ==> before[i].0 != label && !text_less(before[i].0, label),
    ensures
        ordered(after),
        forall|other: Seq<char>|
            count_of(after, other) == if other == label {
                wrapped_sum(count_of(before, other), amount)
            } else {
                count_of(before, other)
            },
        forall|other: Seq<char>|
            has_label(after, other) == (has_label(before, other) || other == label),
{
    if i < before.len() {
        lemma_text_order(before[i].0, label);
    }
    assert forall|j: int, k: int| 0 <= j < k < after.len() implies text_less(
        after[j].0,
        after[k].0,
    ) by {
        if k < i {
            assert(after[j] == before[j] && after[k] == before[k]);
        } else if k == i {
            assert(after[j] == before[j]);
        } else if j < i {
            assert(after[j] == before[j] && after[k] == before[k - 1]);
        } else if j == i {
            assert(after[k] == before[k - 1]);
            if k - 1 > i {
                lemma_text_less_trans(label, before[i].0, before[k - 1].0);
            }
        } else {
            assert(after[j] == before[j - 1] && after[k] == before[k - 1]);
        }
    }
    assert(!has_label(before, label)) by {
        if has_label(before, label) {
            let k = choose|k: int| 0 <= k < before.len() && (#[trigger] before[k]).0 == label;
            if k < i {
                lemma_text_order(before[k].0, label);
            } else if k > i {
                lemma_text_order(label, before[i].0);
                lemma_text_less_trans(label, before[i].0, before[k].0);
                lemma_text_order(label, before[k].0);
            }
        }
    }
    lemma_count_absent(before, label);
    assert(after[i] == (label, amount));
    lemma_count_at(after, label, i);
    assert forall|other: Seq<char>|
        has_label(after, other) == (has_label(before, other) || other == label) by {
        if has_label(before, other) {
            let k = choose|k: int| 0 <= k < before.len() && (#[trigger] before[k]).0 == other;
            let m = if k < i {
                k
            } else {
                k + 1
            };
            assert(after[m].0 == other);
        }
        if other == label {
            assert(after[i].0 == other);
        }
        if has_label(after, other) && other != label {
            let m = choose|m: int| 0 <= m < after.len() && (#[trigger] after[m]).0 == other;
            let k = if m < i {
                m
            } else {
                m - 1
            };
            assert(before[k].0 == other);
        }
    }
    assert forall|other: Seq<char>|
        count_of(after, other) == if other == label {
            wrapped_sum(count_of(before, other), amount)
        } else {
            count_of(before, other)
        } by {
        if other != label {
            if has_label(before, other) {
                let k = choose|k: int| 0 <= k < before.len() && (#[trigger] before[k]).0 == other;
                let m = if k < i {
                    k
                } else {
                    k + 1
                };
                assert(after[m] == before[k]);
                lemma_count_at(before, other, k);
                lemma_count_at(after, other, m);
            } else {
                assert(has_label(after, other) == (has_label(before, other) || other == label));
                lemma_count_absent(before, other);
                lemma_count_absent(after, other);
            }
        }
    }
}

/// Everything the gateway counts.
///
/// Gauges that can be derived from live state (active sessions, backend health)
/// are *not* stored here; they are read from the registry at scrape time, so
/// they can never drift out of sync with reality.
#[derive(Debug)]
pub struct Metrics {
    pub connections_total: u64,
    pub connections_active: u64,
    /// `reason` = rate_limited | per_ip_limit | global_limit | no_route |
    /// no_backend | backend_error | handshake_error | proxy_protocol
    pub connections_rejected: LabelCounter,
    /// `kind` from the protocol parser.
    pub handshake_errors: LabelCounter,
    /// `source` = gateway | backend | legacy
    pub status_requests: LabelCounter,
    pub login_attempts: u64,
    /// `backend` name.
    pub backend_connections: LabelCounter,
    /// `backend` name; the failure kind is folded in as `name:kind`.
    pub backend_failures: LabelCounter,
    /// `direction` = to_backend | to_client
    pub bytes: LabelCounter,
    pub sessions_completed: u64,
    pub session_seconds_total: u64,
}

/// The numbers that are counted, as values.
pub ghost struct MetricsValue {
    pub connections_total: u64,
    pub connections_active: u64,
    pub connections_rejected: Seq<(Seq<char>, u64)>,
    pub handshake_errors: Seq<(Seq<char>, u64)>,
    pub status_requests: Seq<(Seq<char>, u64)>,
    pub login_attempts: u64,
    pub backend_connections: Seq<(Seq<char>, u64)>,
    pub backend_failures: Seq<(Seq<char>, u64)>,
    pub bytes: Seq<(Seq<char>, u64)>,
    pub sessions_completed: u64,
    pub session_seconds_total: u64,
}

impl View for Metrics {
    type V = MetricsValue;

    open spec fn view(&self) -> MetricsValue {
        MetricsValue {
            connections_total: self.connections_total,
            connections_active: self.connections_active,
            connections_rejected: self.connections_rejected@,
            handshake_errors: self.handshake_errors@,
            status_requests: self.status_requests@,
            login_attempts: self.login_attempts,
            backend_connections: self.backend_connections@,
            backend_failures: self.backend_failures@,
            bytes: self.bytes@,
            sessions_completed: self.sessions_completed,
            session_seconds_total: self.session_seconds_total,
        }
    }
}

/// The lines of a family that is split by one label, over values.
pub open spec fn family_lines(
    name: Seq<char>,
    label: Seq<char>,
    values: Seq<(Seq<char>, u64)>,
    n: nat,
) -> Seq<char>
    decreases n,
{
    if n == 0 || n > values.len() {
        Seq::empty()
    } else {
        family_lines(name, label, values, (n - 1) as nat) + name + "{"@ + label + "=\""@
            + crate::metrics::text_format::escaped(values[n - 1].0) + "\"} "@ + decimal(
            values[n - 1].1 as nat,
        ) + "\n"@
    }
}

/// A counter family that is split by one label; left out where it is empty.
pub open spec fn family_text(
    name: Seq<char>,
    help: Seq<char>,
    label: Seq<char>,
    values: Seq<(Seq<char>, u64)>,
) -> Seq<char> {
    if values.len() == 0 {
        Seq::empty()
    } else {
        crate::metrics::text_format::header_text(name, help, "counter"@) + family_lines(
            name,
            label,
            values,
            values.len(),
        )
    }
}

proof fn lemma_family_lines(
    name: Seq<char>,
    label: Seq<char>,
    entries: Seq<(String, u64)>,
    n: nat,
)
    requires
        n <= entries.len(),
    ensures
        crate::metrics::text_format::labelled_lines(name, label, entries, n) == family_lines(
            name,
            label,
            entry_values(entries),
            n,
        ),
    decreases n,
{
    if n > 0 {
        lemma_family_lines(name, label, entries, (n - 1) as nat);
    }
}

/// The whole page, given the text of the gauge of open connections and what is
/// appended from live state.
pub open spec fn page(m: MetricsValue, active: Seq<char>, extra: Seq<char>) -> Seq<char> {
    single_text(
        "mc_gateway_connections_total"@,
        "Client connections accepted"@,
        "counter"@,
        decimal(m.connections_total as nat),
    ) + single_text(
        "mc_gateway_connections_active"@,
        "Client connections currently open"@,
        "gauge"@,
        active,
    ) + family_text(
        "mc_gateway_connections_rejected_total"@,
        "Connections refused before reaching a backend"@,
        "reason"@,
        m.connections_rejected,
    ) + family_text(
        "mc_gateway_handshake_errors_total"@,
        "Handshakes that could not be parsed"@,
        "kind"@,
        m.handshake_errors,
    ) + family_text(
        "mc_gateway_status_requests_total"@,
        "Server list pings answered"@,
        "source"@,
        m.status_requests,
    ) + single_text(
        "mc_gateway_login_attempts_total"@,
        "Handshakes in the login state"@,
        "counter"@,
        decimal(m.login_attempts as nat),
    ) + family_text(
        "mc_gateway_backend_connections_total"@,
        "Sessions opened towards each backend"@,
        "backend"@,
        m.backend_connections,
    ) + family_text(
        "mc_gateway_backend_failures_total"@,
        "Failed attempts to reach a backend"@,
        "backend"@,
        m.backend_failures,
    ) + family_text("mc_gateway_bytes_total"@, "Bytes proxied"@, "direction"@, m.bytes)
        + single_text(
        "mc_gateway_sessions_completed_total"@,
        "Proxied sessions that ended"@,
        "counter"@,
        decimal(m.sessions_completed as nat),
    ) + single_text(
        "mc_gateway_session_seconds_total"@,
        "Summed duration of completed sessions"@,
        "counter"@,
        decimal(m.session_seconds_total as nat),
    ) + extra
}

fn push_family(out: &mut String, name: &str, help: &str, label: &str, counts: &LabelCounter)
    ensures
        final(out)@ == old(out)@ + family_text(name@, help@, label@, counts@),
{
    let entries = counts.snapshot();
    labelled(out, name, help, label, entries.as_slice(), "counter");
    proof {
        lemma_family_lines(name@, label@, entries@, entries@.len());
        assert(entry_values(entries@).len() == entries@.len());
    }
}

impl Default for Metrics {
    fn default() -> (metrics: Self)
        ensures
            metrics.wf(),
            metrics@ == fresh_metrics(),
    {
        let metrics = Metrics {
            connections_total: 0,
            connections_active: 0,
            connections_rejected: LabelCounter::default(),
            handshake_errors: LabelCounter::default(),
            status_requests: LabelCounter::default(),
            login_attempts: 0,
            backend_connections: LabelCounter::default(),
            backend_failures: LabelCounter::default(),
            bytes: LabelCounter::default(),
            sessions_completed: 0,
            session_seconds_total: 0,
        };
        proof {
            let none = Seq::<(Seq<char>, u64)>::empty();
            assert(metrics.connections_rejected@ =~= none);
            assert(metrics.handshake_errors@ =~= none);
            assert(metrics.status_requests@ =~= none);
            assert(metrics.backend_connections@ =~= none);
            assert(metrics.backend_failures@ =~= none);
            assert(metrics.bytes@ =~= none);
        }
        metrics
    }
}

/// Nothing counted yet.
pub open spec fn fresh_metrics() -> MetricsValue {
    MetricsValue {
        connections_total: 0,
        connections_active: 0,
        connections_rejected: Seq::empty(),
        handshake_errors: Seq::empty(),
        status_requests: Seq::empty(),
        login_attempts: 0,
        backend_connections: Seq::empty(),
        backend_failures: Seq::empty(),
        bytes: Seq::empty(),
        sessions_completed: 0,
        session_seconds_total: 0,
    }
}

impl Metrics {
    /// The labels of every split counter are ordered.
    pub open spec fn wf(&self) -> bool {
        &&& self.connections_rejected.wf()
        &&& self.handshake_errors.wf()
        &&& self.status_requests.wf()
        &&& self.backend_connections.wf()
        &&& self.backend_failures.wf()
        &&& self.bytes.wf()
    }

    /// Nothing counted yet.
    pub fn new() -> (metrics: Self)
        ensures
            metrics.wf(),
            metrics@ == fresh_metrics(),
    {
        Self::default()
    }

    /// Counts a connection that was accepted.
    pub fn connection_opened(&mut self)
        ensures
            final(self)@ == (MetricsValue {
                connections_total: wrapped_sum(old(self)@.connections_total, 1),
                connections_active: wrapped_sum(old(self)@.connections_active, 1),
                ..old(self)@
            }),
            old(self).wf() ==> final(self).wf(),
    {
        self.connections_total = wrapping_sum(self.connections_total, 1);
        self.connections_active = wrapping_sum(self.connections_active, 1);
    }

    /// Counts a connection that ended.
    pub fn connection_closed(&mut self)
        ensures
            final(self)@ == (MetricsValue {
                connections_active: one_less(old(self)@.connections_active),
                ..old(self)@
            }),
            old(self).wf() ==> final(self).wf(),
    {
        self.connections_active = if self.connections_active == 0 {
            u64::MAX
        } else {
            self.connections_active - 1
        };
    }

    /// Counts a session that ended.
    pub fn session_finished(&mut self, seconds: u64)
        ensures
            final(self)@ == (MetricsValue {
                sessions_completed: wrapped_sum(old(self)@.sessions_completed, 1),
                session_seconds_total: wrapped_sum(old(self)@.session_seconds_total, seconds),
                ..old(self)@
            }),
            old(self).wf() ==> final(self).wf(),
    {
        self.sessions_completed = wrapping_sum(self.sessions_completed, 1);
        self.session_seconds_total = wrapping_sum(self.session_seconds_total, seconds);
    }

    /// Renders the whole registry in the Prometheus text exposition format, with
    /// the gauge of open connections already as text, and `extra` behind it.
    pub fn render_with(&self, active: &str, extra: &str) -> (out: String)
        ensures
            out@ == page(self@, active@, extra@),
    {
        let mut out = String::new();
        counter(
            &mut out,
            "mc_gateway_connections_total",
            "Client connections accepted",
            self.connections_total,
        );
        single(
            &mut out,
            "mc_gateway_connections_active",
            "Client connections currently open",
            "gauge",
            active,
        );
        push_family(
            &mut out,
            "mc_gateway_connections_rejected_total",
            "Connections refused before reaching a backend",
            "reason",
            &self.connections_rejected,
        );
        push_family(
            &mut out,
            "mc_gateway_handshake_errors_total",
            "Handshakes that could not be parsed",
            "kind",
            &self.handshake_errors,
        );
        push_family(
            &mut out,
            "mc_gateway_status_requests_total",
            "Server list pings answered",
            "source",
            &self.status_requests,
        );
        counter(
            &mut out,
            "mc_gateway_login_attempts_total",
            "Handshakes in the login state",
            self.login_attempts,
        );
        push_family(
            &mut out,
            "mc_gateway_backend_connections_total",
            "Sessions opened towards each backend",
            "backend",
            &self.backend_connections,
        );
        push_family(
            &mut out,
            "mc_gateway_backend_failures_total",
            "Failed attempts to reach a backend",
            "backend",
            &self.backend_failures,
        );
        push_family(
            &mut out,
            "mc_gateway_bytes_total",
            "Bytes proxied",
            "direction",
            &self.bytes,
        );
        counter(
            &mut out,
            "mc_gateway_sessions_completed_total",
            "Proxied sessions that ended",
            self.sessions_completed,
        );
        counter(
            &mut out,
            "mc_gateway_session_seconds_total",
            "Summed duration of completed sessions",
            self.session_seconds_total,
        );
        out.append(extra);
        assert(out@ =~= page(self@, active@, extra@));
        out
    }

    /// Renders the whole registry in the Prometheus text exposition format, with
    /// `extra` behind it. A gauge is a floating-point number to Prometheus; below
    /// ten to the fifteenth that is the number itself.
    pub fn render(&self, extra: Option<&str>) -> (out: String)
        requires
            self.connections_active < 1_000_000_000_000_000,
        ensures
            out@ == page(
                self@,
                decimal(self.connections_active as nat),
                match extra {
                    Some(extra) => extra@,
                    None => Seq::empty(),
                },
            ),
    {
        let active = decimal_text(self.connections_active as u128);
        match extra {
            Some(extra) => self.render_with(active.as_str(), extra),
            None => {
                proof {
                    reveal_strlit("");
                    assert(""@ =~= Seq::<char>::empty());
                }
                self.render_with(active.as_str(), "")
            },
        }
    }
}

/// A connection that was opened and closed leaves the gauge as it was.
pub proof fn closing_undoes_opening(active: u64)
    ensures
        one_less(wrapped_sum(active, 1)) == active,
{
}

/// Counting is the same whatever the order of the additions.
pub proof fn counts_add_up(a: u64, b: u64, c: u64)
    ensures
        wrapped_sum(wrapped_sum(a, b), c) == wrapped_sum(wrapped_sum(a, c), b),
{
}

/// Whether a part stands somewhere in a text.
#[verifier::opaque]
pub open spec fn stands_in(part: Seq<char>, text: Seq<char>) -> bool {
    exists|before: Seq<char>, behind: Seq<char>| text == #[trigger] (before + part + behind)
}

proof fn lemma_stands_in(before: Seq<char>, part: Seq<char>, behind: Seq<char>, text: Seq<char>)
    requires
        text == before + part + behind,
    ensures
        stands_in(part, text),
{
    reveal(stands_in);
}

proof fn lemma_joined_parts(a: Seq<char>, b: Seq<char>)
    ensures
        stands_in(a, a + b),
        stands_in(b, a + b),
{
    assert(a + b =~= Seq::<char>::empty() + a + b);
    assert(a + b =~= a + b + Seq::<char>::empty());
    lemma_stands_in(Seq::empty(), a, b, a + b);
    lemma_stands_in(a, b, Seq::empty(), a + b);
}

proof fn lemma_within(inner: Seq<char>, part: Seq<char>, text: Seq<char>)
    requires
        stands_in(inner, part),
        stands_in(part, text),
    ensures
        stands_in(inner, text),
{
    reveal(stands_in);
    let (a, b) = choose|a: Seq<char>, b: Seq<char>| part == #[trigger] (a + inner + b);
    let (c, d) = choose|c: Seq<char>, d: Seq<char>| text == #[trigger] (c + part + d);
    assert(text =~= (c + a) + inner + (b + d));
}

/// The line of a value behind its name.
pub open spec fn value_line(name: Seq<char>, value: Seq<char>) -> Seq<char> {
    name + " "@ + value + "\n"@
}

/// The line of a value behind its name and one label.
pub open spec fn labelled_line(
    name: Seq<char>,
    label: Seq<char>,
    value: Seq<char>,
    count: u64,
) -> Seq<char> {
    name + "{"@ + label + "=\""@ + crate::metrics::text_format::escaped(value) + "\"} "@ + decimal(
        count as nat,
    ) + "\n"@
}

proof fn lemma_single_line(name: Seq<char>, help: Seq<char>, kind: Seq<char>, value: Seq<char>)
    ensures
        stands_in(value_line(name, value), single_text(name, help, kind, value)),
{
    let header = crate::metrics::text_format::header_text(name, help, kind);
    let line = value_line(name, value);
    assert(single_text(name, help, kind, value) =~= header + line);
    lemma_joined_parts(header, line);
}

proof fn lemma_family_line(
    name: Seq<char>,
    label: Seq<char>,
    values: Seq<(Seq<char>, u64)>,
    n: nat,
    i: int,
)
    requires
        0 <= i < n <= values.len(),
    ensures
        stands_in(
            labelled_line(name, label, values[i].0, values[i].1),
            family_lines(name, label, values, n),
        ),
    decreases n,
{
    let before = family_lines(name, label, values, (n - 1) as nat);
    let last = labelled_line(name, label, values[n - 1].0, values[n - 1].1);
    let all = family_lines(name, label, values, n);
    assert(all =~= before + last);
    lemma_joined_parts(before, last);
    if i < n - 1 {
        lemma_family_line(name, label, values, (n - 1) as nat, i);
        lemma_within(labelled_line(name, label, values[i].0, values[i].1), before, all);
    }
}

proof fn lemma_family(
    name: Seq<char>,
    help: Seq<char>,
    label: Seq<char>,
    values: Seq<(Seq<char>, u64)>,
    i: int,
)
    requires
        0 <= i < values.len(),
    ensures
        stands_in(
            labelled_line(name, label, values[i].0, values[i].1),
            family_text(name, help, label, values),
        ),
{
    let header = crate::metrics::text_format::header_text(name, help, "counter"@);
    let lines = family_lines(name, label, values, values.len());
    lemma_family_line(name, label, values, values.len(), i);
    assert(family_text(name, help, label, values) == header + lines);
    lemma_joined_parts(header, lines);
    lemma_within(
        labelled_line(name, label, values[i].0, values[i].1),
        lines,
        family_text(name, help, label, values),
    );
}

proof fn lemma_parts(m: MetricsValue, active: Seq<char>, extra: Seq<char>)
    ensures
        stands_in(
            single_text(
                "mc_gateway_connections_total"@,
                "Client connections accepted"@,
                "counter"@,
                decimal(m.connections_total as nat),
            ),
            page(m, active, extra),
        ),
        stands_in(
            single_text(
                "mc_gateway_connections_active"@,
                "Client connections currently open"@,
                "gauge"@,
                active,
            ),
            page(m, active, extra),
        ),
        stands_in(
            family_text(
                "mc_gateway_connections_rejected_total"@,
                "Connections refused before reaching a backend"@,
                "reason"@,
                m.connections_rejected,
            ),
            page(m, active, extra),
        ),
        stands_in(
            family_text(
                "mc_gateway_handshake_errors_total"@,
                "Handshakes that could not be parsed"@,
                "kind"@,
                m.handshake_errors,
            ),
            page(m, active, extra),
        ),
        stands_in(
            family_text(
                "mc_gateway_status_requests_total"@,
                "Server list pings answered"@,
                "source"@,
                m.status_requests,
            ),
            page(m, active, extra),
        ),
        stands_in(
            single_text(
                "mc_gateway_login_attempts_total"@,
                "Handshakes in the login state"@,
                "counter"@,
                decimal(m.login_attempts as nat),
            ),
            page(m, active, extra),
        ),
        stands_in(
            family_text(
                "mc_gateway_backend_connections_total"@,
                "Sessions opened towards each backend"@,
                "backend"@,
                m.backend_connections,
            ),
            page(m, active, extra),
        ),
        stands_in(
            family_text(
                "mc_gateway_backend_failures_total"@,
                "Failed attempts to reach a backend"@,
                "backend"@,
                m.backend_failures,
            ),
            page(m, active, extra),
        ),
        stands_in(
            family_text(
                "mc_gateway_bytes_total"@,
                "Bytes proxied"@,
                "direction"@,
                m.bytes,
            ),
            page(m, active, extra),
        ),
        stands_in(
            single_text(
                "mc_gateway_sessions_completed_total"@,
                "Proxied sessions that ended"@,
                "counter"@,
                decimal(m.sessions_completed as nat),
            ),
            page(m, active, extra),
        ),
        stands_in(
            single_text(
                "mc_gateway_session_seconds_total"@,
                "Summed duration of completed sessions"@,
                "counter"@,
                decimal(m.session_seconds_total as nat),
            ),
            page(m, active, extra),
        ),
        stands_in(extra, page(m, active, extra)),
{
    let p0 = single_text(
        "mc_gateway_connections_total"@,
        "Client connections accepted"@,
        "counter"@,
        decimal(m.connections_total as nat),
    );
    let p1 = single_text(
        "mc_gateway_connections_active"@,
        "Client connections currently open"@,
        "gauge"@,
        active,
    );
    let p2 = family_text(
        "mc_gateway_connections_rejected_total"@,
        "Connections refused before reaching a backend"@,
        "reason"@,
        m.connections_rejected,
    );
    let p3 = family_text(
        "mc_gateway_handshake_errors_total"@,
        "Handshakes that could not be parsed"@,
        "kind"@,
        m.handshake_errors,
    );
    let p4 = family_text(
        "mc_gateway_status_requests_total"@,
        "Server list pings answered"@,
        "source"@,
        m.status_requests,
    );
    let p5 = single_text(
        "mc_gateway_login_attempts_total"@,
        "Handshakes in the login state"@,
        "counter"@,
        decimal(m.login_attempts as nat),
    );
    let p6 = family_text(
        "mc_gateway_backend_connections_total"@,
        "Sessions opened towards each backend"@,
        "backend"@,
        m.backend_connections,
    );
    let p7 = family_text(
        "mc_gateway_backend_failures_total"@,
        "Failed attempts to reach a backend"@,
        "backend"@,
        m.backend_failures,
    );
    let p8 = family_text(
        "mc_gateway_bytes_total"@,
        "Bytes proxied"@,
        "direction"@,
        m.bytes,
    );
    let p9 = single_text(
        "mc_gateway_sessions_completed_total"@,
        "Proxied sessions that ended"@,
        "counter"@,
        decimal(m.sessions_completed as nat),
    );
    let p10 = single_text(
        "mc_gateway_session_seconds_total"@,
        "Summed duration of completed sessions"@,
        "counter"@,
        decimal(m.session_seconds_total as nat),
    );
    let b1 = p0;
    let b2 = b1 + p1;
    let b3 = b2 + p2;
    let b4 = b3 + p3;
    let b5 = b4 + p4;
    let b6 = b5 + p5;
    let b7 = b6 + p6;
    let b8 = b7 + p7;
    let b9 = b8 + p8;
    let b10 = b9 + p9;
    let b11 = b10 + p10;
    let all = b11 + extra;
    assert(all == page(m, active, extra));
    lemma_joined_parts(b11, extra);
    lemma_joined_parts(b10, p10);
    lemma_within(p10, b11, all);
    lemma_within(b10, b11, all);
    lemma_joined_parts(b9, p9);
    lemma_within(p9, b10, all);
    lemma_within(b9, b10, all);
    lemma_joined_parts(b8, p8);
    lemma_within(p8, b9, all);
    lemma_within(b8, b9, all);
    lemma_joined_parts(b7, p7);
    lemma_within(p7, b8, all);
    lemma_within(b7, b8, all);
    lemma_joined_parts(b6, p6);
    lemma_within(p6, b7, all);
    lemma_within(b6, b7, all);
    lemma_joined_parts(b5, p5);
    lemma_within(p5, b6, all);
    lemma_within(b5, b6, all);
    lemma_joined_parts(b4, p4);
    lemma_within(p4, b5, all);
    lemma_within(b4, b5, all);
    lemma_joined_parts(b3, p3);
    lemma_within(p3, b4, all);
    lemma_within(b3, b4, all);
    lemma_joined_parts(b2, p2);
    lemma_within(p2, b3, all);
    lemma_within(b2, b3, all);
    lemma_joined_parts(b1, p1);
    lemma_within(p1, b2, all);
    lemma_within(b1, b2, all);
}

/// Every count stands on the page, on a line behind the name of its metric; the
/// gauge of open connections and what is appended stand there as they were
/// given.
pub proof fn the_page_shows_every_count(m: MetricsValue, active: Seq<char>, extra: Seq<char>)
    ensures
        stands_in(extra, page(m, active, extra)),
        stands_in(
            value_line("mc_gateway_connections_active"@, active),
            page(m, active, extra),
        ),
        stands_in(
            value_line("mc_gateway_connections_total"@, decimal(m.connections_total as nat)),
            page(m, active, extra),
        ),
        stands_in(
            value_line("mc_gateway_login_attempts_total"@, decimal(m.login_attempts as nat)),
            page(m, active, extra),
        ),
        stands_in(
            value_line("mc_gateway_sessions_completed_total"@, decimal(m.sessions_completed as nat)),
            page(m, active, extra),
        ),
        stands_in(
            value_line("mc_gateway_session_seconds_total"@, decimal(m.session_seconds_total as nat)),
            page(m, active, extra),
        ),
{
    lemma_parts(m, active, extra);
    let all = page(m, active, extra);
    lemma_single_line("mc_gateway_connections_total"@, "Client connections accepted"@, "counter"@, decimal(m.connections_total as nat));
    lemma_within(
        value_line("mc_gateway_connections_total"@, decimal(m.connections_total as nat)),
        single_text(
            "mc_gateway_connections_total"@,
            "Client connections accepted"@,
            "counter"@,
            decimal(m.connections_total as nat),
        ),
        all,
    );
    lemma_single_line("mc_gateway_connections_active"@, "Client connections currently open"@, "gauge"@, active);
    lemma_within(
        value_line("mc_gateway_connections_active"@, active),
        single_text(
            "mc_gateway_connections_active"@,
            "Client connections currently open"@,
            "gauge"@,
            active,
        ),
        all,
    );
    lemma_single_line("mc_gateway_login_attempts_total"@, "Handshakes in the login state"@, "counter"@, decimal(m.login_attempts as nat));
    lemma_within(
        value_line("mc_gateway_login_attempts_total"@, decimal(m.login_attempts as nat)),
        single_text(
            "mc_gateway_login_attempts_total"@,
            "Handshakes in the login state"@,
            "counter"@,
            decimal(m.login_attempts as nat),
        ),
        all,
    );
    lemma_single_line("mc_gateway_sessions_completed_total"@, "Proxied sessions that ended"@, "counter"@, decimal(m.sessions_completed as nat));
    lemma_within(
        value_line("mc_gateway_sessions_completed_total"@, decimal(m.sessions_completed as nat)),
        single_text(
            "mc_gateway_sessions_completed_total"@,
            "Proxied sessions that ended"@,
            "counter"@,
            decimal(m.sessions_completed as nat),
        ),
        all,
    );
    lemma_single_line("mc_gateway_session_seconds_total"@, "Summed duration of completed sessions"@, "counter"@, decimal(m.session_seconds_total as nat));
    lemma_within(
        value_line("mc_gateway_session_seconds_total"@, decimal(m.session_seconds_total as nat)),
        single_text(
            "mc_gateway_session_seconds_total"@,
            "Summed duration of completed sessions"@,
            "counter"@,
            decimal(m.session_seconds_total as nat),
        ),
        all,
    );
}

/// Every split count stands on the page, on a line behind the name of its metric
/// with its label.
pub proof fn the_page_shows_every_label(
    m: MetricsValue,
    active: Seq<char>,
    extra: Seq<char>,
    i: int,
)
    ensures
        0 <= i < m.connections_rejected.len() ==> stands_in(
            labelled_line("mc_gateway_connections_rejected_total"@, "reason"@, m.connections_rejected[i].0, m.connections_rejected[i].1),
            page(m, active, extra),
        ),
        0 <= i < m.handshake_errors.len() ==> stands_in(
            labelled_line("mc_gateway_handshake_errors_total"@, "kind"@, m.handshake_errors[i].0, m.handshake_errors[i].1),
            page(m, active, extra),
        ),
        0 <= i < m.status_requests.len() ==> stands_in(
            labelled_line("mc_gateway_status_requests_total"@, "source"@, m.status_requests[i].0, m.status_requests[i].1),
            page(m, active, extra),
        ),
        0 <= i < m.backend_connections.len() ==> stands_in(
            labelled_line("mc_gateway_backend_connections_total"@, "backend"@, m.backend_connections[i].0, m.backend_connections[i].1),
            page(m, active, extra),
        ),
        0 <= i < m.backend_failures.len() ==> stands_in(
            labelled_line("mc_gateway_backend_failures_total"@, "backend"@, m.backend_failures[i].0, m.backend_failures[i].1),
            page(m, active, extra),
        ),
        0 <= i < m.bytes.len() ==> stands_in(
            labelled_line("mc_gateway_bytes_total"@, "direction"@, m.bytes[i].0, m.bytes[i].1),
            page(m, active, extra),
        ),
{
    lemma_parts(m, active, extra);
    let all = page(m, active, extra);
    if 0 <= i < m.connections_rejected.len() {
        lemma_family("mc_gateway_connections_rejected_total"@, "Connections refused before reaching a backend"@, "reason"@, m.connections_rejected, i);
        lemma_within(
            labelled_line("mc_gateway_connections_rejected_total"@, "reason"@, m.connections_rejected[i].0, m.connections_rejected[i].1),
            family_text(
                "mc_gateway_connections_rejected_total"@,
                "Connections refused before reaching a backend"@,
                "reason"@,
                m.connections_rejected,
            ),
            all,
        );
    }
    if 0 <= i < m.handshake_errors.len() {
        lemma_family("mc_gateway_handshake_errors_total"@, "Handshakes that could not be parsed"@, "kind"@, m.handshake_errors, i);
        lemma_within(
            labelled_line("mc_gateway_handshake_errors_total"@, "kind"@, m.handshake_errors[i].0, m.handshake_errors[i].1),
            family_text(
                "mc_gateway_handshake_errors_total"@,
                "Handshakes that could not be parsed"@,
                "kind"@,
                m.handshake_errors,
            ),
            all,
        );
    }
    if 0 <= i < m.status_requests.len() {
        lemma_family("mc_gateway_status_requests_total"@, "Server list pings answered"@, "source"@, m.status_requests, i);
        lemma_within(
            labelled_line("mc_gateway_status_requests_total"@, "source"@, m.status_requests[i].0, m.status_requests[i].1),
            family_text(
                "mc_gateway_status_requests_total"@,
                "Server list pings answered"@,
                "source"@,
                m.status_requests,
            ),
            all,
        );
    }
    if 0 <= i < m.backend_connections.len() {
        lemma_family("mc_gateway_backend_connections_total"@, "Sessions opened towards each backend"@, "backend"@, m.backend_connections, i);
        lemma_within(
            labelled_line("mc_gateway_backend_connections_total"@, "backend"@, m.backend_connections[i].0, m.backend_connections[i].1),
            family_text(
                "mc_gateway_backend_connections_total"@,
                "Sessions opened towards each backend"@,
                "backend"@,
                m.backend_connections,
            ),
            all,
        );
    }
    if 0 <= i < m.backend_failures.len() {
        lemma_family("mc_gateway_backend_failures_total"@, "Failed attempts to reach a backend"@, "backend"@, m.backend_failures, i);
        lemma_within(
            labelled_line("mc_gateway_backend_failures_total"@, "backend"@, m.backend_failures[i].0, m.backend_failures[i].1),
            family_text(
                "mc_gateway_backend_failures_total"@,
                "Failed attempts to reach a backend"@,
                "backend"@,
                m.backend_failures,
            ),
            all,
        );
    }
    if 0 <= i < m.bytes.len() {
        lemma_family("mc_gateway_bytes_total"@, "Bytes proxied"@, "direction"@, m.bytes, i);
        lemma_within(
            labelled_line("mc_gateway_bytes_total"@, "direction"@, m.bytes[i].0, m.bytes[i].1),
            family_text(
                "mc_gateway_bytes_total"@,
                "Bytes proxied"@,
                "direction"@,
                m.bytes,
            ),
            all,
        );
    }
}

/// Counts go up by what is added, and start over behind the largest number.
pub proof fn counts_go_up(a: u64, b: u64)
    ensures
        a + b <= u64::MAX ==> wrapped_sum(a, b) == a + b,
        a + b > u64::MAX ==> wrapped_sum(a, b) == a + b - u64::MAX - 1,
        a > 0 ==> one_less(a) == a - 1,
        one_less(0) == u64::MAX,
{
}

/// A label that was counted has the count of its entry, and every other has
/// none.
pub proof fn labels_have_their_counts(
    entries: Seq<(Seq<char>, u64)>,
    label: Seq<char>,
    i: int,
)
    requires
        ordered(entries),
    ensures
        0 <= i < entries.len() && entries[i].0 == label ==> count_of(entries, label)
            == entries[i].1,
        (forall|k: int| 0 <= k < entries.len() ==> (#[trigger] entries[k]).0 != label)
            ==> count_of(entries, label) == 0,
{
    if 0 <= i < entries.len() && entries[i].0 == label {
        lemma_count_at(entries, label, i);
    }
    if forall|k: int| 0 <= k < entries.len() ==> (#[trigger] entries[k]).0 != label {
        lemma_count_absent(entries, label);
    }
}

/// Counting adds to its own label and to no other.
pub proof fn counting_adds_to_its_own_label(
    before: Seq<(Seq<char>, u64)>,
    after: Seq<(Seq<char>, u64)>,
    label: Seq<char>,
    amount: u64,
    other: Seq<char>,
)
    requires
        counted_more(before, after, label, amount),
    ensures
        count_of(before, label) + amount <= u64::MAX ==> count_of(after, label) == count_of(
            before,
            label,
        ) + amount,
        other != label ==> count_of(after, other) == count_of(before, other),
        has_label(after, label),
        other != label ==> has_label(after, other) == has_label(before, other),
{
}

/// A gateway that has just started has counted nothing.
pub proof fn nothing_is_counted_at_first()
    ensures
        ({
            let m = fresh_metrics();
            &&& m.connections_total == 0
            &&& m.connections_active == 0
            &&& m.login_attempts == 0
            &&& m.sessions_completed == 0
            &&& m.session_seconds_total == 0
            &&& m.connections_rejected.len() == 0
            &&& m.handshake_errors.len() == 0
            &&& m.status_requests.len() == 0
            &&& m.backend_connections.len() == 0
            &&& m.backend_failures.len() == 0
            &&& m.bytes.len() == 0
        }),
{
}

} // verus!
