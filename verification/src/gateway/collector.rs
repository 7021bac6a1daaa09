//! Gauges read from live state at scrape time.
//!
//! Health and session counts are not mirrored into counters, because a mirror
//! can drift. The registry is the single source of truth and is read directly.

use vstd::prelude::*;

use crate::config::model::BackendKind;
use crate::metrics::text_format::{
    family_header, header_text, sample_line, single, single_text,
};
use crate::order::{arranged, as_places, name_order, names_are_ordered, slices, sort_names};
use crate::routing::registry::{
    backend_values, count_healthy, fitting, total_active, Backend, BackendValue, Registry,
};
use crate::text::{integer_text, integer_to_text, text_less};
use crate::time::Duration;

verus! {

/// The value of a gauge. Prometheus takes all of them as floating-point numbers.
#[derive(Debug, Clone, Copy, PartialEq, Eq, Structural)]
pub enum Reading {
    /// A whole number.
    Whole(i128),
    /// A span of time, in seconds.
    Seconds(Duration),
}

/// One piece of the page.
#[derive(Debug, PartialEq, Eq)]
pub enum Line {
    /// A gauge of its own.
    Gauge { name: &'static str, help: &'static str, value: Reading },
    /// The beginning of a family of gauges.
    Family { name: &'static str, help: &'static str },
    /// One gauge of a family: the backend it is about, what that runs where the
    /// gauge says so, and the value.
    Sample { name: &'static str, backend: String, kind: Option<&'static str>, value: Reading },
}

/// One piece of the page as a value.
pub ghost enum LineValue {
    Gauge { name: Seq<char>, help: Seq<char>, value: Reading },
    Family { name: Seq<char>, help: Seq<char> },
    Sample { name: Seq<char>, backend: Seq<char>, kind: Option<Seq<char>>, value: Reading },
}

impl View for Line {
    type V = LineValue;

    open spec fn view(&self) -> LineValue {
        match self {
            Line::Gauge { name, help, value } => LineValue::Gauge {
                name: name@,
                help: help@,
                value: *value,
            },
            Line::Family { name, help } => LineValue::Family { name: name@, help: help@ },
            Line::Sample { name, backend, kind, value } => LineValue::Sample {
                name: name@,
                backend: backend@,
                kind: match kind {
                    Some(kind) => Some(kind@),
                    None => None,
                },
                value: *value,
            },
        }
    }
}

/// The values of a list of lines.
pub open spec fn line_values(lines: Seq<Line>) -> Seq<LineValue> {
    lines.map_values(|line: Line| line@)
}

/// The name of the software that a backend runs.
pub open spec fn kind_name(kind: BackendKind) -> Seq<char> {
    match kind {
        BackendKind::Vanilla => "vanilla"@,
        BackendKind::Paper => "paper"@,
        BackendKind::Spigot => "spigot"@,
        BackendKind::Folia => "folia"@,
        BackendKind::Velocity => "velocity"@,
        BackendKind::Bungeecord => "bungeecord"@,
        BackendKind::Fabric => "fabric"@,
        BackendKind::Forge => "forge"@,
        BackendKind::Neoforge => "neoforge"@,
        BackendKind::Quilt => "quilt"@,
        BackendKind::Unknown => "unknown"@,
    }
}

/// What is said of one backend.
#[derive(Debug, Clone, Copy, PartialEq, Eq, Structural)]
pub enum Gauge {
    /// One where it is healthy.
    Up,
    /// Its sessions.
    Sessions,
    /// The players that it reports.
    Players,
    /// How long its last status ping took.
    Ping,
}

/// The line for one backend; none where nothing is known.
pub open spec fn backend_line(gauge: Gauge, b: BackendValue) -> Seq<LineValue> {
    match gauge {
        Gauge::Up => seq![
            LineValue::Sample {
                name: "mc_gateway_backend_up"@,
                backend: b.name,
                kind: Some(kind_name(b.kind)),
                value: Reading::Whole(
                    if b.healthy {
                        1
                    } else {
                        0
                    },
                ),
            },
        ],
        Gauge::Sessions => seq![
            LineValue::Sample {
                name: "mc_gateway_backend_sessions"@,
                backend: b.name,
                kind: None,
                value: Reading::Whole(b.active as i128),
            },
        ],
        Gauge::Players => match b.status {
            Some(status) => seq![
                LineValue::Sample {
                    name: "mc_gateway_backend_players"@,
                    backend: b.name,
                    kind: None,
                    value: Reading::Whole(status.online as i128),
                },
            ],
            None => Seq::empty(),
        },
        Gauge::Ping => match b.status {
            Some(status) => seq![
                LineValue::Sample {
                    name: "mc_gateway_backend_ping_seconds"@,
                    backend: b.name,
                    kind: None,
                    value: Reading::Seconds(status.latency),
                },
            ],
            None => Seq::empty(),
        },
    }
}

/// The lines for the first `n` backends.
pub open spec fn backend_lines(gauge: Gauge, backends: Seq<BackendValue>, n: nat) -> Seq<LineValue>
    decreases n,
{
    if n == 0 || n > backends.len() {
        Seq::empty()
    } else {
        backend_lines(gauge, backends, (n - 1) as nat) + backend_line(gauge, backends[n - 1])
    }
}

/// A family of gauges, one per backend.
pub open spec fn backend_family(
    gauge: Gauge,
    name: Seq<char>,
    help: Seq<char>,
    backends: Seq<BackendValue>,
) -> Seq<LineValue> {
    seq![LineValue::Family { name, help }] + backend_lines(gauge, backends, backends.len())
}

/// Whether any backend has answered a status ping.
pub open spec fn any_status(backends: Seq<BackendValue>) -> bool {
    exists|i: int| 0 <= i < backends.len() && (#[trigger] backends[i]).status is Some
}

/// The names of backends.
pub open spec fn backend_names(backends: Seq<BackendValue>) -> Seq<Seq<char>> {
    backends.map_values(|b: BackendValue| b.name)
}

/// Backends in the order of their names.
pub open spec fn by_name(backends: Seq<BackendValue>) -> Seq<BackendValue> {
    arranged(backends, name_order(backend_names(backends)))
}

/// Everything that is read from live state, backends in the order of their
/// names.
pub open spec fn collected(registered: Seq<BackendValue>) -> Seq<LineValue> {
    let n = registered.len();
    let backends = by_name(registered);
    seq![
        LineValue::Gauge {
            name: "mc_gateway_backends"@,
            help: "Configured backends"@,
            value: Reading::Whole(n as i128),
        },
        LineValue::Gauge {
            name: "mc_gateway_backends_healthy"@,
            help: "Backends passing health checks"@,
            value: Reading::Whole(count_healthy(registered, n) as i128),
        },
        LineValue::Gauge {
            name: "mc_gateway_sessions_active"@,
            help: "Sessions currently proxied to a backend"@,
            value: Reading::Whole(total_active(registered, n) as i128),
        },
    ] + backend_family(
        Gauge::Up,
        "mc_gateway_backend_up"@,
        "1 when the backend is healthy"@,
        backends,
    ) + backend_family(
        Gauge::Sessions,
        "mc_gateway_backend_sessions"@,
        "Sessions currently proxied to this backend"@,
        backends,
    ) + if any_status(backends) {
        backend_family(
            Gauge::Players,
            "mc_gateway_backend_players"@,
            "Players reported by the backend's own status ping"@,
            backends,
        ) + backend_family(
            Gauge::Ping,
            "mc_gateway_backend_ping_seconds"@,
            "Round trip of the last status health check"@,
            backends,
        )
    } else {
        Seq::empty()
    }
}

/// Appends one piece of the page.
pub(crate) fn push_line(lines: &mut Vec<Line>, line: Line)
    ensures
        line_values(final(lines)@) == line_values(old(lines)@).push(line@),
{
    lines.push(line);
    assert(line_values(lines@) =~= line_values(old(lines)@).push(line@));
}

/// Appends the line for one backend.
pub(crate) fn push_backend(lines: &mut Vec<Line>, gauge: Gauge, backend: &Backend)
    ensures
        line_values(final(lines)@) == line_values(old(lines)@) + backend_line(gauge, backend@),
{
    let name: String = backend.name.clone();
    proof {
        backend.lemma_public_fields();
    }
    match gauge {
        Gauge::Up => {
            let value: i128 = if backend.is_healthy() {
                1
            } else {
                0
            };
            push_line(
                lines,
                Line::Sample {
                    name: "mc_gateway_backend_up",
                    backend: name,
                    kind: Some(backend.kind.as_str()),
                    value: Reading::Whole(value),
                },
            );
        },
        Gauge::Sessions => {
            push_line(
                lines,
                Line::Sample {
                    name: "mc_gateway_backend_sessions",
                    backend: name,
                    kind: None,
                    value: Reading::Whole(backend.active_sessions() as i128),
                },
            );
        },
        Gauge::Players => {
            if let Some(status) = backend.status() {
                push_line(
                    lines,
                    Line::Sample {
                        name: "mc_gateway_backend_players",
                        backend: name,
                        kind: None,
                        value: Reading::Whole(status.online as i128),
                    },
                );
            }
        },
        Gauge::Ping => {
            if let Some(status) = backend.status() {
                push_line(
                    lines,
                    Line::Sample {
                        name: "mc_gateway_backend_ping_seconds",
                        backend: name,
                        kind: None,
                        value: Reading::Seconds(status.latency),
                    },
                );
            }
        },
    }
    assert(line_values(lines@) =~= line_values(old(lines)@) + backend_line(gauge, backend@));
}

/// The places of the backends in the order of their names.
fn sort_backends(backends: &[Backend]) -> (order: Vec<usize>)
    ensures
        arranged(backend_values(backends@), as_places(order@)) == by_name(
            backend_values(backends@),
        ),
        forall|i: int| 0 <= i < order@.len() ==> (#[trigger] order@[i]) < backends@.len(),
{
    let ghost values = backend_values(backends@);
    let mut names: Vec<&str> = Vec::new();
    let mut i: usize = 0;
    while i < backends.len()
        invariant
            i <= backends@.len(),
            values == backend_values(backends@),
            names@.len() == i,
            forall|k: int| 0 <= k < i ==> (#[trigger] names@[k])@ == values[k].name,
        decreases backends@.len() - i,
    {
        assert(values[i as int] == backends@[i as int]@);
        proof {
            backends@[i as int].lemma_public_fields();
        }
        names.push(backends[i].name.as_str());
        i = i + 1;
    }
    assert(slices(names@) =~= backend_names(values));
    sort_names(&names)
}

fn push_backend_family(
    lines: &mut Vec<Line>,
    gauge: Gauge,
    name: &'static str,
    help: &'static str,
    backends: &[Backend],
    order: &Vec<usize>,
)
    requires
        forall|i: int| 0 <= i < order@.len() ==> (#[trigger] order@[i]) < backends@.len(),
    ensures
        line_values(final(lines)@) == line_values(old(lines)@) + backend_family(
            gauge,
            name@,
            help@,
            arranged(backend_values(backends@), as_places(order@)),
        ),
{
    let ghost values = arranged(backend_values(backends@), as_places(order@));
    let ghost start = line_values(lines@);
    push_line(lines, Line::Family { name, help });
    let ghost opened = line_values(lines@);
    let mut i: usize = 0;
    assert(line_values(lines@) =~= opened + backend_lines(gauge, values, 0));
    while i < order.len()
        invariant
            i <= order@.len(),
            values == arranged(backend_values(backends@), as_places(order@)),
            forall|k: int| 0 <= k < order@.len() ==> (#[trigger] order@[k]) < backends@.len(),
            line_values(lines@) == opened + backend_lines(gauge, values, i as nat),
        decreases order@.len() - i,
    {
        let m: usize = order[i];
        assert(order@[i as int] < backends@.len());
        assert(values[i as int] == backends@[m as int]@);
        push_backend(lines, gauge, &backends[m]);
        i = i + 1;
        assert(line_values(lines@) =~= opened + backend_lines(gauge, values, i as nat));
    }
    assert(line_values(lines@) =~= start + backend_family(gauge, name@, help@, values));
}

/// The samples of a family come in the order of the names, and every backend
/// has its sample.
pub proof fn samples_come_by_name(backends: Seq<BackendValue>)
    ensures
        by_name(backends).len() == backends.len(),
        forall|i: int| 0 <= i < backends.len() ==> by_name(backends).contains(
            #[trigger] backends[i],
        ),
        forall|i: int| 0 <= i < backends.len() ==> backends.contains(
            #[trigger] by_name(backends)[i],
        ),
        forall|i: int, j: int|
            0 <= i < j < backends.len() ==> !text_less(
                (#[trigger] by_name(backends)[j]).name,
                (#[trigger] by_name(backends)[i]).name,
            ),
{
    let names = backend_names(backends);
    let order = name_order(names);
    let sorted = by_name(backends);
    names_are_ordered(names);
    assert forall|i: int| 0 <= i < backends.len() implies sorted.contains(#[trigger] backends[i]) by {
        assert(order.contains(i));
        let k = choose|k: int| 0 <= k < order.len() && order[k] == i;
        assert(sorted[k] == backends[i]);
    }
    assert forall|i: int| 0 <= i < backends.len() implies backends.contains(
        #[trigger] sorted[i],
    ) by {
        assert(0 <= order[i] < names.len());
        assert(sorted[i] == backends[order[i]]);
    }
    assert forall|i: int, j: int| 0 <= i < j < backends.len() implies !text_less(
        (#[trigger] sorted[j]).name,
        (#[trigger] sorted[i]).name,
    ) by {
        assert(0 <= order[i] < names.len() && 0 <= order[j] < names.len());
        assert(!text_less(names[order[j]], names[order[i]]));
    }
}

proof fn lemma_any_status(backends: Seq<BackendValue>)
    ensures
        any_status(by_name(backends)) == any_status(backends),
{
    let sorted = by_name(backends);
    samples_come_by_name(backends);
    if any_status(sorted) {
        let i = choose|i: int| 0 <= i < sorted.len() && (#[trigger] sorted[i]).status is Some;
        assert(backends.contains(sorted[i]));
    }
    if any_status(backends) {
        let i = choose|i: int| 0 <= i < backends.len() && (#[trigger] backends[i]).status is Some;
        assert(sorted.contains(backends[i]));
    }
}

fn has_any_status(backends: &[Backend]) -> (yes: bool)
    ensures
        yes == any_status(backend_values(backends@)),
{
    let ghost values = backend_values(backends@);
    let mut i: usize = 0;
    while i < backends.len()
        invariant
            i <= backends@.len(),
            values == backend_values(backends@),
            forall|j: int| 0 <= j < i ==> (#[trigger] values[j]).status is None,
        decreases backends@.len() - i,
    {
        assert(values[i as int] == backends@[i as int]@);
        if backends[i].status().is_some() {
            return true;
        }
        i = i + 1;
    }
    false
}

/// Reads everything from the registry; nothing comes back where the sessions are
/// too many to be counted.
#[verifier::rlimit(40)]
pub fn collect(registry: &Registry) -> (lines: Option<Vec<Line>>)
    ensures
        match fitting(
            total_active(registry.backend_values(), registry.backend_values().len()),
        ) {
            Some(_) => lines is Some && line_values(lines->Some_0@) == collected(
                registry.backend_values(),
            ),
            None => lines is None,
        },
{
    let sessions: usize = match registry.active_sessions() {
        Some(n) => n,
        None => return None,
    };
    let backends = registry.backends();
    let ghost values = backend_values(backends@);
    assert(values.len() == backends@.len());
    let order = sort_backends(backends);
    proof {
        lemma_any_status(values);
    }
    let mut lines: Vec<Line> = Vec::new();
    push_line(
        &mut lines,
        Line::Gauge {
            name: "mc_gateway_backends",
            help: "Configured backends",
            value: Reading::Whole(backends.len() as i128),
        },
    );
    push_line(
        &mut lines,
        Line::Gauge {
            name: "mc_gateway_backends_healthy",
            help: "Backends passing health checks",
            value: Reading::Whole(registry.healthy_count() as i128),
        },
    );
    push_line(
        &mut lines,
        Line::Gauge {
            name: "mc_gateway_sessions_active",
            help: "Sessions currently proxied to a backend",
            value: Reading::Whole(sessions as i128),
        },
    );
    push_backend_family(
        &mut lines,
        Gauge::Up,
        "mc_gateway_backend_up",
        "1 when the backend is healthy",
        backends,
        &order,
    );
    push_backend_family(
        &mut lines,
        Gauge::Sessions,
        "mc_gateway_backend_sessions",
        "Sessions currently proxied to this backend",
        backends,
        &order,
    );
    if has_any_status(backends) {
        push_backend_family(
            &mut lines,
            Gauge::Players,
            "mc_gateway_backend_players",
            "Players reported by the backend's own status ping",
            backends,
            &order,
        );
        push_backend_family(
            &mut lines,
            Gauge::Ping,
            "mc_gateway_backend_ping_seconds",
            "Round trip of the last status health check",
            backends,
            &order,
        );
    }
    assert(line_values(lines@) =~= collected(values));
    Some(lines)
}

/// The text of a value that is a whole number below ten to the fifteenth, which
/// a floating-point number holds exactly; any other value is left to the caller.
pub fn exact_text(value: Reading) -> (text: Option<String>)
    ensures
        match value {
            Reading::Whole(n) => if -1_000_000_000_000_000 < n < 1_000_000_000_000_000 {
                text is Some && text->Some_0@ == integer_text(n as int)
            } else {
                text is None
            },
            Reading::Seconds(_) => text is None,
        },
{
    match value {
        Reading::Whole(n) => if -1_000_000_000_000_000 < n && n < 1_000_000_000_000_000 {
            Some(integer_to_text(n))
        } else {
            None
        },
        Reading::Seconds(_) => None,
    }
}

/// The text of one line, given the text of its value.
pub open spec fn line_text(line: LineValue, value: Seq<char>) -> Seq<char> {
    match line {
        LineValue::Gauge { name, help, .. } => single_text(name, help, "gauge"@, value),
        LineValue::Family { name, help } => header_text(name, help, "gauge"@),
        LineValue::Sample { name, backend, kind, .. } => {
            let escaped = crate::metrics::text_format::escaped(backend);
            let software = match kind {
                Some(kind) => ",kind=\""@ + crate::metrics::text_format::escaped(kind) + "\""@,
                None => Seq::empty(),
            };
            name + "{backend=\""@ + escaped + "\""@ + software + "} "@ + value + "\n"@
        },
    }
}

/// Writes one line, given the text of its value.
pub fn write_line(out: &mut String, line: &Line, value: &str)
    ensures
        final(out)@ == old(out)@ + line_text(line@, value@),
{
    match line {
        Line::Gauge { name, help, .. } => single(out, name, help, "gauge", value),
        Line::Family { name, help } => family_header(out, name, help, "gauge"),
        Line::Sample { name, backend, kind, .. } => {
            let mut labels: Vec<(&str, &str)> = Vec::new();
            labels.push(("backend", backend.as_str()));
            if let Some(kind) = kind {
                labels.push(("kind", kind));
            }
            sample_line(out, name, labels.as_slice(), value);
            proof {
                lemma_labels(labels@, backend@, line@->kind);
                reveal_strlit("{");
                reveal_strlit("{backend=\"");
                reveal_strlit("backend");
                reveal_strlit("=\"");
                assert("{backend=\""@ =~= "{"@ + "backend"@ + "=\""@);
                assert(out@ =~= old(out)@ + line_text(line@, value@));
            }
        },
    }
}

proof fn lemma_labels(labels: Seq<(&str, &str)>, backend: Seq<char>, kind: Option<Seq<char>>)
    requires
        labels.len() == if kind is Some {
            2int
        } else {
            1
        },
        labels[0].0@ == "backend"@,
        labels[0].1@ == backend,
        kind is Some ==> labels[1].0@ == "kind"@ && labels[1].1@ == kind->Some_0,
    ensures
        crate::metrics::text_format::label_list(labels, labels.len()) == "backend"@ + "=\""@
            + crate::metrics::text_format::escaped(backend) + "\""@ + match kind {
            Some(kind) => ",kind=\""@ + crate::metrics::text_format::escaped(kind) + "\""@,
            None => Seq::empty(),
        },
{
    reveal_with_fuel(crate::metrics::text_format::label_list, 3);
    reveal_strlit(",kind=\"");
    reveal_strlit(",");
    reveal_strlit("kind");
    reveal_strlit("=\"");
    assert(",kind=\""@ =~= ","@ + "kind"@ + "=\""@);
    assert(crate::metrics::text_format::label_list(labels, labels.len()) =~= "backend"@ + "=\""@
        + crate::metrics::text_format::escaped(backend) + "\""@ + match kind {
        Some(kind) => ",kind=\""@ + crate::metrics::text_format::escaped(kind) + "\""@,
        None => Seq::empty(),
    });
}

/// Each backend is said to be up or down with what it runs, to have its
/// sessions, and, once it answered a status ping, its players and its latency.
pub proof fn gauges_say_what_backends_are(b: BackendValue)
    ensures
        backend_line(Gauge::Up, b) == seq![
            LineValue::Sample {
                name: "mc_gateway_backend_up"@,
                backend: b.name,
                kind: Some(kind_name(b.kind)),
                value: if b.healthy {
                    Reading::Whole(1)
                } else {
                    Reading::Whole(0)
                },
            },
        ],
        backend_line(Gauge::Sessions, b) == seq![
            LineValue::Sample {
                name: "mc_gateway_backend_sessions"@,
                backend: b.name,
                kind: None,
                value: Reading::Whole(b.active as i128),
            },
        ],
        b.status is Some ==> backend_line(Gauge::Players, b) == seq![
            LineValue::Sample {
                name: "mc_gateway_backend_players"@,
                backend: b.name,
                kind: None,
                value: Reading::Whole(b.status->Some_0.online as i128),
            },
        ],
        b.status is Some ==> backend_line(Gauge::Ping, b) == seq![
            LineValue::Sample {
                name: "mc_gateway_backend_ping_seconds"@,
                backend: b.name,
                kind: None,
                value: Reading::Seconds(b.status->Some_0.latency),
            },
        ],
        b.status is None ==> backend_line(Gauge::Players, b).len() == 0,
        b.status is None ==> backend_line(Gauge::Ping, b).len() == 0,
{
}

/// The page begins with the number of backends, of healthy ones and of sessions;
/// then every backend has its line for health and one for sessions.
pub proof fn the_page_counts_the_backends(registered: Seq<BackendValue>)
    ensures
        ({
            let lines = collected(registered);
            let n = registered.len();
            &&& lines.len() >= 5 + 2 * n
            &&& lines[0] == (LineValue::Gauge {
                name: "mc_gateway_backends"@,
                help: "Configured backends"@,
                value: Reading::Whole(n as i128),
            })
            &&& lines[1] == (LineValue::Gauge {
                name: "mc_gateway_backends_healthy"@,
                help: "Backends passing health checks"@,
                value: Reading::Whole(count_healthy(registered, n) as i128),
            })
            &&& lines[2] == (LineValue::Gauge {
                name: "mc_gateway_sessions_active"@,
                help: "Sessions currently proxied to a backend"@,
                value: Reading::Whole(total_active(registered, n) as i128),
            })
            &&& forall|i: int|
                0 <= i < n ==> #[trigger] lines[4 + i] == backend_line(
                    Gauge::Up,
                    by_name(registered)[i],
                )[0]
            &&& forall|i: int|
                0 <= i < n ==> #[trigger] lines[5 + n + i] == backend_line(
                    Gauge::Sessions,
                    by_name(registered)[i],
                )[0]
        }),
{
    let n = registered.len();
    let sorted = by_name(registered);
    samples_come_by_name(registered);
    lemma_one_line_each(Gauge::Up, sorted, n);
    lemma_one_line_each(Gauge::Sessions, sorted, n);
    let lines = collected(registered);
    let up = backend_lines(Gauge::Up, sorted, n);
    let sessions = backend_lines(Gauge::Sessions, sorted, n);
    assert forall|i: int| 0 <= i < n implies #[trigger] lines[4 + i] == backend_line(
        Gauge::Up,
        sorted[i],
    )[0] by {
        assert(lines[4 + i] == up[i]);
    }
    assert forall|i: int| 0 <= i < n implies #[trigger] lines[5 + n + i] == backend_line(
        Gauge::Sessions,
        sorted[i],
    )[0] by {
        assert(lines[5 + n + i] == sessions[i]);
    }
}

proof fn lemma_one_line_each(gauge: Gauge, backends: Seq<BackendValue>, n: nat)
    requires
        gauge == Gauge::Up || gauge == Gauge::Sessions,
        n <= backends.len(),
    ensures
        backend_lines(gauge, backends, n).len() == n,
        forall|i: int|
            0 <= i < n ==> #[trigger] backend_lines(gauge, backends, n)[i] == backend_line(
                gauge,
                backends[i],
            )[0],
    decreases n,
{
    if n > 0 {
        lemma_one_line_each(gauge, backends, (n - 1) as nat);
        let before = backend_lines(gauge, backends, (n - 1) as nat);
        let all = backend_lines(gauge, backends, n);
        assert forall|i: int| 0 <= i < n implies #[trigger] all[i] == backend_line(
            gauge,
            backends[i],
        )[0] by {
            if i < n - 1 {
                assert(all[i] == before[i]);
            }
        }
    }
}

/// Software is shown under its own name.
pub proof fn software_has_its_name()
    ensures
        kind_name(BackendKind::Vanilla) == "vanilla"@,
        kind_name(BackendKind::Paper) == "paper"@,
        kind_name(BackendKind::Spigot) == "spigot"@,
        kind_name(BackendKind::Folia) == "folia"@,
        kind_name(BackendKind::Velocity) == "velocity"@,
        kind_name(BackendKind::Bungeecord) == "bungeecord"@,
        kind_name(BackendKind::Fabric) == "fabric"@,
        kind_name(BackendKind::Forge) == "forge"@,
        kind_name(BackendKind::Neoforge) == "neoforge"@,
        kind_name(BackendKind::Quilt) == "quilt"@,
        kind_name(BackendKind::Unknown) == "unknown"@,
{
}

/// A sample names its backend and, where it says so, what that runs, each
/// escaped and in quotes, and then its value.
pub proof fn samples_name_their_backend(
    name: Seq<char>,
    backend: Seq<char>,
    kind: Seq<char>,
    reading: Reading,
    value: Seq<char>,
)
    ensures
        line_text(
            LineValue::Sample { name, backend, kind: None, value: reading },
            value,
        ) == name + "{backend=\""@ + crate::metrics::text_format::escaped(backend) + "\"} "@ + value
            + "\n"@,
        line_text(
            LineValue::Sample { name, backend, kind: Some(kind), value: reading },
            value,
        ) == name + "{backend=\""@ + crate::metrics::text_format::escaped(backend) + "\",kind=\""@
            + crate::metrics::text_format::escaped(kind) + "\"} "@ + value + "\n"@,
{
    reveal_strlit("\"");
    reveal_strlit("} ");
    reveal_strlit("\"} ");
    reveal_strlit(",kind=\"");
    reveal_strlit("\",kind=\"");
    assert("\"} "@ =~= "\""@ + "} "@);
    assert("\",kind=\""@ =~= "\""@ + ",kind=\""@);
    let escaped = crate::metrics::text_format::escaped(backend);
    let software = crate::metrics::text_format::escaped(kind);
    assert(line_text(LineValue::Sample { name, backend, kind: None, value: reading }, value)
        =~= name + "{backend=\""@ + escaped + "\"} "@ + value + "\n"@);
    assert(line_text(LineValue::Sample { name, backend, kind: Some(kind), value: reading }, value)
        =~= name + "{backend=\""@ + escaped + "\",kind=\""@ + software + "\"} "@ + value + "\n"@);
}

/// Players and latency have their families exactly where some backend answered a
/// status ping.
pub proof fn status_families_need_a_status(registered: Seq<BackendValue>)
    ensures
        ({
            let sorted = by_name(registered);
            let n = registered.len() as int;
            let lines = collected(registered);
            let some = exists|i: int|
                0 <= i < registered.len() && (#[trigger] registered[i]).status is Some;
            &&& !some ==> lines.len() == 5 + 2 * n
            &&& some ==> lines.skip(5 + 2 * n) == seq![
                LineValue::Family {
                    name: "mc_gateway_backend_players"@,
                    help: "Players reported by the backend's own status ping"@,
                },
            ] + backend_lines(Gauge::Players, sorted, sorted.len()) + seq![
                LineValue::Family {
                    name: "mc_gateway_backend_ping_seconds"@,
                    help: "Round trip of the last status health check"@,
                },
            ] + backend_lines(Gauge::Ping, sorted, sorted.len())
        }),
{
    let sorted = by_name(registered);
    let n = registered.len();
    samples_come_by_name(registered);
    lemma_any_status(registered);
    lemma_one_line_each(Gauge::Up, sorted, n);
    lemma_one_line_each(Gauge::Sessions, sorted, n);
    if any_status(registered) {
        assert(collected(registered).skip(5 + 2 * n as int) =~= seq![
            LineValue::Family {
                name: "mc_gateway_backend_players"@,
                help: "Players reported by the backend's own status ping"@,
            },
        ] + backend_lines(Gauge::Players, sorted, sorted.len()) + seq![
            LineValue::Family {
                name: "mc_gateway_backend_ping_seconds"@,
                help: "Round trip of the last status health check"@,
            },
        ] + backend_lines(Gauge::Ping, sorted, sorted.len()));
    }
}

} // verus!
