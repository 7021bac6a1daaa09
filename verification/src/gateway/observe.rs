//! Metrics of a gateway: which exist, what they mean, and what changes them.

use vstd::prelude::*;

use crate::gateway::collector::{
    backend_line, line_values, push_backend, push_line, Gauge, Line, LineValue, Reading,
};
use crate::metrics::change::{
    change_values, gauge_moves, labelled_change, no_changes, plain_change, push_labelled,
    push_plain, Amount, Change, ChangeValue,
};
use crate::routing::registry::{backend_values, count_healthy, BackendValue, Registry};

verus! {

/// A client connection was accepted.
pub fn connection_opened() -> (changes: Vec<Change>)
    ensures
        change_values(changes@) == seq![
            plain_change("mc_gateway_connections_total"@, Amount::Count(1)),
            plain_change("mc_gateway_connections_active"@, Amount::Up),
        ],
{
    let mut changes = no_changes();
    push_plain(&mut changes, "mc_gateway_connections_total", Amount::Count(1));
    push_plain(&mut changes, "mc_gateway_connections_active", Amount::Up);
    assert(change_values(changes@) =~= seq![
        plain_change("mc_gateway_connections_total"@, Amount::Count(1)),
        plain_change("mc_gateway_connections_active"@, Amount::Up),
    ]);
    changes
}

/// A client connection was closed.
pub fn connection_closed() -> (changes: Vec<Change>)
    ensures
        change_values(changes@) == seq![
            plain_change("mc_gateway_connections_active"@, Amount::Down),
        ],
{
    let mut changes = no_changes();
    push_plain(&mut changes, "mc_gateway_connections_active", Amount::Down);
    assert(change_values(changes@) =~= seq![
        plain_change("mc_gateway_connections_active"@, Amount::Down),
    ]);
    changes
}

/// A connection was refused before reaching a backend.
pub fn connection_rejected(reason: &str) -> (changes: Vec<Change>)
    ensures
        change_values(changes@) == seq![
            labelled_change(
                "mc_gateway_connections_rejected_total"@,
                "reason"@,
                reason@,
                Amount::Count(1),
            ),
        ],
{
    let mut changes = no_changes();
    push_labelled(
        &mut changes,
        "mc_gateway_connections_rejected_total",
        "reason",
        reason,
        Amount::Count(1),
    );
    assert(change_values(changes@) =~= seq![
        labelled_change(
            "mc_gateway_connections_rejected_total"@,
            "reason"@,
            reason@,
            Amount::Count(1),
        ),
    ]);
    changes
}

/// A handshake could not be parsed.
pub fn handshake_error(kind: &str) -> (changes: Vec<Change>)
    ensures
        change_values(changes@) == seq![
            labelled_change(
                "mc_gateway_handshake_errors_total"@,
                "kind"@,
                kind@,
                Amount::Count(1),
            ),
        ],
{
    let mut changes = no_changes();
    push_labelled(
        &mut changes,
        "mc_gateway_handshake_errors_total",
        "kind",
        kind,
        Amount::Count(1),
    );
    assert(change_values(changes@) =~= seq![
        labelled_change(
            "mc_gateway_handshake_errors_total"@,
            "kind"@,
            kind@,
            Amount::Count(1),
        ),
    ]);
    changes
}

/// A server list ping; `kind` is `status` or `legacy`.
pub fn status_request(kind: &str) -> (changes: Vec<Change>)
    ensures
        change_values(changes@) == seq![
            labelled_change(
                "mc_gateway_status_requests_total"@,
                "kind"@,
                kind@,
                Amount::Count(1),
            ),
        ],
{
    let mut changes = no_changes();
    push_labelled(
        &mut changes,
        "mc_gateway_status_requests_total",
        "kind",
        kind,
        Amount::Count(1),
    );
    assert(change_values(changes@) =~= seq![
        labelled_change(
            "mc_gateway_status_requests_total"@,
            "kind"@,
            kind@,
            Amount::Count(1),
        ),
    ]);
    changes
}

/// A status response whose MOTD was rewritten.
pub fn motd_rewritten() -> (changes: Vec<Change>)
    ensures
        change_values(changes@) == seq![
            plain_change("mc_gateway_motd_rewrites_total"@, Amount::Count(1)),
        ],
{
    let mut changes = no_changes();
    push_plain(&mut changes, "mc_gateway_motd_rewrites_total", Amount::Count(1));
    assert(change_values(changes@) =~= seq![
        plain_change("mc_gateway_motd_rewrites_total"@, Amount::Count(1)),
    ]);
    changes
}

/// A handshake in the login state.
pub fn login_attempt() -> (changes: Vec<Change>)
    ensures
        change_values(changes@) == seq![
            plain_change("mc_gateway_login_attempts_total"@, Amount::Count(1)),
        ],
{
    let mut changes = no_changes();
    push_plain(&mut changes, "mc_gateway_login_attempts_total", Amount::Count(1));
    assert(change_values(changes@) =~= seq![
        plain_change("mc_gateway_login_attempts_total"@, Amount::Count(1)),
    ]);
    changes
}

/// A connection was opened to a backend.
pub fn backend_connected(backend: &str) -> (changes: Vec<Change>)
    ensures
        change_values(changes@) == seq![
            labelled_change(
                "mc_gateway_backend_connections_total"@,
                "backend"@,
                backend@,
                Amount::Count(1),
            ),
        ],
{
    let mut changes = no_changes();
    push_labelled(
        &mut changes,
        "mc_gateway_backend_connections_total",
        "backend",
        backend,
        Amount::Count(1),
    );
    assert(change_values(changes@) =~= seq![
        labelled_change(
            "mc_gateway_backend_connections_total"@,
            "backend"@,
            backend@,
            Amount::Count(1),
        ),
    ]);
    changes
}

/// A backend could not be reached.
pub fn backend_failed(backend: &str, kind: &'static str) -> (changes: Vec<Change>)
    ensures
        change_values(changes@) == seq![
            ChangeValue {
                name: "mc_gateway_backend_failures_total"@,
                labels: seq![("backend"@, backend@), ("kind"@, kind@)],
                amount: Amount::Count(1),
            },
        ],
{
    let mut labels: Vec<(&'static str, String)> = Vec::new();
    labels.push(("backend", backend.to_owned()));
    labels.push(("kind", kind.to_owned()));
    let change = Change {
        name: "mc_gateway_backend_failures_total",
        labels,
        amount: Amount::Count(1),
    };
    assert(change@.labels =~= seq![("backend"@, backend@), ("kind"@, kind@)]);
    let mut changes: Vec<Change> = Vec::new();
    changes.push(change);
    assert(change_values(changes@) =~= seq![change@]);
    changes
}

/// What the beginning of a session changes.
pub open spec fn started_changes(backend: Seq<char>) -> Seq<ChangeValue> {
    seq![
        plain_change("mc_gateway_sessions_active"@, Amount::Up),
        labelled_change("mc_gateway_backend_sessions"@, "backend"@, backend, Amount::Up),
    ]
}

/// A session with a backend began.
pub fn session_started(backend: &str) -> (changes: Vec<Change>)
    ensures
        change_values(changes@) == started_changes(backend@),
{
    let mut changes = no_changes();
    push_plain(&mut changes, "mc_gateway_sessions_active", Amount::Up);
    push_labelled(&mut changes, "mc_gateway_backend_sessions", "backend", backend, Amount::Up);
    assert(change_values(changes@) =~= started_changes(backend@));
    changes
}

/// What the end of a session changes. Byte counts are known only after a clean
/// close, so a session torn down by a timeout or a reset is counted as aborted
/// instead.
pub open spec fn ended_changes(backend: Seq<char>, bytes: Option<(u64, u64)>) -> Seq<ChangeValue> {
    seq![
        plain_change("mc_gateway_sessions_active"@, Amount::Down),
        labelled_change("mc_gateway_backend_sessions"@, "backend"@, backend, Amount::Down),
        plain_change("mc_gateway_sessions_completed_total"@, Amount::Count(1)),
    ] + match bytes {
        Some((to_backend, to_client)) => seq![
            labelled_change(
                "mc_gateway_bytes_total"@,
                "direction"@,
                "to_backend"@,
                Amount::Count(to_backend),
            ),
            labelled_change(
                "mc_gateway_bytes_total"@,
                "direction"@,
                "to_client"@,
                Amount::Count(to_client),
            ),
        ],
        None => seq![plain_change("mc_gateway_sessions_aborted_total"@, Amount::Count(1))],
    }
}

/// A session with a backend ended; the bytes to the backend and to the client,
/// where they are known.
pub fn session_ended(backend: &str, bytes: Option<(u64, u64)>) -> (changes: Vec<Change>)
    ensures
        change_values(changes@) == ended_changes(backend@, bytes),
{
    let mut changes = no_changes();
    push_plain(&mut changes, "mc_gateway_sessions_active", Amount::Down);
    push_labelled(&mut changes, "mc_gateway_backend_sessions", "backend", backend, Amount::Down);
    push_plain(&mut changes, "mc_gateway_sessions_completed_total", Amount::Count(1));
    match bytes {
        Some((to_backend, to_client)) => {
            push_labelled(
                &mut changes,
                "mc_gateway_bytes_total",
                "direction",
                "to_backend",
                Amount::Count(to_backend),
            );
            push_labelled(
                &mut changes,
                "mc_gateway_bytes_total",
                "direction",
                "to_client",
                Amount::Count(to_client),
            );
        },
        None => push_plain(&mut changes, "mc_gateway_sessions_aborted_total", Amount::Count(1)),
    }
    assert(change_values(changes@) =~= ended_changes(backend@, bytes));
    changes
}

/// What is sampled of the first `n` backends.
pub open spec fn sampled_backends(backends: Seq<BackendValue>, n: nat) -> Seq<LineValue>
    decreases n,
{
    if n == 0 || n > backends.len() {
        Seq::empty()
    } else {
        let backend = backends[n - 1];
        sampled_backends(backends, (n - 1) as nat) + backend_line(Gauge::Up, backend)
            + backend_line(Gauge::Players, backend) + backend_line(Gauge::Ping, backend)
    }
}

/// What is sampled of a registry.
pub open spec fn sampled(backends: Seq<BackendValue>) -> Seq<LineValue> {
    seq![
        LineValue::Gauge {
            name: "mc_gateway_backends"@,
            help: "Configured backends"@,
            value: Reading::Whole(backends.len() as i128),
        },
        LineValue::Gauge {
            name: "mc_gateway_backends_healthy"@,
            help: "Backends passing health checks"@,
            value: Reading::Whole(count_healthy(backends, backends.len()) as i128),
        },
    ] + sampled_backends(backends, backends.len())
}

/// Reads the gauges that follow the registry.
pub fn sample_registry(registry: &Registry) -> (lines: Vec<Line>)
    ensures
        line_values(lines@) == sampled(registry.backend_values()),
{
    let backends = registry.backends();
    let ghost values = backend_values(backends@);
    assert(values.len() == backends@.len());
    let mut lines: Vec<Line> = Vec::new();
    push_line(
        &mut lines,
        Line::Gauge {
            name: "mc_gateway_backends",
            help: "Configured backends",
            value: Reading::Whole(backends.len() as i128),
        },
    );
    push_line(
        &mut lines,
        Line::Gauge {
            name: "mc_gateway_backends_healthy",
            help: "Backends passing health checks",
            value: Reading::Whole(registry.healthy_count() as i128),
        },
    );
    let ghost head = line_values(lines@);
    let mut i: usize = 0;
    assert(line_values(lines@) =~= head + sampled_backends(values, 0));
    while i < backends.len()
        invariant
            i <= backends@.len(),
            values == backend_values(backends@),
            line_values(lines@) == head + sampled_backends(values, i as nat),
        decreases backends@.len() - i,
    {
        assert(values[i as int] == backends@[i as int]@);
        push_backend(&mut lines, Gauge::Up, &backends[i]);
        push_backend(&mut lines, Gauge::Players, &backends[i]);
        push_backend(&mut lines, Gauge::Ping, &backends[i]);
        i = i + 1;
        assert(line_values(lines@) =~= head + sampled_backends(values, i as nat));
    }
    assert(line_values(lines@) =~= sampled(values));
    lines
}

/// The end of a session takes back what its beginning added to the gauges.
pub proof fn ending_undoes_starting(
    backend: Seq<char>,
    bytes: Option<(u64, u64)>,
    name: Seq<char>,
    labels: Seq<(Seq<char>, Seq<char>)>,
)
    ensures
        gauge_moves(started_changes(backend), name, labels) + gauge_moves(
            ended_changes(backend, bytes),
            name,
            labels,
        ) == 0,
{
    let started = started_changes(backend);
    let ended = ended_changes(backend, bytes);
    reveal_with_fuel(gauge_moves, 6);
    assert(started.drop_last().drop_last() =~= Seq::<ChangeValue>::empty());
    assert(started.drop_last().last() == started[0]);
    match bytes {
        Some(_) => {
            let d1 = ended.drop_last();
            let d2 = d1.drop_last();
            let d3 = d2.drop_last();
            let d4 = d3.drop_last();
            assert(d1.last() == ended[3] && d2.last() == ended[2] && d3.last() == ended[1]);
            assert(d4.last() == ended[0]);
            assert(d4.drop_last() =~= Seq::<ChangeValue>::empty());
        },
        None => {
            let d1 = ended.drop_last();
            let d2 = d1.drop_last();
            let d3 = d2.drop_last();
            assert(d1.last() == ended[2] && d2.last() == ended[1] && d3.last() == ended[0]);
            assert(d3.drop_last() =~= Seq::<ChangeValue>::empty());
        },
    }
}

/// A session is one more active session, and one more of its backend.
pub proof fn sessions_are_counted_up(backend: Seq<char>)
    ensures
        gauge_moves(
            started_changes(backend),
            "mc_gateway_sessions_active"@,
            Seq::empty(),
        ) == 1,
        gauge_moves(
            started_changes(backend),
            "mc_gateway_backend_sessions"@,
            seq![("backend"@, backend)],
        ) == 1,
{
    let started = started_changes(backend);
    let first = started.drop_last();
    assert(first.drop_last() =~= Seq::<ChangeValue>::empty());
    assert(first.last() == started[0]);
    reveal_with_fuel(gauge_moves, 4);
    reveal_strlit("mc_gateway_sessions_active");
    reveal_strlit("mc_gateway_backend_sessions");
    assert("mc_gateway_sessions_active"@.len() != "mc_gateway_backend_sessions"@.len());
}

/// A session that ended is counted as completed, with the bytes of both
/// directions where they are known, and as aborted where they are not.
pub proof fn ended_sessions_are_counted(backend: Seq<char>, up: u64, down: u64)
    ensures
        ended_changes(backend, Some((up, down))).len() == 5,
        ended_changes(backend, Some((up, down))).contains(
            (ChangeValue {
                name: "mc_gateway_bytes_total"@,
                labels: seq![("direction"@, "to_backend"@)],
                amount: Amount::Count(up),
            }),
        ),
        ended_changes(backend, Some((up, down))).contains(
            (ChangeValue {
                name: "mc_gateway_bytes_total"@,
                labels: seq![("direction"@, "to_client"@)],
                amount: Amount::Count(down),
            }),
        ),
        ended_changes(backend, Some((up, down))).contains(
            (ChangeValue {
                name: "mc_gateway_sessions_completed_total"@,
                labels: Seq::empty(),
                amount: Amount::Count(1),
            }),
        ),
        ended_changes(backend, None).len() == 4,
        ended_changes(backend, None).contains(
            (ChangeValue {
                name: "mc_gateway_sessions_completed_total"@,
                labels: Seq::empty(),
                amount: Amount::Count(1),
            }),
        ),
        ended_changes(backend, None).contains(
            (ChangeValue {
                name: "mc_gateway_sessions_aborted_total"@,
                labels: Seq::empty(),
                amount: Amount::Count(1),
            }),
        ),
{
    let whole = ended_changes(backend, Some((up, down)));
    let torn = ended_changes(backend, None);
    assert(whole[2].name == "mc_gateway_sessions_completed_total"@);
    assert(whole[3].amount == Amount::Count(up));
    assert(whole[4].amount == Amount::Count(down));
    assert(torn[2].name == "mc_gateway_sessions_completed_total"@);
    assert(torn[3].name == "mc_gateway_sessions_aborted_total"@);
}

/// Backends are counted, and healthy ones too; then each backend is said to be
/// up or down, and to have its players and its latency where they are known.
pub proof fn samples_follow_the_registry(backends: Seq<BackendValue>, backend: BackendValue)
    ensures
        sampled(backends).len() >= 2,
        sampled(backends)[0] == (LineValue::Gauge {
            name: "mc_gateway_backends"@,
            help: "Configured backends"@,
            value: Reading::Whole(backends.len() as i128),
        }),
        sampled(backends)[1] == (LineValue::Gauge {
            name: "mc_gateway_backends_healthy"@,
            help: "Backends passing health checks"@,
            value: Reading::Whole(count_healthy(backends, backends.len()) as i128),
        }),
        sampled(backends).skip(2) == sampled_backends(backends, backends.len()),
        sampled_backends(backends.push(backend), backends.len() + 1) == sampled_backends(
            backends,
            backends.len(),
        ) + backend_line(Gauge::Up, backend) + backend_line(Gauge::Players, backend) + backend_line(
            Gauge::Ping,
            backend,
        ),
{
    assert(sampled(backends).skip(2) =~= sampled_backends(backends, backends.len()));
    lemma_first_samples(backends, backend, backends.len());
}

proof fn lemma_first_samples(backends: Seq<BackendValue>, backend: BackendValue, n: nat)
    requires
        n <= backends.len(),
    ensures
        sampled_backends(backends.push(backend), n) == sampled_backends(backends, n),
    decreases n,
{
    if n > 0 {
        lemma_first_samples(backends, backend, (n - 1) as nat);
    }
}

} // verus!
