//! Metrics of a node: what changes them.

use vstd::prelude::*;

use crate::metrics::change::{change_values, no_changes, plain_change, push_plain, Amount, Change};

verus! {

/// An intercepted connection was accepted.
pub fn connection_opened() -> (changes: Vec<Change>)
    ensures
        change_values(changes@) == seq![
            plain_change("mc_gateway_connections_total"@, Amount::Count(1)),
            plain_change("mc_gateway_connections_active"@, Amount::Up),
        ],
{
    crate::gateway::observe::connection_opened()
}

/// An intercepted connection was closed.
pub fn connection_closed() -> (changes: Vec<Change>)
    ensures
        change_values(changes@) == seq![
            plain_change("mc_gateway_connections_active"@, Amount::Down),
        ],
{
    crate::gateway::observe::connection_closed()
}

fn one(name: &'static str) -> (changes: Vec<Change>)
    ensures
        change_values(changes@) == seq![plain_change(name@, Amount::Count(1))],
{
    let mut changes = no_changes();
    push_plain(&mut changes, name, Amount::Count(1));
    assert(change_values(changes@) =~= seq![plain_change(name@, Amount::Count(1))]);
    changes
}

/// A status ping was recognised.
pub fn status_request() -> (changes: Vec<Change>)
    ensures
        change_values(changes@) == seq![
            plain_change("mc_gateway_status_requests_total"@, Amount::Count(1)),
        ],
{
    one("mc_gateway_status_requests_total")
}

/// A status response got the MOTD line.
pub fn motd_rewritten() -> (changes: Vec<Change>)
    ensures
        change_values(changes@) == seq![
            plain_change("mc_gateway_motd_rewrites_total"@, Amount::Count(1)),
        ],
{
    one("mc_gateway_motd_rewrites_total")
}

/// A server did not answer.
pub fn server_unreachable() -> (changes: Vec<Change>)
    ensures
        change_values(changes@) == seq![
            plain_change("mc_gateway_server_unreachable_total"@, Amount::Count(1)),
        ],
{
    one("mc_gateway_server_unreachable_total")
}

/// The gateway answered for a server that is not there.
pub fn offline_answered() -> (changes: Vec<Change>)
    ensures
        change_values(changes@) == seq![
            plain_change("mc_gateway_offline_answers_total"@, Amount::Count(1)),
        ],
{
    one("mc_gateway_offline_answers_total")
}

} // verus!
