//! What a reload changes, and what it cannot.

use std::sync::Arc;

use vstd::prelude::*;

use crate::config::model::{
    rule_values, same_limits, Config, Forwarding, Listener, Server,
};
use crate::config::validate::{error_text, servers_by_name, ConfigError, Loaded};
use crate::gateway::limits::Limiter;
use crate::net::{socket_text, SocketAddr};
use crate::routing::registry::{reloaded_backends, Registry};
use crate::text::{glue5, opt_text, push_text, same_text, texts};

verus! {

/// A client address for logs; left out unless it may be logged.
pub fn log_addr(addr: SocketAddr, log_client_ip: bool) -> (text: String)
    ensures
        text@ == if log_client_ip {
            socket_text(addr)
        } else {
            "redacted"@
        },
{
    if log_client_ip {
        addr.to_text()
    } else {
        "redacted".to_owned()
    }
}

/// What a reload cannot change about the listeners: how many there are, and each
/// one's name, address and backlog.
pub open spec fn listener_keys(listeners: Seq<Listener>) -> Seq<(Seq<char>, SocketAddr, u32)> {
    listeners.map_values(|l: Listener| (l.name@, l.bind, l.backlog))
}

/// Whether a new configuration asks for other listeners.
pub fn listeners_changed(old_config: &Config, new_config: &Config) -> (changed: bool)
    ensures
        changed == (listener_keys(old_config.listeners@) != listener_keys(new_config.listeners@)),
{
    let a = &old_config.listeners;
    let b = &new_config.listeners;
    assert(listener_keys(a@).len() == a@.len() && listener_keys(b@).len() == b@.len());
    if a.len() != b.len() {
        return true;
    }
    let mut i: usize = 0;
    while i < a.len()
        invariant
            i <= a@.len(),
            a@.len() == b@.len(),
            *a == old_config.listeners,
            *b == new_config.listeners,
            forall|j: int|
                0 <= j < i ==> (#[trigger] listener_keys(a@)[j]) == listener_keys(b@)[j],
        decreases a@.len() - i,
    {
        if !same_text(a[i].name.as_str(), b[i].name.as_str()) || a[i].bind != b[i].bind
            || a[i].backlog != b[i].backlog {
            assert(listener_keys(a@)[i as int] != listener_keys(b@)[i as int]);
            return true;
        }
        i = i + 1;
    }
    assert(listener_keys(a@) =~= listener_keys(b@));
    false
}

/// The warnings of a reload: those of the new configuration, and one more where
/// it asks for other listeners.
pub open spec fn reload_complaints(
    old_config: Config,
    new_config: Config,
    warnings: Seq<Seq<char>>,
) -> Seq<Seq<char>> {
    if listener_keys(old_config.listeners@) != listener_keys(new_config.listeners@) {
        warnings.push("listener definitions changed; restart the gateway to apply them"@)
    } else {
        warnings
    }
}

/// The warnings of a reload. Listener changes are reported but not applied:
/// rebinding sockets would drop connections, which is the one thing a reload
/// must not do.
pub fn reload_warnings(old_config: &Config, new_config: &Config, warnings: Vec<String>) -> (all: Vec<
    String,
>)
    ensures
        texts(all@) == reload_complaints(*old_config, *new_config, texts(warnings@)),
{
    let mut all = warnings;
    if listeners_changed(old_config, new_config) {
        push_text(
            &mut all,
            "listener definitions changed; restart the gateway to apply them".to_owned(),
        );
    }
    all
}

/// Whether a server asks for something that only Linux can do.
pub open spec fn needs_linux(server: Server) -> bool {
    server.forwarding == Forwarding::Transparent
}

/// Why the servers of a configuration cannot be reached on this platform: the
/// first one by name that asks for more than it can do.
pub fn platform_error(config: &Config, linux: bool) -> (error: Option<String>)
    ensures
        ({
            let servers = servers_by_name(config.servers@);
            match error {
                None => linux || forall|i: int|
                    0 <= i < servers.len() ==> !needs_linux((#[trigger] servers[i]).1),
                Some(text) => !linux && exists|i: int|
                    0 <= i < servers.len() && needs_linux((#[trigger] servers[i]).1) && (forall|
                        j: int,
                    |
                        0 <= j < i ==> !needs_linux((#[trigger] servers[j]).1)) && text@
                        == "server `"@ + servers[i].0@ + "`: "@
                        + "transparent forwarding requires Linux TPROXY"@ + ""@,
            }
        }),
{
    if linux {
        return None;
    }
    let servers = &config.servers;
    let order = config.server_order();
    let ghost sorted = servers_by_name(servers@);
    assert(sorted.len() == order@.len());
    assert(forall|k: int|
        0 <= k < order@.len() ==> (#[trigger] sorted[k]) == servers@[order@[k] as int]);
    let mut i: usize = 0;
    while i < order.len()
        invariant
            i <= order@.len(),
            *servers == config.servers,
            !linux,
            sorted == servers_by_name(config.servers@),
            sorted.len() == order@.len(),
            forall|k: int|
                0 <= k < order@.len() ==> (#[trigger] sorted[k]) == servers@[order@[k] as int],
            forall|k: int| 0 <= k < order@.len() ==> (#[trigger] order@[k]) < servers@.len(),
            forall|j: int| 0 <= j < i ==> !needs_linux((#[trigger] sorted[j]).1),
        decreases order@.len() - i,
    {
        let m: usize = order[i];
        assert(sorted[i as int] == servers@[m as int]);
        if servers[m].1.forwarding == Forwarding::Transparent {
            let text = glue5(
                "server `",
                servers[m].0.as_str(),
                "`: ",
                "transparent forwarding requires Linux TPROXY",
                "",
            );
            assert(needs_linux(sorted[i as int].1));
            return Some(text);
        }
        i = i + 1;
    }
    None
}

/// What a reload answers: the new routing state and its warnings, or why the
/// running configuration stays. Health and session counts carry over, and the
/// new limits are in force; a file that cannot be read, parsed or accepted
/// changes nothing.
pub fn reload(
    previous: &Registry,
    limiter: &mut Limiter,
    loaded: Result<Loaded, ConfigError>,
) -> (r: Result<(Registry, Vec<String>), String>)
    requires
        old(limiter).wf(),
        loaded is Ok ==> loaded->Ok_0.config.limits.wf(),
    ensures
        final(limiter).wf(),
        match loaded {
            Ok(loaded) => {
                let config = loaded.config;
                &&& r is Ok
                &&& r->Ok_0.0.wf()
                &&& r->Ok_0.0.configuration() == config
                &&& r->Ok_0.0.backend_values() == reloaded_backends(
                    config,
                    previous.backend_values(),
                )
                &&& r->Ok_0.0.rules() == rule_values(config.routing.rules@)
                &&& r->Ok_0.0.default_target() == opt_text(config.routing.default)
                &&& texts(r->Ok_0.1@) == reload_complaints(
                    previous.configuration(),
                    config,
                    texts(loaded.warnings@),
                )
                &&& same_limits(final(limiter).limits(), config.limits)
                &&& final(limiter).occupancy() == old(limiter).occupancy()
            },
            Err(error) => {
                &&& r is Err
                &&& r->Err_0@ == error_text(error)
                &&& *final(limiter) == *old(limiter)
            },
        },
{
    match loaded {
        Ok(loaded) => {
            let warnings = reload_warnings(previous.config(), &loaded.config, loaded.warnings);
            limiter.set_limits(loaded.config.limits.copy());
            let registry = Registry::build_inheriting(Arc::new(loaded.config), Some(previous));
            Ok((registry, warnings))
        },
        Err(error) => Err(error.to_text()),
    }
}

/// A reload asks for a restart exactly where the number of listeners changed, or
/// the name, the address or the backlog of one of them; the warnings of the new
/// configuration stay in front.
pub proof fn changed_listeners_ask_for_a_restart(
    before: Config,
    after: Config,
    warnings: Seq<Seq<char>>,
)
    ensures
        ({
            let a = before.listeners@;
            let b = after.listeners@;
            let same = a.len() == b.len() && forall|i: int|
                0 <= i < a.len() ==> (#[trigger] a[i]).name@ == b[i].name@ && a[i].bind
                    == b[i].bind && a[i].backlog == b[i].backlog;
            reload_complaints(before, after, warnings) == if same {
                warnings
            } else {
                warnings.push("listener definitions changed; restart the gateway to apply them"@)
            }
        }),
{
    let a = before.listeners@;
    let b = after.listeners@;
    let x = listener_keys(a);
    let y = listener_keys(b);
    assert(x.len() == a.len() && y.len() == b.len());
    if x == y {
        assert forall|i: int| 0 <= i < a.len() implies (#[trigger] a[i]).name@ == b[i].name@
            && a[i].bind == b[i].bind && a[i].backlog == b[i].backlog by {
            assert(x[i] == y[i]);
        }
    } else if a.len() == b.len() && (forall|i: int|
        0 <= i < a.len() ==> (#[trigger] a[i]).name@ == b[i].name@ && a[i].bind == b[i].bind
            && a[i].backlog == b[i].backlog) {
        assert(x =~= y) by {
            assert forall|i: int| 0 <= i < a.len() implies x[i] == y[i] by {
                assert(a[i].name@ == b[i].name@);
            }
        }
    }
}

/// Only transparent forwarding needs Linux.
pub proof fn only_transparent_forwarding_needs_linux(server: Server)
    ensures
        server.forwarding == Forwarding::Transparent ==> needs_linux(server),
        server.forwarding == Forwarding::Plain ==> !needs_linux(server),
        server.forwarding == Forwarding::ProxyProtocolV2 ==> !needs_linux(server),
{
}

} // verus!
