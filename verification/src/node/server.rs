//! What a reload of a node changes, and what it cannot.

use std::sync::Arc;

use vstd::prelude::*;

use crate::config::intercept::PortRange;
use crate::config::validate::{error_text, ConfigError};
use crate::node::config::{Config, Loaded};
use crate::text::{push_text, texts};

verus! {

/// Whether two configurations ask for the same ports and listen addresses, which
/// are baked into the firewall rules.
pub open spec fn same_sockets(a: Config, b: Config) -> bool {
    a.ports@ == b.ports@ && a.listen == b.listen && a.listen_v6 == b.listen_v6
}

fn same_ports(a: &Vec<PortRange>, b: &Vec<PortRange>) -> (same: bool)
    ensures
        same == (a@ == b@),
{
    if a.len() != b.len() {
        return false;
    }
    let mut i: usize = 0;
    while i < a.len()
        invariant
            i <= a@.len(),
            a@.len() == b@.len(),
            forall|j: int| 0 <= j < i ==> a@[j] == b@[j],
        decreases a@.len() - i,
    {
        if a[i] != b[i] {
            return false;
        }
        i = i + 1;
    }
    assert(a@ =~= b@);
    true
}

/// The warnings of a reload: those of the new configuration, and one more where
/// its sockets are not the ones in use.
pub open spec fn reload_complaints(
    current: Config,
    new_config: Config,
    warnings: Seq<Seq<char>>,
) -> Seq<Seq<char>> {
    if same_sockets(current, new_config) {
        warnings
    } else {
        warnings.push("ports or listen addresses changed; restart to apply them"@)
    }
}

/// The warnings of a reload. The MOTD lines, timeouts and log settings take
/// effect for new connections; ports and listen addresses need a restart.
pub fn reload_warnings(current: &Config, new_config: &Config, warnings: Vec<String>) -> (all: Vec<
    String,
>)
    ensures
        texts(all@) == reload_complaints(*current, *new_config, texts(warnings@)),
{
    let mut all = warnings;
    let same_v6: bool = match (current.listen_v6, new_config.listen_v6) {
        (Some(a), Some(b)) => a == b,
        (None, None) => true,
        _ => false,
    };
    if !same_ports(&current.ports, &new_config.ports) || current.listen != new_config.listen
        || !same_v6 {
        push_text(
            &mut all,
            "ports or listen addresses changed; restart to apply them".to_owned(),
        );
    }
    all
}

/// What a reload leaves in force, and what it answers. A file that cannot be
/// read, parsed or accepted leaves the running configuration in place.
pub fn reload(current: Arc<Config>, loaded: Result<Loaded, ConfigError>) -> (r: (
    Arc<Config>,
    Result<Vec<String>, String>,
))
    ensures
        match loaded {
            Ok(loaded) => {
                &&& *r.0 == loaded.config
                &&& r.1 is Ok
                &&& texts(r.1->Ok_0@) == reload_complaints(
                    *current,
                    loaded.config,
                    texts(loaded.warnings@),
                )
            },
            Err(error) => r.0 == current && r.1 is Err && r.1->Err_0@ == error_text(error),
        },
{
    match loaded {
        Ok(loaded) => {
            let warnings = reload_warnings(&current, &loaded.config, loaded.warnings);
            (Arc::new(loaded.config), Ok(warnings))
        },
        Err(error) => (current, Err(error.to_text())),
    }
}

/// A reload asks for a restart exactly where a range of ports or a listen
/// address is not the one in use; the warnings of the new configuration stay in
/// front.
pub proof fn changed_sockets_ask_for_a_restart(
    current: Config,
    new_config: Config,
    warnings: Seq<Seq<char>>,
)
    ensures
        ({
            let a = current.ports@;
            let b = new_config.ports@;
            let same = a.len() == b.len() && (forall|i: int|
                0 <= i < a.len() ==> (#[trigger] a[i]).start == b[i].start && a[i].end == b[i].end)
                && current.listen == new_config.listen && current.listen_v6
                == new_config.listen_v6;
            reload_complaints(current, new_config, warnings) == if same {
                warnings
            } else {
                warnings.push("ports or listen addresses changed; restart to apply them"@)
            }
        }),
{
    let a = current.ports@;
    let b = new_config.ports@;
    if a.len() == b.len() && (forall|i: int|
        0 <= i < a.len() ==> (#[trigger] a[i]).start == b[i].start && a[i].end == b[i].end) {
        assert(a =~= b) by {
            assert forall|i: int| 0 <= i < a.len() implies a[i] == b[i] by {
                assert(a[i].start == b[i].start);
            }
        }
    }
}

} // verus!
