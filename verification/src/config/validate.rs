//! Validation of a configuration.
//!
//! Validation is split in two: hard errors that stop start-up, and warnings for
//! combinations that parse fine but are almost certainly not what was meant
//! (a group nothing routes to, a server no route can reach).

use vstd::prelude::*;
use vstd::string::StringExecFns;

use crate::config::hosts::{address_error, pattern_error, validate_address, validate_host_pattern};
use crate::config::intercept::{covered, range_text, Intercept, PortRange};
use crate::config::model::{
    ascending, group_names, server_names, Config, Group, Listener, Rule, Server,
};
use crate::net::{socket_text, IpAddr};
use crate::order::{arranged, as_places, name_order, names_are_ordered, slices, sort_names};
use crate::text::{
    comes_before, decimal, decimal_text, glue3, glue5, lemma_text_less_trans, lemma_text_order,
    lower, opt_text, opt_texts, push_text, same_chars, same_text, same_texts, text_less, texts,
    to_chars, to_lower,
};
use crate::time::span_text;

verus! {

/// Why a configuration cannot be used.
#[derive(Debug, Clone, PartialEq, Eq)]
pub enum ConfigError {
    /// The file cannot be read.
    Io { path: String, reason: String },
    /// The file is not a configuration.
    Parse { path: String, reason: String },
    /// The configuration contradicts itself.
    Invalid(Vec<String>),
}

/// The first `n` messages, one to a line.
pub open spec fn bulleted(messages: Seq<Seq<char>>, n: nat) -> Seq<char>
    decreases n,
{
    if n == 0 || n > messages.len() {
        Seq::empty()
    } else {
        bulleted(messages, (n - 1) as nat) + "\n  - "@ + messages[n - 1]
    }
}

/// An error in words.
pub open spec fn error_text(error: ConfigError) -> Seq<char> {
    match error {
        ConfigError::Io { path, reason } => "cannot read "@ + path@ + ": "@ + reason@ + ""@,
        ConfigError::Parse { path, reason } => "cannot parse "@ + path@ + ": "@ + reason@ + ""@,
        ConfigError::Invalid(messages) => "invalid configuration:"@ + bulleted(
            texts(messages@),
            messages@.len(),
        ),
    }
}

impl ConfigError {
    /// The error in words.
    pub fn to_text(&self) -> (text: String)
        ensures
            text@ == error_text(*self),
    {
        match self {
            ConfigError::Io { path, reason } => glue5(
                "cannot read ",
                path.as_str(),
                ": ",
                reason.as_str(),
                "",
            ),
            ConfigError::Parse { path, reason } => glue5(
                "cannot parse ",
                path.as_str(),
                ": ",
                reason.as_str(),
                "",
            ),
            ConfigError::Invalid(messages) => {
                let mut text = String::new();
                text.append("invalid configuration:");
                let mut i: usize = 0;
                assert(text@ =~= "invalid configuration:"@ + bulleted(texts(messages@), 0));
                while i < messages.len()
                    invariant
                        i <= messages@.len(),
                        text@ == "invalid configuration:"@ + bulleted(texts(messages@), i as nat),
                    decreases messages@.len() - i,
                {
                    text.append("\n  - ");
                    text.append(messages[i].as_str());
                    i = i + 1;
                    assert(text@ =~= "invalid configuration:"@ + bulleted(
                        texts(messages@),
                        i as nat,
                    ));
                }
                text
            },
        }
    }
}

/// A parsed configuration together with any non-fatal complaints.
#[derive(Debug, Clone)]
pub struct Loaded {
    pub config: Config,
    pub warnings: Vec<String>,
}

/// One message where `wrong` holds, else none.
pub open spec fn said_if(wrong: bool, message: Seq<char>) -> Seq<Seq<char>> {
    if wrong {
        seq![message]
    } else {
        Seq::empty()
    }
}

fn push_if(list: &mut Vec<String>, wrong: bool, message: &str)
    ensures
        texts(final(list)@) == texts(old(list)@) + said_if(wrong, message@),
{
    if wrong {
        push_text(list, message.to_owned());
    }
    assert(texts(list@) =~= texts(old(list)@) + said_if(wrong, message@));
}

// ------------------------------------------------------------------ targets --

/// The first `n` servers that belong to a group.
pub open spec fn group_members(
    servers: Seq<(String, Server)>,
    group: Seq<char>,
    n: nat,
) -> Seq<Seq<char>>
    decreases n,
{
    if n == 0 || n > servers.len() {
        Seq::empty()
    } else {
        let before = group_members(servers, group, (n - 1) as nat);
        if opt_text(servers[n - 1].1.group) == Some(group) {
            before.push(servers[n - 1].0@)
        } else {
            before
        }
    }
}

/// The servers that a target stands for: one server, or the members of a group.
pub open spec fn members(servers: Seq<(String, Server)>, target: Seq<char>) -> Seq<Seq<char>> {
    if server_names(servers).contains(target) {
        seq![target]
    } else {
        group_members(servers, target, servers.len())
    }
}

/// Servers in the order of their names.
pub open spec fn servers_by_name(servers: Seq<(String, Server)>) -> Seq<(String, Server)> {
    arranged(servers, name_order(server_names(servers)))
}

/// Groups in the order of their names.
pub open spec fn groups_by_name(groups: Seq<(String, Group)>) -> Seq<(String, Group)> {
    arranged(groups, name_order(group_names(groups)))
}

/// Whether some server says that it belongs to this group.
pub open spec fn has_member(servers: Seq<(String, Server)>, group: Seq<char>) -> bool {
    exists|i: int| 0 <= i < servers.len() && opt_text((#[trigger] servers[i]).1.group) == Some(group)
}

/// Whether a route may point at this name: every server and every group.
pub open spec fn is_target(config: Config, name: Seq<char>) -> bool {
    ||| server_names(config.servers@).contains(name)
    ||| group_names(config.groups@).contains(name)
    ||| has_member(config.servers@, name)
}

/// Adds a name to an ordered list of names, unless it is there already.
fn insert_name<'a>(names: &mut Vec<&'a str>, name: &'a str)
    requires
        ascending(slices(old(names)@)),
    ensures
        ascending(slices(final(names)@)),
        forall|text: Seq<char>|
            slices(final(names)@).contains(text) == (slices(old(names)@).contains(text) || text
                == name@),
{
    let ghost before = slices(names@);
    let mut i: usize = 0;
    while i < names.len() && comes_before(names[i], name)
        invariant
            i <= names@.len(),
            before == slices(names@),
            *names == *old(names),
            forall|j: int| 0 <= j < i ==> text_less(#[trigger] before[j], name@),
        decreases names@.len() - i,
    {
        assert(before[i as int] == names@[i as int]@);
        i = i + 1;
    }
    if i < names.len() && same_text(names[i], name) {
        assert(before[i as int] == name@);
        return;
    }
    names.insert(i, name);
    proof {
        let after = slices(names@);
        assert(after =~= before.insert(i as int, name@));
        if i < before.len() {
            assert(before[i as int] == old(names)@[i as int]@);
            lemma_text_order(before[i as int], name@);
        }
        assert forall|j: int, k: int| 0 <= j < k < after.len() implies text_less(
            after[j],
            after[k],
        ) by {
            if j == i {
                if k > i + 1 {
                    lemma_text_less_trans(name@, before[i as int], before[k - 1]);
                }
            } else if k == i {
            } else {
                let a = if j < i {
                    j
                } else {
                    j - 1
                };
                let b = if k < i {
                    k
                } else {
                    k - 1
                };
                assert(after[j] == before[a]);
                assert(after[k] == before[b]);
            }
        }
        assert forall|text: Seq<char>|
            after.contains(text) == (before.contains(text) || text == name@) by {
            if before.contains(text) {
                let j = choose|j: int| 0 <= j < before.len() && before[j] == text;
                let k = if j < i {
                    j
                } else {
                    j + 1
                };
                assert(after[k] == text);
            }
            if text == name@ {
                assert(after[i as int] == text);
            }
            if after.contains(text) && text != name@ {
                let k = choose|k: int| 0 <= k < after.len() && after[k] == text;
                let j = if k < i {
                    k
                } else {
                    k - 1
                };
                assert(before[j] == text);
            }
        }
    }
}

/// Whether `name` stands in a list of names.
fn lists_name(names: &Vec<&str>, name: &str) -> (yes: bool)
    ensures
        yes == slices(names@).contains(name@),
{
    let mut i: usize = 0;
    while i < names.len()
        invariant
            i <= names@.len(),
            forall|j: int| 0 <= j < i ==> (#[trigger] names@[j])@ != name@,
        decreases names@.len() - i,
    {
        if same_text(names[i], name) {
            assert(slices(names@)[i as int] == name@);
            return true;
        }
        i = i + 1;
    }
    false
}

fn is_group(group: &Option<String>, name: &str) -> (yes: bool)
    ensures
        yes == (opt_text(*group) == Some(name@)),
{
    match group {
        Some(group) => same_text(group.as_str(), name),
        None => false,
    }
}

impl Config {
    /// Names a route may point at: every server and every group.
    pub fn target_names(&self) -> (names: Vec<&str>)
        ensures
            ascending(slices(names@)),
            forall|name: Seq<char>| slices(names@).contains(name) == is_target(*self, name),
    {
        let mut names: Vec<&str> = Vec::new();
        let servers = &self.servers;
        let groups = &self.groups;
        let ghost server_list = server_names(servers@);
        let ghost group_list = group_names(groups@);
        let mut i: usize = 0;
        while i < servers.len()
            invariant
                i <= servers@.len(),
                *servers == self.servers,
                server_list == server_names(servers@),
                ascending(slices(names@)),
                forall|name: Seq<char>|
                    slices(names@).contains(name) == (server_list.take(i as int).contains(name) || (
                    exists|j: int|
                        0 <= j < i && opt_text((#[trigger] servers@[j]).1.group) == Some(name))),
            decreases servers@.len() - i,
        {
            let ghost old_names = slices(names@);
            insert_name(&mut names, servers[i].0.as_str());
            let ghost with_server = slices(names@);
            if let Some(group) = &servers[i].1.group {
                insert_name(&mut names, group.as_str());
            }
            proof {
                let done = server_list.take(i as int);
                let more = server_list.take(i + 1);
                assert(more =~= done.push(server_list[i as int]));
                assert forall|name: Seq<char>|
                    slices(names@).contains(name) == (more.contains(name) || (exists|j: int|
                        0 <= j < i + 1 && opt_text((#[trigger] servers@[j]).1.group) == Some(
                            name,
                        ))) by {
                    if done.contains(name) {
                        let k = choose|k: int| 0 <= k < done.len() && done[k] == name;
                        assert(more[k] == name);
                    }
                    if name == servers@[i as int].0@ {
                        assert(more[i as int] == name);
                    }
                    if more.contains(name) && name != servers@[i as int].0@ {
                        let k = choose|k: int| 0 <= k < more.len() && more[k] == name;
                        assert(done[k] == name);
                    }
                    if opt_text(servers@[i as int].1.group) == Some(name) {
                        assert(slices(names@).contains(name));
                    }
                }
            }
            i = i + 1;
        }
        proof {
            assert(server_list.take(i as int) =~= server_list);
            assert(forall|name: Seq<char>|
                slices(names@).contains(name) == (server_list.contains(name) || has_member(
                    servers@,
                    name,
                )));
        }
        let mut k: usize = 0;
        while k < groups.len()
            invariant
                k <= groups@.len(),
                *groups == self.groups,
                *servers == self.servers,
                server_list == server_names(servers@),
                group_list == group_names(groups@),
                ascending(slices(names@)),
                forall|name: Seq<char>|
                    slices(names@).contains(name) == (server_list.contains(name)
                        || group_list.take(k as int).contains(name) || has_member(servers@, name)),
            decreases groups@.len() - k,
        {
            let ghost before = slices(names@);
            insert_name(&mut names, groups[k].0.as_str());
            proof {
                let done = group_list.take(k as int);
                let more = group_list.take(k + 1);
                assert(more =~= done.push(group_list[k as int]));
                assert forall|name: Seq<char>|
                    more.contains(name) == (done.contains(name) || name == groups@[k as int].0@) by {
                    if done.contains(name) {
                        let j = choose|j: int| 0 <= j < done.len() && done[j] == name;
                        assert(more[j] == name);
                    }
                    if name == groups@[k as int].0@ {
                        assert(more[k as int] == name);
                    }
                    if more.contains(name) && name != groups@[k as int].0@ {
                        let j = choose|j: int| 0 <= j < more.len() && more[j] == name;
                        assert(done[j] == name);
                    }
                }
                assert forall|name: Seq<char>|
                    slices(names@).contains(name) == (server_list.contains(name) || more.contains(
                        name,
                    ) || has_member(servers@, name)) by {
                    assert(slices(names@).contains(name) == (before.contains(name) || name
                        == groups@[k as int].0@));
                }
            }
            k = k + 1;
        }
        proof {
            assert(group_list.take(k as int) =~= group_list);
            assert forall|name: Seq<char>|
                slices(names@).contains(name) == is_target(*self, name) by {
                assert(slices(names@).contains(name) == (server_list.contains(name)
                    || group_list.contains(name) || has_member(servers@, name)));
            }
        }
        names
    }

    /// The places of the servers in the order of their names.
    pub(crate) fn server_order(&self) -> (order: Vec<usize>)
        ensures
            arranged(self.servers@, as_places(order@)) == servers_by_name(self.servers@),
            forall|k: int| 0 <= k < order@.len() ==> (#[trigger] order@[k]) < self.servers@.len(),
            order@.len() == self.servers@.len(),
    {
        let servers = &self.servers;
        let mut names: Vec<&str> = Vec::new();
        let mut i: usize = 0;
        while i < servers.len()
            invariant
                i <= servers@.len(),
                *servers == self.servers,
                names@.len() == i,
                forall|k: int| 0 <= k < i ==> (#[trigger] names@[k])@ == servers@[k].0@,
            decreases servers@.len() - i,
        {
            names.push(servers[i].0.as_str());
            i = i + 1;
        }
        assert(slices(names@) =~= server_names(servers@));
        sort_names(&names)
    }

    /// The places of the groups in the order of their names.
    fn group_order(&self) -> (order: Vec<usize>)
        ensures
            arranged(self.groups@, as_places(order@)) == groups_by_name(self.groups@),
            forall|k: int| 0 <= k < order@.len() ==> (#[trigger] order@[k]) < self.groups@.len(),
            order@.len() == self.groups@.len(),
    {
        let groups = &self.groups;
        let mut names: Vec<&str> = Vec::new();
        let mut i: usize = 0;
        while i < groups.len()
            invariant
                i <= groups@.len(),
                *groups == self.groups,
                names@.len() == i,
                forall|k: int| 0 <= k < i ==> (#[trigger] names@[k])@ == groups@[k].0@,
            decreases groups@.len() - i,
        {
            names.push(groups[i].0.as_str());
            i = i + 1;
        }
        assert(slices(names@) =~= group_names(groups@));
        sort_names(&names)
    }

    /// Servers belonging to `target`, which is either a server or a group name,
    /// in the order of their names.
    pub fn resolve_target(&self, target: &str) -> (names: Vec<&str>)
        ensures
            slices(names@) == members(servers_by_name(self.servers@), target@),
    {
        let servers = &self.servers;
        let order = self.server_order();
        let ghost sorted = servers_by_name(servers@);
        assert(sorted.len() == order@.len());
        assert(forall|k: int|
            0 <= k < order@.len() ==> (#[trigger] sorted[k]) == servers@[order@[k] as int]);
        let mut names: Vec<&str> = Vec::new();
        let mut i: usize = 0;
        while i < order.len()
            invariant
                i <= order@.len(),
                *servers == self.servers,
                sorted == servers_by_name(self.servers@),
                sorted.len() == order@.len(),
                forall|k: int|
                    0 <= k < order@.len() ==> (#[trigger] sorted[k]) == servers@[order@[k] as int],
                forall|k: int| 0 <= k < order@.len() ==> (#[trigger] order@[k]) < servers@.len(),
                names@.len() == 0,
                forall|j: int| 0 <= j < i ==> (#[trigger] sorted[j]).0@ != target@,
            decreases order@.len() - i,
        {
            let m: usize = order[i];
            assert(sorted[i as int] == servers@[m as int]);
            if same_text(servers[m].0.as_str(), target) {
                names.push(servers[m].0.as_str());
                proof {
                    assert(server_names(sorted)[i as int] == target@);
                    assert(slices(names@) =~= seq![target@]);
                }
                return names;
            }
            i = i + 1;
        }
        assert(!server_names(sorted).contains(target@)) by {
            if server_names(sorted).contains(target@) {
                let j = choose|j: int| 0 <= j < sorted.len() && server_names(sorted)[j] == target@;
                assert(sorted[j].0@ == target@);
            }
        }
        let mut k: usize = 0;
        assert(slices(names@) =~= group_members(sorted, target@, 0));
        while k < order.len()
            invariant
                k <= order@.len(),
                *servers == self.servers,
                sorted == servers_by_name(self.servers@),
                sorted.len() == order@.len(),
                forall|k: int|
                    0 <= k < order@.len() ==> (#[trigger] sorted[k]) == servers@[order@[k] as int],
                forall|k: int| 0 <= k < order@.len() ==> (#[trigger] order@[k]) < servers@.len(),
                slices(names@) == group_members(sorted, target@, k as nat),
            decreases order@.len() - k,
        {
            let m: usize = order[k];
            assert(sorted[k as int] == servers@[m as int]);
            if is_group(&servers[m].1.group, target) {
                let ghost before = slices(names@);
                names.push(servers[m].0.as_str());
                assert(slices(names@) =~= before.push(sorted[k as int].0@));
            }
            k = k + 1;
        }
        names
    }

    /// Servers belonging to `target`, which is either a server or a group name,
    /// in the order in which they were declared.
    pub fn declared_members(&self, target: &str) -> (names: Vec<&str>)
        ensures
            slices(names@) == members(self.servers@, target@),
    {
        let servers = &self.servers;
        let mut names: Vec<&str> = Vec::new();
        let mut i: usize = 0;
        while i < servers.len()
            invariant
                i <= servers@.len(),
                *servers == self.servers,
                names@.len() == 0,
                forall|j: int| 0 <= j < i ==> (#[trigger] servers@[j]).0@ != target@,
            decreases servers@.len() - i,
        {
            if same_text(servers[i].0.as_str(), target) {
                names.push(servers[i].0.as_str());
                proof {
                    assert(server_names(servers@)[i as int] == target@);
                    assert(slices(names@) =~= seq![target@]);
                }
                return names;
            }
            i = i + 1;
        }
        assert(!server_names(servers@).contains(target@)) by {
            if server_names(servers@).contains(target@) {
                let j = choose|j: int|
                    0 <= j < servers@.len() && server_names(servers@)[j] == target@;
                assert(servers@[j].0@ == target@);
            }
        }
        let mut k: usize = 0;
        assert(slices(names@) =~= group_members(servers@, target@, 0));
        while k < servers.len()
            invariant
                k <= servers@.len(),
                *servers == self.servers,
                slices(names@) == group_members(servers@, target@, k as nat),
            decreases servers@.len() - k,
        {
            if is_group(&servers[k].1.group, target) {
                let ghost before = slices(names@);
                names.push(servers[k].0.as_str());
                assert(slices(names@) =~= before.push(servers@[k as int].0@));
            }
            k = k + 1;
        }
        names
    }
}

// ------------------------------------------------------------- interception --

/// The complaint about a listener whose own port is taken over.
pub open spec fn looping(field: Seq<char>, port: u16) -> Seq<char> {
    "intercept."@ + field + " port "@ + decimal(port as nat)
        + " lies inside intercept.ports; connections would be handed back to the gateway in a loop"@
}

/// The first `n` listeners whose port is taken over.
pub open spec fn taken_over(listeners: Seq<Listener>, ports: Seq<PortRange>, n: nat) -> Seq<
    Seq<char>,
>
    decreases n,
{
    if n == 0 || n > listeners.len() {
        Seq::empty()
    } else {
        let listener = listeners[n - 1];
        taken_over(listeners, ports, (n - 1) as nat) + said_if(
            covered(ports, listener.bind.port),
            "listener `"@ + listener.name@ + "` binds port "@ + decimal(listener.bind.port as nat)
                + ", which intercept.ports takes over"@,
        )
    }
}

/// The overlaps of range `i` with those between it and range `n`.
pub open spec fn overlap_row(prefix: Seq<char>, ports: Seq<PortRange>, i: int, n: int) -> Seq<
    Seq<char>,
>
    decreases n - i,
{
    if n <= i + 1 || n > ports.len() || i < 0 {
        Seq::empty()
    } else {
        overlap_row(prefix, ports, i, n - 1) + said_if(
            ports[i].meets(ports[n - 1]),
            prefix + " `"@ + range_text(ports[i]) + "` and `"@ + (range_text(ports[n - 1])
                + "` overlap"@),
        )
    }
}

/// The overlaps of the first `n` ranges with those behind them.
pub open spec fn overlaps(prefix: Seq<char>, ports: Seq<PortRange>, n: nat) -> Seq<Seq<char>>
    decreases n,
{
    if n == 0 || n > ports.len() {
        Seq::empty()
    } else {
        overlaps(prefix, ports, (n - 1) as nat) + overlap_row(
            prefix,
            ports,
            n - 1,
            ports.len() as int,
        )
    }
}

/// What is wrong with the interception settings.
pub open spec fn intercept_errors(config: Config) -> Seq<Seq<char>> {
    match config.intercept {
        None => Seq::empty(),
        Some(intercept) => {
            let ports = intercept.ports@;
            let v6 = match intercept.listen_v6 {
                Some(listen) => said_if(
                    !(listen.ip is V6),
                    "intercept.listen_v6 must be an IPv6 address"@,
                ) + said_if(covered(ports, listen.port), looping("listen_v6"@, listen.port)),
                None => Seq::empty(),
            };
            said_if(ports.len() == 0, "intercept.ports is empty"@) + said_if(
                covered(ports, intercept.listen.port),
                looping("listen"@, intercept.listen.port),
            ) + said_if(!(intercept.listen.ip is V4), "intercept.listen must be an IPv4 address"@) + v6
                + taken_over(config.listeners@, ports, config.listeners@.len())
        },
    }
}

/// What looks unintended about the interception settings.
pub open spec fn intercept_warnings(config: Config, linux: bool) -> Seq<Seq<char>> {
    match config.intercept {
        None => Seq::empty(),
        Some(intercept) => overlaps(
            "intercept.ports"@,
            intercept.ports@,
            intercept.ports@.len(),
        ) + said_if(
            config.motd@.line1 is None && config.motd@.line2 is None,
            "intercept is configured but motd.line1/line2 are not: every connection is passed through untouched"@,
        ) + said_if(
            !linux,
            "intercept needs Linux TPROXY; this build can validate the config but not run it"@,
        ),
    }
}

/// Appends a message for each pair of ranges that overlap.
pub(crate) fn push_overlaps(list: &mut Vec<String>, prefix: &str, ports: &Vec<PortRange>)
    ensures
        texts(final(list)@) == texts(old(list)@) + overlaps(prefix@, ports@, ports@.len()),
{
    let ghost start = texts(list@);
    let mut i: usize = 0;
    assert(texts(list@) =~= start + overlaps(prefix@, ports@, 0));
    while i < ports.len()
        invariant
            i <= ports@.len(),
            texts(list@) == start + overlaps(prefix@, ports@, i as nat),
        decreases ports@.len() - i,
    {
        let ghost row_start = texts(list@);
        let mut k: usize = i + 1;
        assert(texts(list@) =~= row_start + overlap_row(prefix@, ports@, i as int, k as int));
        while k < ports.len()
            invariant
                i < k <= ports@.len(),
                texts(list@) == row_start + overlap_row(prefix@, ports@, i as int, k as int),
            decreases ports@.len() - k,
        {
            let ghost before = texts(list@);
            if ports[i].overlaps(&ports[k]) {
                let second = glue3(ports[k].to_text().as_str(), "` overlap", "");
                let message = glue5(
                    prefix,
                    " `",
                    ports[i].to_text().as_str(),
                    "` and `",
                    second.as_str(),
                );
                assert(second@ =~= range_text(ports@[k as int]) + "` overlap"@) by {
                    reveal_strlit("");
                }
                push_text(list, message);
            }
            k = k + 1;
            assert(texts(list@) =~= row_start + overlap_row(prefix@, ports@, i as int, k as int));
        }
        i = i + 1;
        assert(texts(list@) =~= start + overlaps(prefix@, ports@, i as nat));
    }
}

/// The complaints about one address that intercepted connections arrive at.
fn push_looping(errors: &mut Vec<String>, intercept: &Intercept, field: &str, port: u16)
    ensures
        texts(final(errors)@) == texts(old(errors)@) + said_if(
            covered(intercept.ports@, port),
            looping(field@, port),
        ),
{
    if intercept.covers(port) {
        let message = glue5(
            "intercept.",
            field,
            " port ",
            decimal_text(port as u128).as_str(),
            " lies inside intercept.ports; connections would be handed back to the gateway in a loop",
        );
        push_text(errors, message);
    }
    assert(texts(errors@) =~= texts(old(errors)@) + said_if(
        covered(intercept.ports@, port),
        looping(field@, port),
    ));
}

/// The complaints about listeners whose port is taken over.
fn push_taken_over(errors: &mut Vec<String>, listeners: &Vec<Listener>, intercept: &Intercept)
    ensures
        texts(final(errors)@) == texts(old(errors)@) + taken_over(
            listeners@,
            intercept.ports@,
            listeners@.len(),
        ),
{
    let ghost start = texts(errors@);
    let ghost ports = intercept.ports@;
    let mut i: usize = 0;
    assert(texts(errors@) =~= start + taken_over(listeners@, ports, 0));
    while i < listeners.len()
        invariant
            i <= listeners@.len(),
            ports == intercept.ports@,
            texts(errors@) == start + taken_over(listeners@, ports, i as nat),
        decreases listeners@.len() - i,
    {
        let port: u16 = listeners[i].bind.port;
        if intercept.covers(port) {
            let message = glue5(
                "listener `",
                listeners[i].name.as_str(),
                "` binds port ",
                decimal_text(port as u128).as_str(),
                ", which intercept.ports takes over",
            );
            push_text(errors, message);
        }
        i = i + 1;
        assert(texts(errors@) =~= start + taken_over(listeners@, ports, i as nat));
    }
}

/// The complaints about the interception settings.
#[verifier::rlimit(40)]
fn push_intercept_errors(errors: &mut Vec<String>, config: &Config, intercept: &Intercept)
    requires
        config.intercept == Some(*intercept),
    ensures
        texts(final(errors)@) == texts(old(errors)@) + intercept_errors(*config),
{
    let ghost start = texts(errors@);
    push_if(errors, intercept.ports.len() == 0, "intercept.ports is empty");
    push_looping(errors, intercept, "listen", intercept.listen.port);
    push_if(
        errors,
        !intercept.listen.ip.is_ipv4(),
        "intercept.listen must be an IPv4 address",
    );
    let ghost before = texts(errors@);
    let ghost mut v6 = Seq::<Seq<char>>::empty();
    if let Some(listen_v6) = intercept.listen_v6 {
        push_if(
            errors,
            !listen_v6.ip.is_ipv6(),
            "intercept.listen_v6 must be an IPv6 address",
        );
        push_looping(errors, intercept, "listen_v6", listen_v6.port);
        proof {
            v6 = said_if(
                !(listen_v6.ip is V6),
                "intercept.listen_v6 must be an IPv6 address"@,
            ) + said_if(
                covered(intercept.ports@, listen_v6.port),
                looping("listen_v6"@, listen_v6.port),
            );
        }
    }
    assert(texts(errors@) =~= before + v6);
    push_taken_over(errors, &config.listeners, intercept);
    assert(texts(errors@) =~= start + intercept_errors(*config));
}

/// What looks unintended about the interception settings.
fn push_intercept_warnings(
    warnings: &mut Vec<String>,
    config: &Config,
    intercept: &Intercept,
    linux: bool,
)
    requires
        config.intercept == Some(*intercept),
    ensures
        texts(final(warnings)@) == texts(old(warnings)@) + intercept_warnings(*config, linux),
{
    let ghost start = texts(warnings@);
    push_overlaps(warnings, "intercept.ports", &intercept.ports);
    push_if(
        warnings,
        !config.motd.rewrites_anything(),
        "intercept is configured but motd.line1/line2 are not: every connection is passed through untouched",
    );
    push_if(
        warnings,
        !linux,
        "intercept needs Linux TPROXY; this build can validate the config but not run it",
    );
    assert(texts(warnings@) =~= start + intercept_warnings(*config, linux));
}

impl Config {
    fn validate_intercept(
        &self,
        linux: bool,
        errors: &mut Vec<String>,
        warnings: &mut Vec<String>,
    )
        ensures
            texts(final(errors)@) == texts(old(errors)@) + intercept_errors(*self),
            texts(final(warnings)@) == texts(old(warnings)@) + intercept_warnings(*self, linux),
    {
        match &self.intercept {
            Some(intercept) => {
                push_intercept_errors(errors, self, intercept);
                push_intercept_warnings(warnings, self, intercept, linux);
            },
            None => {
                assert(texts(errors@) =~= texts(errors@) + intercept_errors(*self));
                assert(texts(warnings@) =~= texts(warnings@) + intercept_warnings(*self, linux));
            },
        }
    }
}

// ---------------------------------------------------------------- listeners --

/// Whether an earlier listener has the same name.
pub open spec fn name_taken(listeners: Seq<Listener>, i: int) -> bool {
    exists|j: int| 0 <= j < i && (#[trigger] listeners[j]).name@ == listeners[i].name@
}

/// Whether an earlier listener has the same address.
pub open spec fn bind_taken(listeners: Seq<Listener>, i: int) -> bool {
    exists|j: int| 0 <= j < i && (#[trigger] listeners[j]).bind == listeners[i].bind
}

/// What is wrong with one listener.
///
/// Honouring a PROXY header from anyone lets any client claim any source IP,
/// defeating every per-IP limit and poisoning the logs.
pub open spec fn one_listener_errors(listeners: Seq<Listener>, i: int) -> Seq<Seq<char>> {
    let listener = listeners[i];
    said_if(listener.name@.len() == 0, "a listener has an empty name"@) + said_if(
        name_taken(listeners, i),
        "duplicate listener name `"@ + listener.name@ + "`"@,
    ) + said_if(
        bind_taken(listeners, i),
        "two listeners bind to "@ + socket_text(listener.bind) + ""@,
    ) + said_if(
        listener.proxy_protocol.enabled && listener.proxy_protocol.trusted.0@.len() == 0,
        "listener `"@ + listener.name@
            + "` enables inbound proxy_protocol without `trusted` networks; an untrusted peer could spoof any client IP"@,
    )
}

/// What is wrong with the first `n` listeners.
pub open spec fn each_listener_errors(listeners: Seq<Listener>, n: nat) -> Seq<Seq<char>>
    decreases n,
{
    if n == 0 || n > listeners.len() {
        Seq::empty()
    } else {
        each_listener_errors(listeners, (n - 1) as nat) + one_listener_errors(listeners, n - 1)
    }
}

/// What is wrong with the listeners.
pub open spec fn listener_errors(listeners: Seq<Listener>) -> Seq<Seq<char>> {
    said_if(listeners.len() == 0, "no listeners configured"@) + each_listener_errors(
        listeners,
        listeners.len(),
    )
}

/// What looks unintended about the first `n` listeners.
pub open spec fn listener_warnings(listeners: Seq<Listener>, n: nat) -> Seq<Seq<char>>
    decreases n,
{
    if n == 0 || n > listeners.len() {
        Seq::empty()
    } else {
        let listener = listeners[n - 1];
        listener_warnings(listeners, (n - 1) as nat) + said_if(
            listener.proxy_protocol.required && !listener.proxy_protocol.enabled,
            "listener `"@ + listener.name@
                + "` sets proxy_protocol.required but not proxy_protocol.enabled"@,
        )
    }
}

fn is_name_taken(listeners: &Vec<Listener>, i: usize) -> (yes: bool)
    requires
        i < listeners@.len(),
    ensures
        yes == name_taken(listeners@, i as int),
{
    let mut j: usize = 0;
    while j < i
        invariant
            j <= i < listeners@.len(),
            forall|k: int| 0 <= k < j ==> (#[trigger] listeners@[k]).name@ != listeners@[i as int].name@,
        decreases i - j,
    {
        if same_text(listeners[j].name.as_str(), listeners[i].name.as_str()) {
            return true;
        }
        j = j + 1;
    }
    false
}

fn is_bind_taken(listeners: &Vec<Listener>, i: usize) -> (yes: bool)
    requires
        i < listeners@.len(),
    ensures
        yes == bind_taken(listeners@, i as int),
{
    let mut j: usize = 0;
    while j < i
        invariant
            j <= i < listeners@.len(),
            forall|k: int| 0 <= k < j ==> (#[trigger] listeners@[k]).bind != listeners@[i as int].bind,
        decreases i - j,
    {
        if listeners[j].bind == listeners[i].bind {
            return true;
        }
        j = j + 1;
    }
    false
}

/// Appends the complaints about one listener.
fn push_listener(errors: &mut Vec<String>, listeners: &Vec<Listener>, i: usize)
    requires
        i < listeners@.len(),
    ensures
        texts(final(errors)@) == texts(old(errors)@) + one_listener_errors(listeners@, i as int),
{
    let listener = &listeners[i];
    push_if(errors, listener.name.as_str().is_empty(), "a listener has an empty name");
    let duplicate = glue3("duplicate listener name `", listener.name.as_str(), "`");
    push_if(errors, is_name_taken(listeners, i), duplicate.as_str());
    let twice = glue3("two listeners bind to ", listener.bind.to_text().as_str(), "");
    push_if(errors, is_bind_taken(listeners, i), twice.as_str());
    let open = glue3(
        "listener `",
        listener.name.as_str(),
        "` enables inbound proxy_protocol without `trusted` networks; an untrusted peer could spoof any client IP",
    );
    push_if(
        errors,
        listener.proxy_protocol.enabled && listener.proxy_protocol.trusted.is_empty(),
        open.as_str(),
    );
    assert(texts(errors@) =~= texts(old(errors)@) + one_listener_errors(listeners@, i as int));
}

impl Config {
    fn validate_listeners(&self, errors: &mut Vec<String>, warnings: &mut Vec<String>)
        ensures
            texts(final(errors)@) == texts(old(errors)@) + listener_errors(self.listeners@),
            texts(final(warnings)@) == texts(old(warnings)@) + listener_warnings(
                self.listeners@,
                self.listeners@.len(),
            ),
    {
        let listeners = &self.listeners;
        push_if(errors, listeners.len() == 0, "no listeners configured");
        let ghost start = texts(errors@);
        let ghost warn_start = texts(warnings@);
        let mut i: usize = 0;
        assert(texts(errors@) =~= start + each_listener_errors(listeners@, 0));
        assert(texts(warnings@) =~= warn_start + listener_warnings(listeners@, 0));
        while i < listeners.len()
            invariant
                i <= listeners@.len(),
                texts(errors@) == start + each_listener_errors(listeners@, i as nat),
                texts(warnings@) == warn_start + listener_warnings(listeners@, i as nat),
            decreases listeners@.len() - i,
        {
            push_listener(errors, listeners, i);
            let listener = &listeners[i];
            let pointless = glue3(
                "listener `",
                listener.name.as_str(),
                "` sets proxy_protocol.required but not proxy_protocol.enabled",
            );
            push_if(
                warnings,
                listener.proxy_protocol.required && !listener.proxy_protocol.enabled,
                pointless.as_str(),
            );
            i = i + 1;
            assert(texts(errors@) =~= start + each_listener_errors(listeners@, i as nat));
            assert(texts(warnings@) =~= warn_start + listener_warnings(listeners@, i as nat));
        }
        assert(texts(errors@) =~= texts(old(errors)@) + listener_errors(listeners@));
    }
}

// ------------------------------------------------------------------ routing --

/// The names of the listeners.
pub open spec fn listener_names(listeners: Seq<Listener>) -> Seq<Seq<char>> {
    listeners.map_values(|listener: Listener| listener.name@)
}

/// The first `n` names of a rule's listeners that do not exist.
pub open spec fn unknown_listeners(
    listeners: Seq<Listener>,
    host: Seq<char>,
    names: Seq<String>,
    n: nat,
) -> Seq<Seq<char>>
    decreases n,
{
    if n == 0 || n > names.len() {
        Seq::empty()
    } else {
        unknown_listeners(listeners, host, names, (n - 1) as nat) + said_if(
            !listener_names(listeners).contains(names[n - 1]@),
            "route `"@ + host + "` restricts to listener `"@ + names[n - 1]@
                + "`, which does not exist"@,
        )
    }
}

/// Whether an earlier rule has the same host, in any case, for the same
/// listeners.
pub open spec fn rule_repeated(rules: Seq<Rule>, i: int) -> bool {
    exists|j: int|
        0 <= j < i && lower((#[trigger] rules[j]).host@) == lower(rules[i].host@) && opt_texts(
            rules[j].listeners,
        ) == opt_texts(rules[i].listeners)
}

/// What is wrong with one rule.
pub open spec fn rule_errors(config: Config, rule: Rule) -> Seq<Seq<char>> {
    let host = rule.host@;
    let target = rule.target@;
    let pattern = match pattern_error(host) {
        Some(why) => seq!["route `"@ + host + "`: "@ + why + ""@],
        None => Seq::empty(),
    };
    let unknown = match rule.listeners {
        Some(names) => unknown_listeners(config.listeners@, host, names@, names@.len()),
        None => Seq::empty(),
    };
    pattern + said_if(
        !is_target(config, target),
        "route `"@ + host + "` points at `"@ + target + "`, which is not a server or group"@,
    ) + said_if(
        members(config.servers@, target).len() == 0,
        "route `"@ + host + "` points at group `"@ + target + "`, which has no members"@,
    ) + unknown
}

/// What is wrong with the first `n` rules.
pub open spec fn each_rule_errors(config: Config, n: nat) -> Seq<Seq<char>>
    decreases n,
{
    if n == 0 || n > config.routing.rules@.len() {
        Seq::empty()
    } else {
        each_rule_errors(config, (n - 1) as nat) + rule_errors(config, config.routing.rules@[n - 1])
    }
}

/// What looks unintended about the first `n` rules.
pub open spec fn rule_warnings(rules: Seq<Rule>, n: nat) -> Seq<Seq<char>>
    decreases n,
{
    if n == 0 || n > rules.len() {
        Seq::empty()
    } else {
        rule_warnings(rules, (n - 1) as nat) + said_if(
            rule_repeated(rules, n - 1),
            "route `"@ + rules[n - 1].host@ + "` is declared more than once; the first one wins"@,
        )
    }
}

/// What is wrong with the default target.
pub open spec fn default_errors(config: Config) -> Seq<Seq<char>> {
    match config.routing.default {
        None => Seq::empty(),
        Some(default) => if !is_target(config, default@) {
            seq!["routing.default `"@ + default@ + "` is not a server or group"@]
        } else {
            said_if(
                members(config.servers@, default@).len() == 0,
                "routing.default `"@ + default@ + "` is a group with no members"@,
            )
        },
    }
}

/// What is wrong with the routing.
pub open spec fn routing_errors(config: Config) -> Seq<Seq<char>> {
    said_if(
        config.routing.rules@.len() == 0 && config.routing.default is None,
        "routing has neither rules nor a default target"@,
    ) + default_errors(config) + each_rule_errors(config, config.routing.rules@.len())
}

/// What looks unintended about the routing.
pub open spec fn routing_warnings(config: Config) -> Seq<Seq<char>> {
    said_if(
        config.routing.default is None,
        "no routing.default: clients that send no hostname (pre-1.7 pings) are refused"@,
    ) + rule_warnings(config.routing.rules@, config.routing.rules@.len())
}

fn is_listener(listeners: &Vec<Listener>, name: &str) -> (yes: bool)
    ensures
        yes == listener_names(listeners@).contains(name@),
{
    let mut i: usize = 0;
    while i < listeners.len()
        invariant
            i <= listeners@.len(),
            forall|j: int| 0 <= j < i ==> (#[trigger] listeners@[j]).name@ != name@,
        decreases listeners@.len() - i,
    {
        if same_text(listeners[i].name.as_str(), name) {
            assert(listener_names(listeners@)[i as int] == name@);
            return true;
        }
        i = i + 1;
    }
    false
}

fn same_host(a: &str, b: &str) -> (same: bool)
    ensures
        same == (lower(a@) == lower(b@)),
{
    same_chars(
        to_lower(to_chars(a).as_slice()).as_slice(),
        to_lower(to_chars(b).as_slice()).as_slice(),
    )
}

fn same_restriction(a: &Option<Vec<String>>, b: &Option<Vec<String>>) -> (same: bool)
    ensures
        same == (opt_texts(*a) == opt_texts(*b)),
{
    match (a, b) {
        (Some(a), Some(b)) => same_texts(a, b),
        (None, None) => true,
        _ => false,
    }
}

fn is_rule_repeated(rules: &Vec<Rule>, i: usize) -> (yes: bool)
    requires
        i < rules@.len(),
    ensures
        yes == rule_repeated(rules@, i as int),
{
    let mut j: usize = 0;
    while j < i
        invariant
            j <= i < rules@.len(),
            forall|k: int|
                0 <= k < j ==> !(lower((#[trigger] rules@[k]).host@) == lower(
                    rules@[i as int].host@,
                ) && opt_texts(rules@[k].listeners) == opt_texts(rules@[i as int].listeners)),
        decreases i - j,
    {
        if same_host(rules[j].host.as_str(), rules[i].host.as_str()) && same_restriction(
            &rules[j].listeners,
            &rules[i].listeners,
        ) {
            return true;
        }
        j = j + 1;
    }
    false
}

/// Appends the complaints about the listeners that a rule names.
fn push_unknown_listeners(
    errors: &mut Vec<String>,
    listeners: &Vec<Listener>,
    host: &str,
    names: &Vec<String>,
)
    ensures
        texts(final(errors)@) == texts(old(errors)@) + unknown_listeners(
            listeners@,
            host@,
            names@,
            names@.len(),
        ),
{
    let ghost start = texts(errors@);
    let mut i: usize = 0;
    assert(texts(errors@) =~= start + unknown_listeners(listeners@, host@, names@, 0));
    while i < names.len()
        invariant
            i <= names@.len(),
            texts(errors@) == start + unknown_listeners(listeners@, host@, names@, i as nat),
        decreases names@.len() - i,
    {
        let message = glue5(
            "route `",
            host,
            "` restricts to listener `",
            names[i].as_str(),
            "`, which does not exist",
        );
        push_if(errors, !is_listener(listeners, names[i].as_str()), message.as_str());
        i = i + 1;
        assert(texts(errors@) =~= start + unknown_listeners(listeners@, host@, names@, i as nat));
    }
}

impl Config {
    /// Appends the complaints about one rule.
    #[verifier::rlimit(40)]
    fn validate_rule(&self, targets: &Vec<&str>, rule: &Rule, errors: &mut Vec<String>)
        requires
            forall|name: Seq<char>| slices(targets@).contains(name) == is_target(*self, name),
        ensures
            texts(final(errors)@) == texts(old(errors)@) + rule_errors(*self, *rule),
    {
        let host = rule.host.as_str();
        let target = rule.target.as_str();
        match validate_host_pattern(host) {
            Ok(()) => {},
            Err(why) => {
                push_text(errors, glue5("route `", host, "`: ", why.as_str(), ""));
            },
        }
        let nowhere = glue5(
            "route `",
            host,
            "` points at `",
            target,
            "`, which is not a server or group",
        );
        push_if(errors, !lists_name(targets, target), nowhere.as_str());
        let empty = glue5(
            "route `",
            host,
            "` points at group `",
            target,
            "`, which has no members",
        );
        let found = self.declared_members(target);
        assert(slices(found@).len() == found@.len());
        push_if(errors, found.len() == 0, empty.as_str());
        if let Some(names) = &rule.listeners {
            push_unknown_listeners(errors, &self.listeners, host, names);
        }
        assert(texts(errors@) =~= texts(old(errors)@) + rule_errors(*self, *rule));
    }

    fn validate_routing(&self, errors: &mut Vec<String>, warnings: &mut Vec<String>)
        ensures
            texts(final(errors)@) == texts(old(errors)@) + routing_errors(*self),
            texts(final(warnings)@) == texts(old(warnings)@) + routing_warnings(*self),
    {
        let targets = self.target_names();
        let rules = &self.routing.rules;
        push_if(
            errors,
            rules.len() == 0 && self.routing.default.is_none(),
            "routing has neither rules nor a default target",
        );
        match &self.routing.default {
            Some(default) => {
                if !lists_name(&targets, default.as_str()) {
                    push_text(
                        errors,
                        glue3("routing.default `", default.as_str(), "` is not a server or group"),
                    );
                } else {
                    let found = self.declared_members(default.as_str());
                    assert(slices(found@).len() == found@.len());
                    let message = glue3(
                        "routing.default `",
                        default.as_str(),
                        "` is a group with no members",
                    );
                    push_if(errors, found.len() == 0, message.as_str());
                }
            },
            None => {},
        }
        push_if(
            warnings,
            self.routing.default.is_none(),
            "no routing.default: clients that send no hostname (pre-1.7 pings) are refused",
        );
        let ghost start = texts(errors@);
        let ghost warn_start = texts(warnings@);
        assert(start =~= texts(old(errors)@) + said_if(
            rules@.len() == 0 && self.routing.default is None,
            "routing has neither rules nor a default target"@,
        ) + default_errors(*self));
        let mut i: usize = 0;
        assert(texts(errors@) =~= start + each_rule_errors(*self, 0));
        assert(texts(warnings@) =~= warn_start + rule_warnings(rules@, 0));
        while i < rules.len()
            invariant
                i <= rules@.len(),
                *rules == self.routing.rules,
                forall|name: Seq<char>| slices(targets@).contains(name) == is_target(*self, name),
                texts(errors@) == start + each_rule_errors(*self, i as nat),
                texts(warnings@) == warn_start + rule_warnings(rules@, i as nat),
            decreases rules@.len() - i,
        {
            let ghost before = texts(errors@);
            let ghost warn_before = texts(warnings@);
            self.validate_rule(&targets, &rules[i], errors);
            let repeated = glue3(
                "route `",
                rules[i].host.as_str(),
                "` is declared more than once; the first one wins",
            );
            push_if(warnings, is_rule_repeated(rules, i), repeated.as_str());
            i = i + 1;
            assert(texts(errors@) =~= start + each_rule_errors(*self, i as nat));
            assert(texts(warnings@) =~= warn_start + rule_warnings(rules@, i as nat));
        }
        assert(texts(errors@) =~= texts(old(errors)@) + routing_errors(*self));
        assert(texts(warnings@) =~= texts(old(warnings)@) + routing_warnings(*self));
    }
}

// ------------------------------------------------------------------ servers --

/// Whether some route, or the default, leads to this server.
pub open spec fn is_routed(config: Config, name: Seq<char>) -> bool {
    ||| exists|i: int|
        0 <= i < config.routing.rules@.len() && members(
            config.servers@,
            (#[trigger] config.routing.rules@[i]).target@,
        ).contains(name)
    ||| match config.routing.default {
        Some(default) => members(config.servers@, default@).contains(name),
        None => false,
    }
}

/// What is wrong with the first `n` servers.
pub open spec fn server_errors(servers: Seq<(String, Server)>, n: nat) -> Seq<Seq<char>>
    decreases n,
{
    if n == 0 || n > servers.len() {
        Seq::empty()
    } else {
        let (name, server) = servers[n - 1];
        server_errors(servers, (n - 1) as nat) + match address_error(server.address@) {
            Some(why) => seq!["server `"@ + name@ + "`: "@ + why + ""@],
            None => Seq::empty(),
        }
    }
}

/// What looks unintended about the first `n` of these servers.
pub open spec fn server_warnings(
    config: Config,
    servers: Seq<(String, Server)>,
    n: nat,
) -> Seq<Seq<char>>
    decreases n,
{
    if n == 0 || n > servers.len() {
        Seq::empty()
    } else {
        let (name, server) = servers[n - 1];
        server_warnings(config, servers, (n - 1) as nat) + said_if(
            server.weight == 0,
            "server `"@ + name@ + "` has weight 0 and will never be selected"@,
        ) + said_if(
            !is_routed(config, name@),
            "server `"@ + name@ + "` is not reachable through any route"@,
        )
    }
}

/// The first `n` of these groups that have no members.
pub open spec fn empty_groups(
    config: Config,
    groups: Seq<(String, Group)>,
    n: nat,
) -> Seq<Seq<char>>
    decreases n,
{
    if n == 0 || n > groups.len() {
        Seq::empty()
    } else {
        let name = groups[n - 1].0@;
        empty_groups(config, groups, (n - 1) as nat) + said_if(
            members(config.servers@, name).len() == 0,
            "group `"@ + name + "` has no members"@,
        )
    }
}

impl Config {
    fn leads_to(&self, target: &str, name: &str) -> (yes: bool)
        ensures
            yes == members(self.servers@, target@).contains(name@),
    {
        lists_name(&self.declared_members(target), name)
    }

    /// Whether some route, or the default, leads to this server.
    fn is_server_routed(&self, name: &str) -> (yes: bool)
        ensures
            yes == is_routed(*self, name@),
    {
        let rules = &self.routing.rules;
        let mut i: usize = 0;
        while i < rules.len()
            invariant
                i <= rules@.len(),
                *rules == self.routing.rules,
                forall|j: int|
                    0 <= j < i ==> !members(self.servers@, (#[trigger] rules@[j]).target@).contains(
                        name@,
                    ),
            decreases rules@.len() - i,
        {
            if self.leads_to(rules[i].target.as_str(), name) {
                return true;
            }
            i = i + 1;
        }
        match &self.routing.default {
            Some(default) => self.leads_to(default.as_str(), name),
            None => false,
        }
    }

    fn validate_servers(&self, errors: &mut Vec<String>, warnings: &mut Vec<String>)
        ensures
            texts(final(errors)@) == texts(old(errors)@) + server_errors(
                servers_by_name(self.servers@),
                self.servers@.len(),
            ),
            texts(final(warnings)@) == texts(old(warnings)@) + (server_warnings(
                *self,
                servers_by_name(self.servers@),
                self.servers@.len(),
            ) + empty_groups(*self, groups_by_name(self.groups@), self.groups@.len())),
    {
        let servers = &self.servers;
        let order = self.server_order();
        let ghost sorted = servers_by_name(servers@);
        let ghost start = texts(errors@);
        let ghost warn_start = texts(warnings@);
        assert(sorted.len() == order@.len());
        assert(forall|k: int|
            0 <= k < order@.len() ==> (#[trigger] sorted[k]) == servers@[order@[k] as int]);
        let mut i: usize = 0;
        assert(texts(errors@) =~= start + server_errors(sorted, 0));
        assert(texts(warnings@) =~= warn_start + server_warnings(*self, sorted, 0));
        while i < order.len()
            invariant
                i <= order@.len(),
                *servers == self.servers,
                sorted.len() == order@.len(),
                forall|k: int|
                    0 <= k < order@.len() ==> (#[trigger] sorted[k]) == servers@[order@[k] as int],
                forall|k: int| 0 <= k < order@.len() ==> (#[trigger] order@[k]) < servers@.len(),
                texts(errors@) == start + server_errors(sorted, i as nat),
                texts(warnings@) == warn_start + server_warnings(*self, sorted, i as nat),
            decreases order@.len() - i,
        {
            let m: usize = order[i];
            assert(sorted[i as int] == servers@[m as int]);
            let name = servers[m].0.as_str();
            let server = &servers[m].1;
            match validate_address(server.address.as_str()) {
                Ok(()) => {},
                Err(why) => {
                    push_text(errors, glue5("server `", name, "`: ", why.as_str(), ""));
                },
            }
            let idle = glue3("server `", name, "` has weight 0 and will never be selected");
            push_if(warnings, server.weight == 0, idle.as_str());
            let lost = glue3("server `", name, "` is not reachable through any route");
            push_if(warnings, !self.is_server_routed(name), lost.as_str());
            i = i + 1;
            assert(texts(errors@) =~= start + server_errors(sorted, i as nat));
            assert(texts(warnings@) =~= warn_start + server_warnings(*self, sorted, i as nat));
        }
        self.push_empty_groups(warnings);
        assert(texts(warnings@) =~= warn_start + (server_warnings(
            *self,
            sorted,
            servers@.len(),
        ) + empty_groups(*self, groups_by_name(self.groups@), self.groups@.len())));
    }

    fn push_empty_groups(&self, warnings: &mut Vec<String>)
        ensures
            texts(final(warnings)@) == texts(old(warnings)@) + empty_groups(
                *self,
                groups_by_name(self.groups@),
                self.groups@.len(),
            ),
    {
        let groups = &self.groups;
        let order = self.group_order();
        let ghost sorted = groups_by_name(groups@);
        let ghost start = texts(warnings@);
        assert(sorted.len() == order@.len());
        assert(forall|k: int|
            0 <= k < order@.len() ==> (#[trigger] sorted[k]) == groups@[order@[k] as int]);
        let mut i: usize = 0;
        assert(texts(warnings@) =~= start + empty_groups(*self, sorted, 0));
        while i < order.len()
            invariant
                i <= order@.len(),
                *groups == self.groups,
                sorted.len() == order@.len(),
                forall|k: int|
                    0 <= k < order@.len() ==> (#[trigger] sorted[k]) == groups@[order@[k] as int],
                forall|k: int| 0 <= k < order@.len() ==> (#[trigger] order@[k]) < groups@.len(),
                texts(warnings@) == start + empty_groups(*self, sorted, i as nat),
            decreases order@.len() - i,
        {
            let m: usize = order[i];
            assert(sorted[i as int] == groups@[m as int]);
            let name = groups[m].0.as_str();
            let members = self.declared_members(name);
            assert(slices(members@).len() == members@.len());
            let empty = glue3("group `", name, "` has no members");
            push_if(warnings, members.len() == 0, empty.as_str());
            i = i + 1;
            assert(texts(warnings@) =~= start + empty_groups(*self, sorted, i as nat));
        }
    }
}

// -------------------------------------------------------------- operational --

/// What looks unintended about the settings of a running gateway.
pub open spec fn operational_warnings(config: Config) -> Seq<Seq<char>> {
    let health = config.health;
    said_if(
        health.enabled && health.timeout.0@ >= health.interval.0@,
        "health.timeout (HumanDuration("@ + span_text(health.timeout.0)
            + ")) is not shorter than health.interval (HumanDuration("@ + span_text(
            health.interval.0,
        ) + ")); checks will overlap"@,
    ) + said_if(
        config.limits.max_connections_per_ip == 0,
        "limits.max_connections_per_ip is 0 (unlimited)"@,
    ) + said_if(
        config.limits.connection_rate.disabled(),
        "limits.connection_rate is disabled"@,
    ) + said_if(
        config.metrics.enabled && config.metrics.bind.ip.unspecified(),
        "metrics listen on "@ + socket_text(config.metrics.bind)
            + ", which is world-reachable; bind them to a private address"@,
    ) + said_if(
        config.timeouts.idle.0@ == 0,
        "timeouts.idle is 0: a client that vanishes without closing holds its backend slot forever"@,
    )
}

/// Everything that is wrong with a configuration. A pure interception node has
/// no routed listeners, and then routing and servers have nothing to be
/// validated against.
pub open spec fn config_errors(config: Config) -> Seq<Seq<char>> {
    intercept_errors(config) + if config.listeners@.len() > 0 || config.intercept is None {
        listener_errors(config.listeners@) + routing_errors(config) + server_errors(
            servers_by_name(config.servers@),
            config.servers@.len(),
        )
    } else {
        Seq::empty()
    }
}

/// Everything that looks unintended about a configuration.
pub open spec fn config_warnings(config: Config, linux: bool) -> Seq<Seq<char>> {
    intercept_warnings(config, linux) + (if config.listeners@.len() > 0 || config.intercept is None {
        listener_warnings(config.listeners@, config.listeners@.len()) + routing_warnings(config) + (
        server_warnings(config, servers_by_name(config.servers@), config.servers@.len())
            + empty_groups(config, groups_by_name(config.groups@), config.groups@.len()))
    } else {
        Seq::empty()
    }) + operational_warnings(config)
}

impl Config {
    #[verifier::rlimit(40)]
    fn validate_operational(&self, warnings: &mut Vec<String>)
        requires
            self.wf(),
        ensures
            texts(final(warnings)@) == texts(old(warnings)@) + operational_warnings(*self),
    {
        let overlap = glue5(
            "health.timeout (HumanDuration(",
            self.health.timeout.0.to_text().as_str(),
            ")) is not shorter than health.interval (HumanDuration(",
            self.health.interval.0.to_text().as_str(),
            ")); checks will overlap",
        );
        push_if(
            warnings,
            self.health.enabled && self.health.timeout.0.at_least(&self.health.interval.0),
            overlap.as_str(),
        );
        push_if(
            warnings,
            self.limits.max_connections_per_ip == 0,
            "limits.max_connections_per_ip is 0 (unlimited)",
        );
        push_if(
            warnings,
            self.limits.connection_rate.is_disabled(),
            "limits.connection_rate is disabled",
        );
        let exposed = glue3(
            "metrics listen on ",
            self.metrics.bind.to_text().as_str(),
            ", which is world-reachable; bind them to a private address",
        );
        push_if(
            warnings,
            self.metrics.enabled && self.metrics.bind.ip.is_unspecified(),
            exposed.as_str(),
        );
        push_if(
            warnings,
            self.timeouts.idle.is_zero(),
            "timeouts.idle is 0: a client that vanishes without closing holds its backend slot forever",
        );
        assert(texts(warnings@) =~= texts(old(warnings)@) + operational_warnings(*self));
    }

    /// Hard errors abort start-up; the returned warnings are logged. `linux`
    /// says whether this build can intercept connections.
    #[verifier::rlimit(40)]
    pub fn validate(&self, linux: bool) -> (r: Result<Vec<String>, ConfigError>)
        requires
            self.wf(),
        ensures
            if config_errors(*self).len() == 0 {
                r is Ok && texts(r->Ok_0@) == config_warnings(*self, linux)
            } else {
                r is Err && r->Err_0 is Invalid && texts(r->Err_0->Invalid_0@) == config_errors(
                    *self,
                )
            },
    {
        let mut errors: Vec<String> = Vec::new();
        let mut warnings: Vec<String> = Vec::new();
        assert(texts(errors@) =~= Seq::<Seq<char>>::empty());
        assert(texts(warnings@) =~= Seq::<Seq<char>>::empty());
        self.validate_intercept(linux, &mut errors, &mut warnings);
        if self.listeners.len() > 0 || self.intercept.is_none() {
            self.validate_listeners(&mut errors, &mut warnings);
            self.validate_routing(&mut errors, &mut warnings);
            self.validate_servers(&mut errors, &mut warnings);
        }
        self.validate_operational(&mut warnings);
        assert(texts(errors@) =~= config_errors(*self));
        assert(texts(warnings@) =~= config_warnings(*self, linux));
        assert(texts(errors@).len() == errors@.len());
        if errors.len() == 0 {
            Ok(warnings)
        } else {
            Err(ConfigError::Invalid(errors))
        }
    }
}

impl Config {
    /// Takes a configuration that was just read into use, with its warnings, or
    /// says what is wrong with it.
    pub fn accept(self, linux: bool) -> (r: Result<Loaded, ConfigError>)
        requires
            self.wf(),
        ensures
            if config_errors(self).len() == 0 {
                r is Ok && r->Ok_0.config == self && texts(r->Ok_0.warnings@) == config_warnings(
                    self,
                    linux,
                )
            } else {
                r is Err && r->Err_0 is Invalid && texts(r->Err_0->Invalid_0@) == config_errors(
                    self,
                )
            },
    {
        match self.validate(linux) {
            Ok(warnings) => Ok(Loaded { config: self, warnings }),
            Err(error) => Err(error),
        }
    }
}

// -------------------------------------------------------------------- laws --

/// Whether no port that the gateway itself listens on is taken over, and every
/// interception address is of its family.
pub open spec fn interception_is_sound(config: Config) -> bool {
    match config.intercept {
        None => true,
        Some(intercept) => {
            &&& intercept.ports@.len() > 0
            &&& intercept.listen.ip is V4
            &&& !covered(intercept.ports@, intercept.listen.port)
            &&& intercept.listen_v6 is Some ==> intercept.listen_v6->Some_0.ip is V6 && !covered(
                intercept.ports@,
                intercept.listen_v6->Some_0.port,
            )
            &&& forall|i: int|
                0 <= i < config.listeners@.len() ==> !covered(
                    intercept.ports@,
                    (#[trigger] config.listeners@[i]).bind.port,
                )
        },
    }
}

/// Whether every listener has a name and an address of its own, and believes
/// PROXY headers only from networks that it names.
pub open spec fn listeners_are_sound(listeners: Seq<Listener>) -> bool {
    &&& listeners.len() > 0
    &&& forall|i: int|
        0 <= i < listeners.len() ==> {
            &&& (#[trigger] listeners[i]).name@.len() > 0
            &&& !name_taken(listeners, i)
            &&& !bind_taken(listeners, i)
            &&& listeners[i].proxy_protocol.enabled
                ==> listeners[i].proxy_protocol.trusted.0@.len() > 0
        }
}

/// Whether a target exists and stands for at least one server.
pub open spec fn leads_somewhere(config: Config, target: Seq<char>) -> bool {
    is_target(config, target) && members(config.servers@, target).len() > 0
}

/// Whether a rule has a proper host, a target that leads somewhere and listeners
/// that exist.
pub open spec fn rule_is_sound(config: Config, rule: Rule) -> bool {
    &&& pattern_error(rule.host@) is None
    &&& leads_somewhere(config, rule.target@)
    &&& rule.listeners is Some ==> forall|k: int|
        0 <= k < rule.listeners->Some_0@.len() ==> listener_names(config.listeners@).contains(
            (#[trigger] rule.listeners->Some_0@[k])@,
        )
}

/// Whether clients can be routed, and only to servers that exist.
pub open spec fn routing_is_sound(config: Config) -> bool {
    &&& config.routing.rules@.len() > 0 || config.routing.default is Some
    &&& config.routing.default is Some ==> leads_somewhere(
        config,
        config.routing.default->Some_0@,
    )
    &&& forall|i: int|
        0 <= i < config.routing.rules@.len() ==> rule_is_sound(
            config,
            #[trigger] config.routing.rules@[i],
        )
}

/// Whether every server has a usable address.
pub open spec fn servers_are_sound(servers: Seq<(String, Server)>) -> bool {
    forall|i: int|
        0 <= i < servers.len() ==> address_error((#[trigger] servers[i]).1.address@) is None
}

proof fn lemma_taken_over(listeners: Seq<Listener>, ports: Seq<PortRange>, n: nat)
    requires
        n <= listeners.len(),
    ensures
        (taken_over(listeners, ports, n).len() == 0) == (forall|i: int|
            0 <= i < n ==> !covered(ports, (#[trigger] listeners[i]).bind.port)),
    decreases n,
{
    if n > 0 {
        lemma_taken_over(listeners, ports, (n - 1) as nat);
        if covered(ports, listeners[n - 1].bind.port) {
            assert(!forall|i: int|
                0 <= i < n ==> !covered(ports, (#[trigger] listeners[i]).bind.port));
        }
    }
}

proof fn lemma_each_listener(listeners: Seq<Listener>, n: nat)
    requires
        n <= listeners.len(),
    ensures
        (each_listener_errors(listeners, n).len() == 0) == (forall|i: int|
            0 <= i < n ==> {
                &&& (#[trigger] listeners[i]).name@.len() > 0
                &&& !name_taken(listeners, i)
                &&& !bind_taken(listeners, i)
                &&& listeners[i].proxy_protocol.enabled
                    ==> listeners[i].proxy_protocol.trusted.0@.len() > 0
            }),
    decreases n,
{
    if n > 0 {
        lemma_each_listener(listeners, (n - 1) as nat);
        let last = listeners[n - 1];
        if one_listener_errors(listeners, n - 1).len() == 0 {
            assert(last.name@.len() > 0 && !name_taken(listeners, n - 1) && !bind_taken(
                listeners,
                n - 1,
            ));
        }
    }
}

proof fn lemma_unknown_listeners(
    listeners: Seq<Listener>,
    host: Seq<char>,
    names: Seq<String>,
    n: nat,
)
    requires
        n <= names.len(),
    ensures
        (unknown_listeners(listeners, host, names, n).len() == 0) == (forall|k: int|
            0 <= k < n ==> listener_names(listeners).contains((#[trigger] names[k])@)),
    decreases n,
{
    if n > 0 {
        lemma_unknown_listeners(listeners, host, names, (n - 1) as nat);
        if !listener_names(listeners).contains(names[n - 1]@) {
            assert(!forall|k: int|
                0 <= k < n ==> listener_names(listeners).contains((#[trigger] names[k])@));
        }
    }
}

proof fn lemma_each_rule(config: Config, n: nat)
    requires
        n <= config.routing.rules@.len(),
    ensures
        (each_rule_errors(config, n).len() == 0) == (forall|i: int|
            0 <= i < n ==> rule_is_sound(config, #[trigger] config.routing.rules@[i])),
    decreases n,
{
    if n > 0 {
        lemma_each_rule(config, (n - 1) as nat);
        let rule = config.routing.rules@[n - 1];
        if let Some(names) = rule.listeners {
            lemma_unknown_listeners(config.listeners@, rule.host@, names@, names@.len());
        }
        assert((rule_errors(config, rule).len() == 0) == rule_is_sound(config, rule));
    }
}

proof fn lemma_server_errors(servers: Seq<(String, Server)>, n: nat)
    requires
        n <= servers.len(),
    ensures
        (server_errors(servers, n).len() == 0) == (forall|i: int|
            0 <= i < n ==> address_error((#[trigger] servers[i]).1.address@) is None),
    decreases n,
{
    if n > 0 {
        lemma_server_errors(servers, (n - 1) as nat);
        if address_error(servers[n - 1].1.address@) is Some {
            assert(!forall|i: int|
                0 <= i < n ==> address_error((#[trigger] servers[i]).1.address@) is None);
        }
    }
}

/// A configuration is accepted exactly where it can be run: interception cannot
/// loop, and where clients are routed, every listener is its own and trusts only
/// named networks, every route leads to a server and every server has an
/// address.
#[verifier::rlimit(40)]
pub proof fn accepted_config_is_sound(config: Config)
    ensures
        (config_errors(config).len() == 0) == (interception_is_sound(config) && (
        config.listeners@.len() > 0 || config.intercept is None ==> listeners_are_sound(
            config.listeners@,
        ) && routing_is_sound(config) && servers_are_sound(config.servers@))),
{
    let listeners = config.listeners@;
    if let Some(intercept) = config.intercept {
        lemma_taken_over(listeners, intercept.ports@, listeners.len());
        assert((intercept_errors(config).len() == 0) == interception_is_sound(config));
    }
    lemma_each_listener(listeners, listeners.len());
    lemma_each_rule(config, config.routing.rules@.len());
    let sorted = servers_by_name(config.servers@);
    let names = server_names(config.servers@);
    let order = name_order(names);
    names_are_ordered(names);
    lemma_server_errors(sorted, sorted.len());
    assert(servers_are_sound(sorted) == servers_are_sound(config.servers@)) by {
        assert forall|k: int| 0 <= k < sorted.len() implies #[trigger] sorted[k]
            == config.servers@[order[k]] by {}
        if servers_are_sound(config.servers@) {
            assert forall|k: int| 0 <= k < sorted.len() implies address_error(
                (#[trigger] sorted[k]).1.address@,
            ) is None by {
                assert(0 <= order[k] < names.len());
                assert(sorted[k] == config.servers@[order[k]]);
            }
        }
        if servers_are_sound(sorted) {
            assert forall|i: int| 0 <= i < config.servers@.len() implies address_error(
                (#[trigger] config.servers@[i]).1.address@,
            ) is None by {
                assert(order.contains(i));
                let k = choose|k: int| 0 <= k < order.len() && order[k] == i;
                assert(sorted[k] == config.servers@[i]);
            }
        }
    }
    assert((listener_errors(listeners).len() == 0) == listeners_are_sound(listeners));
    assert((routing_errors(config).len() == 0) == routing_is_sound(config));
}

/// A server's name stands for that server; every other name stands for the
/// servers that belong to the group of that name.
pub proof fn targets_stand_for_servers(
    servers: Seq<(String, Server)>,
    target: Seq<char>,
    name: Seq<char>,
)
    ensures
        (exists|i: int| 0 <= i < servers.len() && (#[trigger] servers[i]).0@ == target) ==> members(
            servers,
            target,
        ) == seq![target],
        !(exists|i: int| 0 <= i < servers.len() && (#[trigger] servers[i]).0@ == target)
            ==> members(servers, target).contains(name) == (exists|i: int|
            0 <= i < servers.len() && (#[trigger] servers[i]).0@ == name
                && servers[i].1.group is Some && servers[i].1.group->Some_0@ == target),
{
    let names = server_names(servers);
    if names.contains(target) {
        let i = choose|i: int| 0 <= i < names.len() && names[i] == target;
        assert(servers[i].0@ == target);
    }
    if exists|i: int| 0 <= i < servers.len() && (#[trigger] servers[i]).0@ == target {
        let i = choose|i: int| 0 <= i < servers.len() && (#[trigger] servers[i]).0@ == target;
        assert(names[i] == target);
    }
    lemma_in_group(servers, target, name, servers.len());
}

proof fn lemma_in_group(
    servers: Seq<(String, Server)>,
    group: Seq<char>,
    name: Seq<char>,
    n: nat,
)
    requires
        n <= servers.len(),
    ensures
        group_members(servers, group, n).contains(name) == (exists|i: int|
            0 <= i < n && (#[trigger] servers[i]).0@ == name && servers[i].1.group is Some
                && servers[i].1.group->Some_0@ == group),
    decreases n,
{
    if n > 0 {
        lemma_in_group(servers, group, name, (n - 1) as nat);
        let before = group_members(servers, group, (n - 1) as nat);
        let all = group_members(servers, group, n);
        let last = servers[n - 1];
        if last.1.group is Some && last.1.group->Some_0@ == group {
            assert(all == before.push(last.0@));
            assert(all[before.len() as int] == last.0@);
            if before.contains(name) {
                let k = choose|k: int| 0 <= k < before.len() && before[k] == name;
                assert(all[k] == name);
            }
            if all.contains(name) && name != last.0@ {
                let k = choose|k: int| 0 <= k < all.len() && all[k] == name;
                assert(before[k] == name);
            }
        } else {
            assert(all == before);
        }
    }
}

/// A route may point at every server, at every group that has settings and at
/// every group that a server belongs to, and at nothing else.
pub proof fn targets_are_servers_and_groups(config: Config, name: Seq<char>)
    ensures
        is_target(config, name) == ((exists|i: int|
            0 <= i < config.servers@.len() && ((#[trigger] config.servers@[i]).0@ == name
                || config.servers@[i].1.group is Some && config.servers@[i].1.group->Some_0@
                == name)) || (exists|i: int|
            0 <= i < config.groups@.len() && (#[trigger] config.groups@[i]).0@ == name)),
{
    let names = server_names(config.servers@);
    let groups = group_names(config.groups@);
    if names.contains(name) {
        let i = choose|i: int| 0 <= i < names.len() && names[i] == name;
        assert(config.servers@[i].0@ == name);
    }
    if groups.contains(name) {
        let i = choose|i: int| 0 <= i < groups.len() && groups[i] == name;
        assert(config.groups@[i].0@ == name);
    }
    assert forall|i: int| 0 <= i < config.servers@.len() && (
    #[trigger] config.servers@[i]).0@ == name implies names.contains(name) by {
        assert(names[i] == name);
    }
    assert forall|i: int| 0 <= i < config.groups@.len() && (
    #[trigger] config.groups@[i]).0@ == name implies groups.contains(name) by {
        assert(groups[i] == name);
    }
}

/// Whether interception takes no port over twice, changes something, and runs on
/// a machine that can do it.
pub open spec fn interception_is_meant(config: Config, linux: bool) -> bool {
    match config.intercept {
        None => true,
        Some(intercept) => {
            &&& linux
            &&& config.motd.line1 is Some || config.motd.line2 is Some
            &&& forall|i: int, j: int|
                0 <= i < j < intercept.ports@.len() ==> !(
                #[trigger] intercept.ports@[i]).meets(#[trigger] intercept.ports@[j])
        },
    }
}

/// Whether no listener demands headers that it does not read, hosts that no rule
/// names lead somewhere, no rule stands twice, every server can be reached and
/// selected, and every group has a server.
pub open spec fn routing_is_meant(config: Config) -> bool {
    &&& forall|i: int|
        0 <= i < config.listeners@.len() ==> ((
        #[trigger] config.listeners@[i]).proxy_protocol.required
            ==> config.listeners@[i].proxy_protocol.enabled)
    &&& config.routing.default is Some
    &&& forall|i: int|
        0 <= i < config.routing.rules@.len() ==> !#[trigger] rule_repeated(
            config.routing.rules@,
            i,
        )
    &&& forall|i: int|
        0 <= i < config.servers@.len() ==> (#[trigger] config.servers@[i]).1.weight > 0
            && is_routed(config, config.servers@[i].0@)
    &&& forall|i: int|
        0 <= i < config.groups@.len() ==> members(
            config.servers@,
            (#[trigger] config.groups@[i]).0@,
        ).len() > 0
}

/// Whether health checks end before the next one begins, addresses are limited
/// in number and rate, metrics are not open to the world and idle sessions end.
pub open spec fn operation_is_meant(config: Config) -> bool {
    &&& config.health.enabled ==> config.health.timeout.0@ < config.health.interval.0@
    &&& config.limits.max_connections_per_ip > 0
    &&& config.limits.connection_rate.burst > 0
    &&& config.limits.connection_rate.per.0@ > 0
    &&& config.metrics.enabled ==> config.metrics.bind.ip != IpAddr::V4(0)
        && config.metrics.bind.ip != IpAddr::V6(0)
    &&& config.timeouts.idle.0@ > 0
}

proof fn lemma_overlap_row(prefix: Seq<char>, ports: Seq<PortRange>, i: int, n: int)
    requires
        0 <= i < n <= ports.len(),
    ensures
        (overlap_row(prefix, ports, i, n).len() == 0) == (forall|j: int|
            i < j < n ==> !ports[i].meets(#[trigger] ports[j])),
    decreases n - i,
{
    if n > i + 1 {
        lemma_overlap_row(prefix, ports, i, n - 1);
        if ports[i].meets(ports[n - 1]) {
            assert(!forall|j: int| i < j < n ==> !ports[i].meets(#[trigger] ports[j]));
        }
    }
}

/// No overlap is told of exactly where no two ranges meet.
pub proof fn lemma_overlaps(prefix: Seq<char>, ports: Seq<PortRange>, n: nat)
    requires
        n <= ports.len(),
    ensures
        (overlaps(prefix, ports, n).len() == 0) == (forall|i: int, j: int|
            0 <= i < n && i < j < ports.len() ==> !(#[trigger] ports[i]).meets(
                #[trigger] ports[j],
            )),
    decreases n,
{
    if n > 0 {
        lemma_overlaps(prefix, ports, (n - 1) as nat);
        lemma_overlap_row(prefix, ports, n - 1, ports.len() as int);
        if overlap_row(prefix, ports, n - 1, ports.len() as int).len() > 0 {
            let j = choose|j: int| n - 1 < j < ports.len() && ports[n - 1].meets(#[trigger] ports[j]);
            let i = n - 1;
            assert(ports[i].meets(ports[j]));
        }
    }
}

proof fn lemma_listener_warnings(listeners: Seq<Listener>, n: nat)
    requires
        n <= listeners.len(),
    ensures
        (listener_warnings(listeners, n).len() == 0) == (forall|i: int|
            0 <= i < n ==> ((#[trigger] listeners[i]).proxy_protocol.required
                ==> listeners[i].proxy_protocol.enabled)),
    decreases n,
{
    if n > 0 {
        lemma_listener_warnings(listeners, (n - 1) as nat);
        let last = listeners[n - 1];
        if last.proxy_protocol.required && !last.proxy_protocol.enabled {
            assert(!forall|i: int|
                0 <= i < n ==> ((#[trigger] listeners[i]).proxy_protocol.required
                    ==> listeners[i].proxy_protocol.enabled));
        }
    }
}

proof fn lemma_rule_warnings(rules: Seq<Rule>, n: nat)
    requires
        n <= rules.len(),
    ensures
        (rule_warnings(rules, n).len() == 0) == (forall|i: int|
            0 <= i < n ==> !#[trigger] rule_repeated(rules, i)),
    decreases n,
{
    if n > 0 {
        lemma_rule_warnings(rules, (n - 1) as nat);
        if rule_repeated(rules, n - 1) {
            assert(!forall|i: int| 0 <= i < n ==> !#[trigger] rule_repeated(rules, i));
        }
    }
}

proof fn lemma_server_warnings(config: Config, servers: Seq<(String, Server)>, n: nat)
    requires
        n <= servers.len(),
    ensures
        (server_warnings(config, servers, n).len() == 0) == (forall|i: int|
            0 <= i < n ==> (#[trigger] servers[i]).1.weight > 0 && is_routed(
                config,
                servers[i].0@,
            )),
    decreases n,
{
    if n > 0 {
        lemma_server_warnings(config, servers, (n - 1) as nat);
        let last = servers[n - 1];
        if last.1.weight == 0 || !is_routed(config, last.0@) {
            assert(!forall|i: int|
                0 <= i < n ==> (#[trigger] servers[i]).1.weight > 0 && is_routed(
                    config,
                    servers[i].0@,
                ));
        }
    }
}

proof fn lemma_empty_groups(config: Config, groups: Seq<(String, Group)>, n: nat)
    requires
        n <= groups.len(),
    ensures
        (empty_groups(config, groups, n).len() == 0) == (forall|i: int|
            0 <= i < n ==> members(config.servers@, (#[trigger] groups[i]).0@).len() > 0),
    decreases n,
{
    if n > 0 {
        lemma_empty_groups(config, groups, (n - 1) as nat);
        if members(config.servers@, groups[n - 1].0@).len() == 0 {
            assert(!forall|i: int|
                0 <= i < n ==> members(config.servers@, (#[trigger] groups[i]).0@).len() > 0);
        }
    }
}

proof fn lemma_reachable_servers(config: Config)
    ensures
        ({
            let servers = servers_by_name(config.servers@);
            (server_warnings(config, servers, config.servers@.len()).len() == 0) == (forall|i: int|
                0 <= i < config.servers@.len() ==> (#[trigger] config.servers@[i]).1.weight > 0
                    && is_routed(config, config.servers@[i].0@))
        }),
{
    let all = config.servers@;
    let sorted = servers_by_name(all);
    let names = server_names(all);
    let order = name_order(names);
    names_are_ordered(names);
    lemma_server_warnings(config, sorted, sorted.len());
    assert forall|k: int| 0 <= k < sorted.len() implies #[trigger] sorted[k] == all[order[k]] && 0
        <= order[k] < all.len() by {}
    if server_warnings(config, sorted, sorted.len()).len() == 0 {
        assert forall|i: int| 0 <= i < all.len() implies (#[trigger] all[i]).1.weight > 0
            && is_routed(config, all[i].0@) by {
            assert(order.contains(i));
            let k = choose|k: int| 0 <= k < order.len() && order[k] == i;
            assert(sorted[k] == all[i]);
        }
    }
}

proof fn lemma_filled_groups(config: Config)
    ensures
        ({
            let groups = groups_by_name(config.groups@);
            (empty_groups(config, groups, config.groups@.len()).len() == 0) == (forall|i: int|
                0 <= i < config.groups@.len() ==> members(
                    config.servers@,
                    (#[trigger] config.groups@[i]).0@,
                ).len() > 0)
        }),
{
    let all = config.groups@;
    let sorted = groups_by_name(all);
    let names = group_names(all);
    let order = name_order(names);
    names_are_ordered(names);
    lemma_empty_groups(config, sorted, sorted.len());
    assert forall|k: int| 0 <= k < sorted.len() implies #[trigger] sorted[k] == all[order[k]] && 0
        <= order[k] < all.len() by {}
    if empty_groups(config, sorted, sorted.len()).len() == 0 {
        assert forall|i: int| 0 <= i < all.len() implies members(
            config.servers@,
            (#[trigger] all[i]).0@,
        ).len() > 0 by {
            assert(order.contains(i));
            let k = choose|k: int| 0 <= k < order.len() && order[k] == i;
            assert(sorted[k] == all[i]);
        }
    }
}

proof fn lemma_meant_interception(config: Config, linux: bool)
    ensures
        (intercept_warnings(config, linux).len() == 0) == interception_is_meant(config, linux),
{
    if let Some(intercept) = config.intercept {
        let ports = intercept.ports@;
        lemma_overlaps("intercept.ports"@, ports, ports.len());
    }
}

proof fn lemma_meant_operation(config: Config)
    ensures
        (operational_warnings(config).len() == 0) == operation_is_meant(config),
{
}

proof fn lemma_meant_routing(config: Config)
    ensures
        ((listener_warnings(config.listeners@, config.listeners@.len()) + routing_warnings(config)
            + (server_warnings(config, servers_by_name(config.servers@), config.servers@.len())
            + empty_groups(config, groups_by_name(config.groups@), config.groups@.len()))).len()
            == 0) == routing_is_meant(config),
{
    lemma_listener_warnings(config.listeners@, config.listeners@.len());
    lemma_rule_warnings(config.routing.rules@, config.routing.rules@.len());
    lemma_reachable_servers(config);
    lemma_filled_groups(config);
}

/// A configuration draws no warning exactly where everything in it looks meant:
/// the interception, the running gateway and, where clients are routed, the
/// routing.
pub proof fn unwarned_config_is_meant(config: Config, linux: bool)
    ensures
        (config_warnings(config, linux).len() == 0) == (interception_is_meant(config, linux)
            && operation_is_meant(config) && (config.listeners@.len() > 0 || config.intercept is None
            ==> routing_is_meant(config))),
{
    lemma_meant_interception(config, linux);
    lemma_meant_operation(config);
    lemma_meant_routing(config);
}

/// A rule stands twice exactly where an earlier one has the same host, whatever
/// its case, and the same listeners; a listener's name or address is taken
/// exactly where an earlier one has it.
pub proof fn repetition_is_with_an_earlier_one(
    rules: Seq<Rule>,
    listeners: Seq<Listener>,
    i: int,
    j: int,
)
    ensures
        0 <= j < i < rules.len() && lower(rules[j].host@) == lower(rules[i].host@) && opt_texts(
            rules[j].listeners,
        ) == opt_texts(rules[i].listeners) ==> rule_repeated(rules, i),
        !rule_repeated(rules, 0),
        0 <= j < i < listeners.len() && listeners[j].name@ == listeners[i].name@ ==> name_taken(
            listeners,
            i,
        ),
        0 <= j < i < listeners.len() && listeners[j].bind == listeners[i].bind ==> bind_taken(
            listeners,
            i,
        ),
        (forall|k: int, m: int|
            0 <= k < m < listeners.len() ==> (#[trigger] listeners[k]).name@ != (
            #[trigger] listeners[m]).name@) && 0 <= i < listeners.len() ==> !name_taken(listeners, i),
        (forall|k: int, m: int|
            0 <= k < m < listeners.len() ==> (#[trigger] listeners[k]).bind != (
            #[trigger] listeners[m]).bind) && 0 <= i < listeners.len() ==> !bind_taken(listeners, i),
{
}

/// A server can be reached where some rule, or the default, points at it or at
/// its group; else it cannot.
pub proof fn servers_are_reached_by_name_or_group(
    config: Config,
    name: Seq<char>,
    target: Seq<char>,
    i: int,
)
    requires
        members(config.servers@, target).contains(name),
    ensures
        0 <= i < config.routing.rules@.len() && config.routing.rules@[i].target@ == target
            ==> is_routed(config, name),
        config.routing.default is Some && config.routing.default->Some_0@ == target ==> is_routed(
            config,
            name,
        ),
{
}

/// A server that no rule and no default leads to cannot be reached.
pub proof fn other_servers_are_out_of_reach(config: Config, name: Seq<char>)
    requires
        forall|i: int|
            0 <= i < config.routing.rules@.len() ==> !members(
                config.servers@,
                (#[trigger] config.routing.rules@[i]).target@,
            ).contains(name),
        config.routing.default is Some ==> !members(
            config.servers@,
            config.routing.default->Some_0@,
        ).contains(name),
    ensures
        !is_routed(config, name),
{
}

/// An invalid configuration is told with all its complaints, one to a line; a
/// file that cannot be read or parsed with its path and the reason.
pub proof fn complaints_are_listed_one_to_a_line(
    path: String,
    reason: String,
    messages: Vec<String>,
    more: Seq<Seq<char>>,
    message: Seq<char>,
)
    ensures
        error_text(ConfigError::Io { path, reason }) == "cannot read "@ + path@ + ": "@ + reason@,
        error_text(ConfigError::Parse { path, reason }) == "cannot parse "@ + path@ + ": "@
            + reason@,
        error_text(ConfigError::Invalid(messages)) == "invalid configuration:"@ + bulleted(
            texts(messages@),
            messages@.len(),
        ),
        bulleted(Seq::empty(), 0) == Seq::<char>::empty(),
        bulleted(more.push(message), more.len() + 1) == bulleted(more, more.len()) + "\n  - "@
            + message,
{
    reveal_strlit("");
    assert(""@ =~= Seq::<char>::empty());
    assert("cannot read "@ + path@ + ": "@ + reason@ + ""@ =~= "cannot read "@ + path@ + ": "@
        + reason@);
    assert("cannot parse "@ + path@ + ": "@ + reason@ + ""@ =~= "cannot parse "@ + path@ + ": "@
        + reason@);
    lemma_first_bullets(more, message, more.len());
}

proof fn lemma_first_bullets(messages: Seq<Seq<char>>, message: Seq<char>, n: nat)
    requires
        n <= messages.len(),
    ensures
        bulleted(messages.push(message), n) == bulleted(messages, n),
    decreases n,
{
    if n > 0 {
        lemma_first_bullets(messages, message, (n - 1) as nat);
    }
}

// ----------------------------------------------------------- what is told --

/// Lists put together hold what each of them holds.
pub proof fn lemma_sum(a: Seq<Seq<char>>, b: Seq<Seq<char>>)
    ensures
        forall|x: Seq<char>| a.contains(x) || b.contains(x) ==> #[trigger] (a + b).contains(x),
{
    assert forall|x: Seq<char>| a.contains(x) || b.contains(x) implies #[trigger] (a + b).contains(
        x,
    ) by {
        if a.contains(x) {
            let i = choose|i: int| 0 <= i < a.len() && a[i] == x;
            assert((a + b)[i] == x);
        } else {
            let i = choose|i: int| 0 <= i < b.len() && b[i] == x;
            assert((a + b)[a.len() + i] == x);
        }
    }
}

/// What is wrong is said.
pub proof fn lemma_said(wrong: bool, message: Seq<char>)
    ensures
        wrong ==> said_if(wrong, message).contains(message),
{
    if wrong {
        assert(said_if(wrong, message)[0] == message);
    }
}

proof fn lemma_one(message: Seq<char>)
    ensures
        seq![message].contains(message),
{
    assert(seq![message][0] == message);
}

/// Every setting of a running gateway that looks unintended is told by name.
pub proof fn operational_warnings_name_their_setting(config: Config)
    ensures
        config.limits.max_connections_per_ip == 0 ==> operational_warnings(config).contains(
            "limits.max_connections_per_ip is 0 (unlimited)"@,
        ),
        config.limits.connection_rate.burst == 0 || config.limits.connection_rate.per.0@ == 0
            ==> operational_warnings(config).contains("limits.connection_rate is disabled"@),
        config.timeouts.idle.0@ == 0 ==> operational_warnings(config).contains(
            "timeouts.idle is 0: a client that vanishes without closing holds its backend slot forever"@,
        ),
        config.metrics.enabled && (config.metrics.bind.ip == IpAddr::V4(0) || config.metrics.bind.ip
            == IpAddr::V6(0)) ==> operational_warnings(config).contains(
            "metrics listen on "@ + socket_text(config.metrics.bind)
                + ", which is world-reachable; bind them to a private address"@,
        ),
        config.health.enabled && config.health.timeout.0@ >= config.health.interval.0@
            ==> operational_warnings(config).contains(
            "health.timeout (HumanDuration("@ + span_text(config.health.timeout.0)
                + ")) is not shorter than health.interval (HumanDuration("@ + span_text(
                config.health.interval.0,
            ) + ")); checks will overlap"@,
        ),
{
    let health = config.health;
    let m1 = "health.timeout (HumanDuration("@ + span_text(health.timeout.0)
        + ")) is not shorter than health.interval (HumanDuration("@ + span_text(health.interval.0)
        + ")); checks will overlap"@;
    let m4 = "metrics listen on "@ + socket_text(config.metrics.bind)
        + ", which is world-reachable; bind them to a private address"@;
    let w1 = health.enabled && health.timeout.0@ >= health.interval.0@;
    let w2 = config.limits.max_connections_per_ip == 0;
    let w3 = config.limits.connection_rate.disabled();
    let w4 = config.metrics.enabled && config.metrics.bind.ip.unspecified();
    let w5 = config.timeouts.idle.0@ == 0;
    let s1 = said_if(w1, m1);
    let s2 = said_if(w2, "limits.max_connections_per_ip is 0 (unlimited)"@);
    let s3 = said_if(w3, "limits.connection_rate is disabled"@);
    let s4 = said_if(w4, m4);
    let s5 = said_if(
        w5,
        "timeouts.idle is 0: a client that vanishes without closing holds its backend slot forever"@,
    );
    lemma_said(w1, m1);
    lemma_said(w2, "limits.max_connections_per_ip is 0 (unlimited)"@);
    lemma_said(w3, "limits.connection_rate is disabled"@);
    lemma_said(w4, m4);
    lemma_said(
        w5,
        "timeouts.idle is 0: a client that vanishes without closing holds its backend slot forever"@,
    );
    lemma_sum(s1, s2);
    lemma_sum(s1 + s2, s3);
    lemma_sum(s1 + s2 + s3, s4);
    lemma_sum(s1 + s2 + s3 + s4, s5);
}

/// Everything that is wrong with one listener is told with its name or address.
pub proof fn listener_errors_name_their_listener(listeners: Seq<Listener>, i: int)
    requires
        0 <= i < listeners.len(),
    ensures
        listeners[i].name@.len() == 0 ==> one_listener_errors(listeners, i).contains(
            "a listener has an empty name"@,
        ),
        name_taken(listeners, i) ==> one_listener_errors(listeners, i).contains(
            "duplicate listener name `"@ + listeners[i].name@ + "`"@,
        ),
        bind_taken(listeners, i) ==> one_listener_errors(listeners, i).contains(
            "two listeners bind to "@ + socket_text(listeners[i].bind) + ""@,
        ),
        listeners[i].proxy_protocol.enabled && listeners[i].proxy_protocol.trusted.0@.len() == 0
            ==> one_listener_errors(listeners, i).contains(
            "listener `"@ + listeners[i].name@
                + "` enables inbound proxy_protocol without `trusted` networks; an untrusted peer could spoof any client IP"@,
        ),
        forall|x: Seq<char>|
            one_listener_errors(listeners, i).contains(x) ==> #[trigger] listener_errors(
                listeners,
            ).contains(x),
{
    let listener = listeners[i];
    let w1 = listener.name@.len() == 0;
    let w2 = name_taken(listeners, i);
    let w3 = bind_taken(listeners, i);
    let w4 = listener.proxy_protocol.enabled && listener.proxy_protocol.trusted.0@.len() == 0;
    let m2 = "duplicate listener name `"@ + listener.name@ + "`"@;
    let m3 = "two listeners bind to "@ + socket_text(listener.bind) + ""@;
    let m4 = "listener `"@ + listener.name@
        + "` enables inbound proxy_protocol without `trusted` networks; an untrusted peer could spoof any client IP"@;
    let s1 = said_if(w1, "a listener has an empty name"@);
    let s2 = said_if(w2, m2);
    let s3 = said_if(w3, m3);
    let s4 = said_if(w4, m4);
    lemma_said(w1, "a listener has an empty name"@);
    lemma_said(w2, m2);
    lemma_said(w3, m3);
    lemma_said(w4, m4);
    lemma_sum(s1, s2);
    lemma_sum(s1 + s2, s3);
    lemma_sum(s1 + s2 + s3, s4);
    lemma_listener_errors_hold(listeners, i, listeners.len());
    lemma_sum(
        said_if(listeners.len() == 0, "no listeners configured"@),
        each_listener_errors(listeners, listeners.len()),
    );
}

proof fn lemma_listener_errors_hold(listeners: Seq<Listener>, i: int, n: nat)
    requires
        0 <= i < n <= listeners.len(),
    ensures
        forall|x: Seq<char>|
            one_listener_errors(listeners, i).contains(x) ==> #[trigger] each_listener_errors(
                listeners,
                n,
            ).contains(x),
    decreases n,
{
    lemma_sum(
        each_listener_errors(listeners, (n - 1) as nat),
        one_listener_errors(listeners, n - 1),
    );
    if i < n - 1 {
        lemma_listener_errors_hold(listeners, i, (n - 1) as nat);
    }
}

/// Everything that is wrong with a rule is told with its host: what is wrong with
/// the host, a target that does not exist or has no members, and listeners that
/// do not exist.
pub proof fn rule_errors_name_their_host(config: Config, i: int, k: int)
    requires
        0 <= i < config.routing.rules@.len(),
    ensures
        ({
            let rule = config.routing.rules@[i];
            let told = rule_errors(config, rule);
            let names = rule.listeners->Some_0@;
            &&& pattern_error(rule.host@) is Some ==> told.contains(
                "route `"@ + rule.host@ + "`: "@ + pattern_error(rule.host@)->Some_0 + ""@,
            )
            &&& !is_target(config, rule.target@) ==> told.contains(
                "route `"@ + rule.host@ + "` points at `"@ + rule.target@
                    + "`, which is not a server or group"@,
            )
            &&& members(config.servers@, rule.target@).len() == 0 ==> told.contains(
                "route `"@ + rule.host@ + "` points at group `"@ + rule.target@
                    + "`, which has no members"@,
            )
            &&& rule.listeners is Some && 0 <= k < names.len() && (forall|j: int|
                0 <= j < config.listeners@.len() ==> (#[trigger] config.listeners@[j]).name@
                    != names[k]@) ==> told.contains(
                "route `"@ + rule.host@ + "` restricts to listener `"@ + names[k]@
                    + "`, which does not exist"@,
            )
            &&& forall|x: Seq<char>|
                told.contains(x) ==> #[trigger] routing_errors(config).contains(x)
        }),
{
    let rule = config.routing.rules@[i];
    let host = rule.host@;
    let target = rule.target@;
    let pattern = match pattern_error(host) {
        Some(why) => seq!["route `"@ + host + "`: "@ + why + ""@],
        None => Seq::empty(),
    };
    let unknown = match rule.listeners {
        Some(names) => unknown_listeners(config.listeners@, host, names@, names@.len()),
        None => Seq::empty(),
    };
    if let Some(why) = pattern_error(host) {
        lemma_one("route `"@ + host + "`: "@ + why + ""@);
    }
    let m2 = "route `"@ + host + "` points at `"@ + target + "`, which is not a server or group"@;
    let m3 = "route `"@ + host + "` points at group `"@ + target + "`, which has no members"@;
    let w2 = !is_target(config, target);
    let w3 = members(config.servers@, target).len() == 0;
    lemma_said(w2, m2);
    lemma_said(w3, m3);
    let s2 = said_if(w2, m2);
    let s3 = said_if(w3, m3);
    lemma_sum(pattern, s2);
    lemma_sum(pattern + s2, s3);
    lemma_sum(pattern + s2 + s3, unknown);
    if let Some(names) = rule.listeners {
        if 0 <= k < names@.len() && (forall|j: int|
            0 <= j < config.listeners@.len() ==> (#[trigger] config.listeners@[j]).name@
                != names@[k]@) {
            assert(!listener_names(config.listeners@).contains(names@[k]@));
            lemma_unknown_holds(config.listeners@, host, names@, k, names@.len());
        }
    }
    lemma_rule_errors_hold(config, i, config.routing.rules@.len());
    let s = said_if(
        config.routing.rules@.len() == 0 && config.routing.default is None,
        "routing has neither rules nor a default target"@,
    );
    lemma_sum(s + default_errors(config), each_rule_errors(config, config.routing.rules@.len()));
}

proof fn lemma_unknown_holds(
    listeners: Seq<Listener>,
    host: Seq<char>,
    names: Seq<String>,
    k: int,
    n: nat,
)
    requires
        0 <= k < n <= names.len(),
        !listener_names(listeners).contains(names[k]@),
    ensures
        unknown_listeners(listeners, host, names, n).contains(
            "route `"@ + host + "` restricts to listener `"@ + names[k]@
                + "`, which does not exist"@,
        ),
    decreases n,
{
    let m = "route `"@ + host + "` restricts to listener `"@ + names[n - 1]@
        + "`, which does not exist"@;
    let w = !listener_names(listeners).contains(names[n - 1]@);
    lemma_said(w, m);
    lemma_sum(unknown_listeners(listeners, host, names, (n - 1) as nat), said_if(w, m));
    if k < n - 1 {
        lemma_unknown_holds(listeners, host, names, k, (n - 1) as nat);
    }
}

proof fn lemma_rule_errors_hold(config: Config, i: int, n: nat)
    requires
        0 <= i < n <= config.routing.rules@.len(),
    ensures
        forall|x: Seq<char>|
            rule_errors(config, config.routing.rules@[i]).contains(x)
                ==> #[trigger] each_rule_errors(config, n).contains(x),
    decreases n,
{
    lemma_sum(
        each_rule_errors(config, (n - 1) as nat),
        rule_errors(config, config.routing.rules@[n - 1]),
    );
    if i < n - 1 {
        lemma_rule_errors_hold(config, i, (n - 1) as nat);
    }
}

/// A default target that does not exist, or has no members, is told by its name,
/// and so is a routing without any target.
pub proof fn default_errors_name_their_target(config: Config)
    ensures
        config.routing.rules@.len() == 0 && config.routing.default is None ==> routing_errors(
            config,
        ).contains("routing has neither rules nor a default target"@),
        config.routing.default is Some && !is_target(config, config.routing.default->Some_0@)
            ==> routing_errors(config).contains(
            "routing.default `"@ + config.routing.default->Some_0@
                + "` is not a server or group"@,
        ),
        config.routing.default is Some && is_target(config, config.routing.default->Some_0@)
            && members(config.servers@, config.routing.default->Some_0@).len() == 0
            ==> routing_errors(config).contains(
            "routing.default `"@ + config.routing.default->Some_0@
                + "` is a group with no members"@,
        ),
        config.listeners@.len() == 0 ==> listener_errors(config.listeners@).contains(
            "no listeners configured"@,
        ),
{
    let w = config.routing.rules@.len() == 0 && config.routing.default is None;
    let m = "routing has neither rules nor a default target"@;
    let s = said_if(w, m);
    lemma_said(w, m);
    if let Some(default) = config.routing.default {
        lemma_one("routing.default `"@ + default@ + "` is not a server or group"@);
        lemma_said(
            members(config.servers@, default@).len() == 0,
            "routing.default `"@ + default@ + "` is a group with no members"@,
        );
    }
    let each = each_rule_errors(config, config.routing.rules@.len());
    lemma_sum(s, default_errors(config));
    lemma_sum(s + default_errors(config), each);
    lemma_said(config.listeners@.len() == 0, "no listeners configured"@);
    lemma_sum(
        said_if(config.listeners@.len() == 0, "no listeners configured"@),
        each_listener_errors(config.listeners@, config.listeners@.len()),
    );
}

/// Every server whose address cannot be used is told by its name with what is
/// wrong with the address, and so is one that is never selected or reached.
pub proof fn servers_are_told_by_name(
    config: Config,
    servers: Seq<(String, Server)>,
    i: int,
    n: nat,
)
    requires
        0 <= i < n <= servers.len(),
    ensures
        address_error(servers[i].1.address@) is Some ==> server_errors(servers, n).contains(
            "server `"@ + servers[i].0@ + "`: "@ + address_error(servers[i].1.address@)->Some_0
                + ""@,
        ),
        servers[i].1.weight == 0 ==> server_warnings(config, servers, n).contains(
            "server `"@ + servers[i].0@ + "` has weight 0 and will never be selected"@,
        ),
        !is_routed(config, servers[i].0@) ==> server_warnings(config, servers, n).contains(
            "server `"@ + servers[i].0@ + "` is not reachable through any route"@,
        ),
    decreases n,
{
    let (name, server) = servers[n - 1];
    let errors = match address_error(server.address@) {
        Some(why) => seq!["server `"@ + name@ + "`: "@ + why + ""@],
        None => Seq::empty(),
    };
    if let Some(why) = address_error(server.address@) {
        lemma_one("server `"@ + name@ + "`: "@ + why + ""@);
    }
    let m1 = "server `"@ + name@ + "` has weight 0 and will never be selected"@;
    let m2 = "server `"@ + name@ + "` is not reachable through any route"@;
    let before = server_warnings(config, servers, (n - 1) as nat);
    let s1 = said_if(server.weight == 0, m1);
    let s2 = said_if(!is_routed(config, name@), m2);
    lemma_said(server.weight == 0, m1);
    lemma_said(!is_routed(config, name@), m2);
    lemma_sum(before, s1);
    lemma_sum(before + s1, s2);
    lemma_sum(server_errors(servers, (n - 1) as nat), errors);
    if i < n - 1 {
        servers_are_told_by_name(config, servers, i, (n - 1) as nat);
    }
}

/// A listener that demands headers it does not read, a rule that stands twice and
/// a group without members are told by name.
pub proof fn oddities_are_told_by_name(
    config: Config,
    groups: Seq<(String, Group)>,
    listeners: Seq<Listener>,
    rules: Seq<Rule>,
    i: int,
)
    ensures
        0 <= i < listeners.len() && listeners[i].proxy_protocol.required
            && !listeners[i].proxy_protocol.enabled ==> listener_warnings(
            listeners,
            listeners.len(),
        ).contains(
            "listener `"@ + listeners[i].name@
                + "` sets proxy_protocol.required but not proxy_protocol.enabled"@,
        ),
        0 <= i < rules.len() && rule_repeated(rules, i) ==> rule_warnings(
            rules,
            rules.len(),
        ).contains(
            "route `"@ + rules[i].host@ + "` is declared more than once; the first one wins"@,
        ),
        0 <= i < groups.len() && members(config.servers@, groups[i].0@).len() == 0
            ==> empty_groups(config, groups, groups.len()).contains(
            "group `"@ + groups[i].0@ + "` has no members"@,
        ),
{
    if 0 <= i < listeners.len() {
        lemma_listener_warning_holds(listeners, i, listeners.len());
    }
    if 0 <= i < rules.len() {
        lemma_rule_warning_holds(rules, i, rules.len());
    }
    if 0 <= i < groups.len() {
        lemma_empty_group_holds(config, groups, i, groups.len());
    }
}

proof fn lemma_listener_warning_holds(listeners: Seq<Listener>, i: int, n: nat)
    requires
        0 <= i < n <= listeners.len(),
    ensures
        listeners[i].proxy_protocol.required && !listeners[i].proxy_protocol.enabled
            ==> listener_warnings(listeners, n).contains(
            "listener `"@ + listeners[i].name@
                + "` sets proxy_protocol.required but not proxy_protocol.enabled"@,
        ),
    decreases n,
{
    let last = listeners[n - 1];
    let w = last.proxy_protocol.required && !last.proxy_protocol.enabled;
    let m = "listener `"@ + last.name@
        + "` sets proxy_protocol.required but not proxy_protocol.enabled"@;
    lemma_said(w, m);
    lemma_sum(listener_warnings(listeners, (n - 1) as nat), said_if(w, m));
    if i < n - 1 {
        lemma_listener_warning_holds(listeners, i, (n - 1) as nat);
    }
}

proof fn lemma_rule_warning_holds(rules: Seq<Rule>, i: int, n: nat)
    requires
        0 <= i < n <= rules.len(),
    ensures
        rule_repeated(rules, i) ==> rule_warnings(rules, n).contains(
            "route `"@ + rules[i].host@ + "` is declared more than once; the first one wins"@,
        ),
    decreases n,
{
    let w = rule_repeated(rules, n - 1);
    let m = "route `"@ + rules[n - 1].host@
        + "` is declared more than once; the first one wins"@;
    lemma_said(w, m);
    lemma_sum(rule_warnings(rules, (n - 1) as nat), said_if(w, m));
    if i < n - 1 {
        lemma_rule_warning_holds(rules, i, (n - 1) as nat);
    }
}

proof fn lemma_empty_group_holds(config: Config, groups: Seq<(String, Group)>, i: int, n: nat)
    requires
        0 <= i < n <= groups.len(),
    ensures
        members(config.servers@, groups[i].0@).len() == 0 ==> empty_groups(
            config,
            groups,
            n,
        ).contains("group `"@ + groups[i].0@ + "` has no members"@),
    decreases n,
{
    let name = groups[n - 1].0@;
    let w = members(config.servers@, name).len() == 0;
    let m = "group `"@ + name + "` has no members"@;
    lemma_said(w, m);
    lemma_sum(empty_groups(config, groups, (n - 1) as nat), said_if(w, m));
    if i < n - 1 {
        lemma_empty_group_holds(config, groups, i, (n - 1) as nat);
    }
}

/// Everything that is told of a part is told of the whole: interception always,
/// and listeners, routing and servers where clients are routed.
pub proof fn every_complaint_is_told(config: Config, linux: bool, x: Seq<char>)
    ensures
        ({
            let routed = config.listeners@.len() > 0 || config.intercept is None;
            let servers = servers_by_name(config.servers@);
            let groups = groups_by_name(config.groups@);
            let errors = config_errors(config);
            let warnings = config_warnings(config, linux);
            &&& intercept_errors(config).contains(x) ==> errors.contains(x)
            &&& routed && listener_errors(config.listeners@).contains(x) ==> errors.contains(x)
            &&& routed && routing_errors(config).contains(x) ==> errors.contains(x)
            &&& routed && server_errors(servers, config.servers@.len()).contains(x)
                ==> errors.contains(x)
            &&& intercept_warnings(config, linux).contains(x) ==> warnings.contains(x)
            &&& operational_warnings(config).contains(x) ==> warnings.contains(x)
            &&& routed && listener_warnings(config.listeners@, config.listeners@.len()).contains(x)
                ==> warnings.contains(x)
            &&& routed && routing_warnings(config).contains(x) ==> warnings.contains(x)
            &&& routed && server_warnings(config, servers, config.servers@.len()).contains(x)
                ==> warnings.contains(x)
            &&& routed && empty_groups(config, groups, config.groups@.len()).contains(x)
                ==> warnings.contains(x)
        }),
{
    let servers = servers_by_name(config.servers@);
    let groups = groups_by_name(config.groups@);
    let e1 = listener_errors(config.listeners@);
    let e2 = routing_errors(config);
    let e3 = server_errors(servers, config.servers@.len());
    lemma_sum(e1, e2);
    lemma_sum(e1 + e2, e3);
    lemma_sum(intercept_errors(config), e1 + e2 + e3);
    lemma_sum(intercept_errors(config), Seq::empty());
    let w0 = intercept_warnings(config, linux);
    let w1 = listener_warnings(config.listeners@, config.listeners@.len());
    let w2 = routing_warnings(config);
    let w3 = server_warnings(config, servers, config.servers@.len());
    let w4 = empty_groups(config, groups, config.groups@.len());
    let w5 = operational_warnings(config);
    lemma_sum(w3, w4);
    lemma_sum(w1, w2);
    lemma_sum(w1 + w2, w3 + w4);
    lemma_sum(w0, w1 + w2 + (w3 + w4));
    lemma_sum(w0 + (w1 + w2 + (w3 + w4)), w5);
    lemma_sum(w0, Seq::empty());
    lemma_sum(w0 + Seq::<Seq<char>>::empty(), w5);
}

/// Each thing that is wrong or odd with the interception is told.
pub proof fn interception_complaints_name_their_cause(config: Config, linux: bool, i: int)
    requires
        config.intercept is Some,
    ensures
        ({
            let intercept = config.intercept->Some_0;
            let ports = intercept.ports@;
            let errors = intercept_errors(config);
            let warnings = intercept_warnings(config, linux);
            &&& ports.len() == 0 ==> errors.contains("intercept.ports is empty"@)
            &&& covered(ports, intercept.listen.port) ==> errors.contains(
                looping("listen"@, intercept.listen.port),
            )
            &&& intercept.listen.ip is V6 ==> errors.contains(
                "intercept.listen must be an IPv4 address"@,
            )
            &&& intercept.listen_v6 is Some && intercept.listen_v6->Some_0.ip is V4
                ==> errors.contains("intercept.listen_v6 must be an IPv6 address"@)
            &&& intercept.listen_v6 is Some && covered(ports, intercept.listen_v6->Some_0.port)
                ==> errors.contains(looping("listen_v6"@, intercept.listen_v6->Some_0.port))
            &&& 0 <= i < config.listeners@.len() && covered(
                ports,
                config.listeners@[i].bind.port,
            ) ==> errors.contains(
                "listener `"@ + config.listeners@[i].name@ + "` binds port "@ + decimal(
                    config.listeners@[i].bind.port as nat,
                ) + ", which intercept.ports takes over"@,
            )
            &&& config.motd.line1 is None && config.motd.line2 is None ==> warnings.contains(
                "intercept is configured but motd.line1/line2 are not: every connection is passed through untouched"@,
            )
            &&& !linux ==> warnings.contains(
                "intercept needs Linux TPROXY; this build can validate the config but not run it"@,
            )
        }),
{
    let intercept = config.intercept->Some_0;
    let ports = intercept.ports@;
    let listen = intercept.listen;
    let m2 = looping("listen"@, listen.port);
    let w2 = covered(ports, listen.port);
    let s1 = said_if(ports.len() == 0, "intercept.ports is empty"@);
    let s2 = said_if(w2, m2);
    let s3 = said_if(!(listen.ip is V4), "intercept.listen must be an IPv4 address"@);
    lemma_said(ports.len() == 0, "intercept.ports is empty"@);
    lemma_said(w2, m2);
    lemma_said(!(listen.ip is V4), "intercept.listen must be an IPv4 address"@);
    let v6 = match intercept.listen_v6 {
        Some(listen) => said_if(
            !(listen.ip is V6),
            "intercept.listen_v6 must be an IPv6 address"@,
        ) + said_if(covered(ports, listen.port), looping("listen_v6"@, listen.port)),
        None => Seq::empty(),
    };
    if let Some(listen) = intercept.listen_v6 {
        let a = said_if(!(listen.ip is V6), "intercept.listen_v6 must be an IPv6 address"@);
        let b = said_if(covered(ports, listen.port), looping("listen_v6"@, listen.port));
        lemma_said(!(listen.ip is V6), "intercept.listen_v6 must be an IPv6 address"@);
        lemma_said(covered(ports, listen.port), looping("listen_v6"@, listen.port));
        lemma_sum(a, b);
    }
    let taken = taken_over(config.listeners@, ports, config.listeners@.len());
    lemma_sum(s1, s2);
    lemma_sum(s1 + s2, s3);
    lemma_sum(s1 + s2 + s3, v6);
    lemma_sum(s1 + s2 + s3 + v6, taken);
    if 0 <= i < config.listeners@.len() {
        lemma_taken_over_holds(config.listeners@, ports, i, config.listeners@.len());
    }
    let quiet = config.motd@.line1 is None && config.motd@.line2 is None;
    let m5 =
        "intercept is configured but motd.line1/line2 are not: every connection is passed through untouched"@;
    let m6 = "intercept needs Linux TPROXY; this build can validate the config but not run it"@;
    let met = overlaps("intercept.ports"@, ports, ports.len());
    lemma_said(quiet, m5);
    lemma_said(!linux, m6);
    lemma_sum(met, said_if(quiet, m5));
    lemma_sum(met + said_if(quiet, m5), said_if(!linux, m6));
}

proof fn lemma_taken_over_holds(
    listeners: Seq<Listener>,
    ports: Seq<PortRange>,
    i: int,
    n: nat,
)
    requires
        0 <= i < n <= listeners.len(),
    ensures
        covered(ports, listeners[i].bind.port) ==> taken_over(listeners, ports, n).contains(
            "listener `"@ + listeners[i].name@ + "` binds port "@ + decimal(
                listeners[i].bind.port as nat,
            ) + ", which intercept.ports takes over"@,
        ),
    decreases n,
{
    let last = listeners[n - 1];
    let w = covered(ports, last.bind.port);
    let m = "listener `"@ + last.name@ + "` binds port "@ + decimal(last.bind.port as nat)
        + ", which intercept.ports takes over"@;
    lemma_said(w, m);
    lemma_sum(taken_over(listeners, ports, (n - 1) as nat), said_if(w, m));
    if i < n - 1 {
        lemma_taken_over_holds(listeners, ports, i, (n - 1) as nat);
    }
}

/// A routing without a default is told what that means for old clients.
pub proof fn a_missing_default_is_told(config: Config, x: Seq<char>)
    ensures
        config.routing.default is None ==> routing_warnings(config).contains(
            "no routing.default: clients that send no hostname (pre-1.7 pings) are refused"@,
        ),
        rule_warnings(config.routing.rules@, config.routing.rules@.len()).contains(x)
            ==> routing_warnings(config).contains(x),
{
    let w = config.routing.default is None;
    let m = "no routing.default: clients that send no hostname (pre-1.7 pings) are refused"@;
    lemma_said(w, m);
    lemma_sum(
        said_if(w, m),
        rule_warnings(config.routing.rules@, config.routing.rules@.len()),
    );
}

} // verus!
