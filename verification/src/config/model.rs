//! The configuration model.
//!
//! Every section has a `Default` that is safe to run with, so a minimal file
//! only needs a listener, a route and a server.

use vstd::prelude::*;

use crate::config::net::{IpNet, IpNets};
use crate::config::duration::{seconds, HumanDuration};
use crate::config::intercept::Intercept;
use crate::net::{plain_socket, IpAddr, SocketAddr};
use crate::text::{
    copy_opt, copy_texts, glue3, integer_round_trip, integer_text, lemma_integer_contains,
    lemma_lower_char, lower, opt_text, opt_texts, parse_signed, same_chars, signed_number,
    text_less, texts, to_chars, to_lower,
};

verus! {

/// The whole configuration.
#[derive(Debug, Clone)]
pub struct Config {
    pub listeners: Vec<Listener>,
    /// Port ranges that are taken over, on a hosting node.
    pub intercept: Option<Intercept>,
    pub routing: Routing,
    /// Backend servers with their names, as they were declared.
    pub servers: Vec<(String, Server)>,
    /// Optional per-group settings; a group that a server names but that is
    /// absent here uses the defaults.
    pub groups: Vec<(String, Group)>,
    pub motd: Motd,
    pub messages: Messages,
    pub limits: Limits,
    pub timeouts: Timeouts,
    pub health: Health,
    pub metrics: Metrics,
    pub log: Log,
}

/// Names come in strictly ascending order, so none occurs twice.
pub open spec fn ascending(names: Seq<Seq<char>>) -> bool {
    forall|i: int, j: int| 0 <= i < j < names.len() ==> text_less(names[i], names[j])
}

/// The names of the servers.
pub open spec fn server_names(servers: Seq<(String, Server)>) -> Seq<Seq<char>> {
    servers.map_values(|entry: (String, Server)| entry.0@)
}

/// The names of the groups that have settings.
pub open spec fn group_names(groups: Seq<(String, Group)>) -> Seq<Seq<char>> {
    groups.map_values(|entry: (String, Group)| entry.0@)
}

impl Config {
    /// No name occurs twice, and durations and networks are well formed.
    pub open spec fn wf(&self) -> bool {
        &&& server_names(self.servers@).no_duplicates()
        &&& group_names(self.groups@).no_duplicates()
        &&& self.limits.exempt.wf()
        &&& self.health.timeout.0.wf()
        &&& self.health.interval.0.wf()
        &&& self.limits.connection_rate.per.0.wf()
    }
}

// ---------------------------------------------------------------- listeners

/// A socket that players connect to.
#[derive(Debug, Clone)]
pub struct Listener {
    pub name: String,
    pub bind: SocketAddr,
    /// Accept a PROXY protocol header from an upstream L4 load balancer.
    pub proxy_protocol: InboundProxyProtocol,
    /// How many connections may wait to be accepted.
    pub backlog: u32,
}

/// How many connections may wait to be accepted if nothing else is said.
pub fn default_backlog() -> (n: u32)
    ensures
        n == 1024,
{
    1024
}

/// Trusting an inbound PROXY header means trusting whoever sends it to state
/// the client's IP. It is therefore off by default and gated on a source-IP
/// allowlist that must not be empty.
#[derive(Debug, Clone)]
pub struct InboundProxyProtocol {
    pub enabled: bool,
    /// Only headers from these networks are honoured.
    pub trusted: IpNets,
    /// Reject connections from trusted networks that arrive without a header.
    pub required: bool,
}

impl Default for InboundProxyProtocol {
    fn default() -> (p: Self)
        ensures
            !p.enabled,
            !p.required,
            p.trusted.0@.len() == 0,
    {
        InboundProxyProtocol { enabled: false, trusted: IpNets::default(), required: false }
    }
}

// ------------------------------------------------------------------ routing

/// Which host leads to which target.
#[derive(Debug, Clone)]
pub struct Routing {
    /// Target used when no rule matches. Without it, unmatched hosts are
    /// refused, which is the safer default for a public edge.
    pub default: Option<String>,
    pub rules: Vec<Rule>,
}

impl Default for Routing {
    fn default() -> (r: Self)
        ensures
            r.default is None,
            r.rules@.len() == 0,
    {
        Routing { default: None, rules: Vec::new() }
    }
}

/// One route.
#[derive(Debug, Clone, PartialEq, Eq)]
pub struct Rule {
    /// Exact host (`survival.example.net`), wildcard (`*.example.net`) or `*`.
    pub host: String,
    /// A server name or a group name.
    pub target: String,
    /// Restrict this rule to specific listeners.
    pub listeners: Option<Vec<String>>,
    /// Per-route MOTD overlay on top of the global one.
    pub motd: Option<MotdOverride>,
}

/// A route as a value.
pub ghost struct RuleValue {
    pub host: Seq<char>,
    pub target: Seq<char>,
    pub listeners: Option<Seq<Seq<char>>>,
    pub motd: Option<MotdOverlay>,
}

impl View for Rule {
    type V = RuleValue;

    open spec fn view(&self) -> RuleValue {
        RuleValue {
            host: self.host@,
            target: self.target@,
            listeners: opt_texts(self.listeners),
            motd: match self.motd {
                Some(motd) => Some(motd@),
                None => None,
            },
        }
    }
}

/// The values of a list of routes.
pub open spec fn rule_values(rules: Seq<Rule>) -> Seq<RuleValue> {
    rules.map_values(|rule: Rule| rule@)
}

impl Rule {
    /// The same route once more.
    pub fn copy(&self) -> (rule: Rule)
        ensures
            rule@ == self@,
    {
        Rule {
            host: self.host.clone(),
            target: self.target.clone(),
            listeners: match &self.listeners {
                Some(names) => Some(copy_texts(names)),
                None => None,
            },
            motd: match &self.motd {
                Some(motd) => Some(motd.copy()),
                None => None,
            },
        }
    }
}

// ------------------------------------------------------------------ servers

/// One backend server.
#[derive(Debug, Clone)]
pub struct Server {
    /// `host:port`. A DNS name is resolved on every connect attempt, so
    /// container restarts with a new address are picked up without a reload.
    pub address: String,
    pub group: Option<String>,
    /// Metadata used for logs, metrics labels and config sanity checks. It
    /// never selects a forwarding mode on its own.
    pub kind: BackendKind,
    pub forwarding: Forwarding,
    /// Relative share for round-robin selection.
    pub weight: u32,
    /// Cap on simultaneous sessions to this server; 0 means unlimited.
    pub max_connections: usize,
    pub health: Option<HealthOverride>,
}

/// The share of a server if nothing else is said.
pub fn default_weight() -> (n: u32)
    ensures
        n == 1,
{
    1
}

/// What software a server runs.
#[derive(Debug, Clone, Copy, PartialEq, Eq, Structural)]
pub enum BackendKind {
    Vanilla,
    Paper,
    Spigot,
    Folia,
    Velocity,
    Bungeecord,
    Fabric,
    Forge,
    Neoforge,
    Quilt,
    Unknown,
}

impl Default for BackendKind {
    fn default() -> (kind: Self)
        ensures
            kind == BackendKind::Unknown,
    {
        BackendKind::Unknown
    }
}

impl BackendKind {
    /// The name of the software.
    pub fn as_str(self) -> (name: &'static str)
        ensures
            name@ == match self {
                BackendKind::Vanilla => "vanilla"@,
                BackendKind::Paper => "paper"@,
                BackendKind::Spigot => "spigot"@,
                BackendKind::Folia => "folia"@,
                BackendKind::Velocity => "velocity"@,
                BackendKind::Bungeecord => "bungeecord"@,
                BackendKind::Fabric => "fabric"@,
                BackendKind::Forge => "forge"@,
                BackendKind::Neoforge => "neoforge"@,
                BackendKind::Quilt => "quilt"@,
                BackendKind::Unknown => "unknown"@,
            },
    {
        match self {
            BackendKind::Vanilla => "vanilla",
            BackendKind::Paper => "paper",
            BackendKind::Spigot => "spigot",
            BackendKind::Folia => "folia",
            BackendKind::Velocity => "velocity",
            BackendKind::Bungeecord => "bungeecord",
            BackendKind::Fabric => "fabric",
            BackendKind::Forge => "forge",
            BackendKind::Neoforge => "neoforge",
            BackendKind::Quilt => "quilt",
            BackendKind::Unknown => "unknown",
        }
    }

    /// Whether this software can read a PROXY protocol header at all.
    ///
    /// Vanilla and the modloaders built on it cannot; only the Bukkit-family
    /// servers and the Java proxies grew an option for it.
    pub fn supports_proxy_protocol(self) -> (yes: bool)
        ensures
            yes == !(self is Vanilla || self is Fabric || self is Forge || self is Neoforge
                || self is Quilt),
    {
        matches!(
            self,
            BackendKind::Paper
                | BackendKind::Spigot
                | BackendKind::Folia
                | BackendKind::Velocity
                | BackendKind::Bungeecord
                | BackendKind::Unknown
        )
    }
}

/// How the backend learns the real client IP.
///
/// Deliberately limited to methods that do not require terminating login at the
/// gateway. Velocity's "modern" forwarding and BungeeCord's `\0`-suffixed
/// handshake both carry an *authenticated identity*, which only a proxy that
/// has itself authenticated the player may assert. This gateway never does,
/// so it never claims to.
#[derive(Debug, Clone, Copy, PartialEq, Eq, Structural)]
pub enum Forwarding {
    /// Plain TCP. The backend sees the gateway's address.
    Plain,
    /// HAProxy PROXY protocol v2 header before the first Minecraft byte.
    /// Paper: `proxy-protocol: true`. Velocity: `haproxy-protocol = true`.
    ProxyProtocolV2,
    /// Linux TPROXY: the outbound socket is bound to the client's own address,
    /// so the backend sees the real IP with no protocol support required.
    Transparent,
}

impl Default for Forwarding {
    fn default() -> (forwarding: Self)
        ensures
            forwarding == Forwarding::Plain,
    {
        Forwarding::Plain
    }
}

impl Forwarding {
    /// The name of the mode.
    pub fn as_str(self) -> (name: &'static str)
        ensures
            name@ == match self {
                Forwarding::Plain => "none"@,
                Forwarding::ProxyProtocolV2 => "proxy_protocol_v2"@,
                Forwarding::Transparent => "transparent"@,
            },
    {
        match self {
            Forwarding::Plain => "none",
            Forwarding::ProxyProtocolV2 => "proxy_protocol_v2",
            Forwarding::Transparent => "transparent",
        }
    }
}

/// Settings of a group of servers.
#[derive(Debug, Clone, Copy, PartialEq, Eq, Structural)]
pub struct Group {
    pub policy: Policy,
}

impl Default for Group {
    fn default() -> (group: Self)
        ensures
            group.policy == Policy::RoundRobin,
    {
        Group { policy: Policy::RoundRobin }
    }
}

/// How a member of a group is picked.
#[derive(Debug, Clone, Copy, PartialEq, Eq, Structural)]
pub enum Policy {
    /// Weighted round robin across healthy members.
    RoundRobin,
    /// Fewest active sessions first.
    LeastConnections,
    /// Always the first healthy member in declaration order.
    Failover,
}

impl Default for Policy {
    fn default() -> (policy: Self)
        ensures
            policy == Policy::RoundRobin,
    {
        Policy::RoundRobin
    }
}

// --------------------------------------------------------------------- motd

/// What the server list shows.
#[derive(Debug, Clone)]
pub struct Motd {
    /// When false, status pings are proxied to the backend instead of being
    /// answered here.
    pub enabled: bool,
    pub text: String,
    pub version_name: String,
    pub protocol: ProtocolPolicy,
    pub max_players: i64,
    pub players: PlayerSource,
    /// Used when `players: static`.
    pub online: i64,
    /// Extra lines shown when hovering the player count.
    pub sample: Vec<String>,
    /// Path of a PNG file, 64x64. Loaded once at start-up.
    pub favicon: Option<String>,
    pub enforces_secure_chat: Option<bool>,
    /// Shown when the route has no healthy backend.
    pub offline: OfflineMotd,
    /// Replaces the first line of a server's own MOTD.
    pub line1: Option<String>,
    /// Replaces the second line of a server's own MOTD.
    pub line2: Option<String>,
}

/// A MOTD as a value.
pub ghost struct MotdValue {
    pub enabled: bool,
    pub text: Seq<char>,
    pub version_name: Seq<char>,
    pub protocol: ProtocolPolicy,
    pub max_players: i64,
    pub players: PlayerSource,
    pub online: i64,
    pub sample: Seq<Seq<char>>,
    pub favicon: Option<Seq<char>>,
    pub enforces_secure_chat: Option<bool>,
    pub offline_text: Seq<char>,
    pub offline_incompatible: bool,
    pub line1: Option<Seq<char>>,
    pub line2: Option<Seq<char>>,
}

impl View for Motd {
    type V = MotdValue;

    open spec fn view(&self) -> MotdValue {
        MotdValue {
            enabled: self.enabled,
            text: self.text@,
            version_name: self.version_name@,
            protocol: self.protocol,
            max_players: self.max_players,
            players: self.players,
            online: self.online,
            sample: texts(self.sample@),
            favicon: opt_text(self.favicon),
            enforces_secure_chat: self.enforces_secure_chat,
            offline_text: self.offline.text@,
            offline_incompatible: self.offline.mark_incompatible,
            line1: opt_text(self.line1),
            line2: opt_text(self.line2),
        }
    }
}

/// The MOTD if nothing else is said.
pub open spec fn default_motd() -> MotdValue {
    MotdValue {
        enabled: true,
        text: "A Minecraft Network"@,
        version_name: "Network"@,
        protocol: ProtocolPolicy::Auto,
        max_players: 1000,
        players: PlayerSource::Sessions,
        online: 0,
        sample: Seq::empty(),
        favicon: None,
        enforces_secure_chat: Some(false),
        offline_text: "&cCurrently offline"@,
        offline_incompatible: true,
        line1: None,
        line2: None,
    }
}

impl Default for Motd {
    fn default() -> (motd: Self)
        ensures
            motd@ == default_motd(),
    {
        let sample: Vec<String> = Vec::new();
        assert(texts(sample@) =~= Seq::<Seq<char>>::empty());
        Self {
            enabled: true,
            text: "A Minecraft Network".to_owned(),
            version_name: "Network".to_owned(),
            protocol: ProtocolPolicy::Auto,
            max_players: 1000,
            players: PlayerSource::Sessions,
            online: 0,
            sample,
            favicon: None,
            enforces_secure_chat: Some(false),
            offline: OfflineMotd::default(),
            line1: None,
            line2: None,
        }
    }
}

/// What the server list shows for a route without a healthy backend.
#[derive(Debug, Clone, PartialEq, Eq)]
pub struct OfflineMotd {
    pub text: String,
    /// Report 0 players and a protocol of -1, which renders as "offline" in the
    /// client's server list.
    pub mark_incompatible: bool,
}

impl Default for OfflineMotd {
    fn default() -> (offline: Self)
        ensures
            offline.text@ == "&cCurrently offline"@,
            offline.mark_incompatible,
    {
        Self { text: "&cCurrently offline".to_owned(), mark_incompatible: true }
    }
}

/// Per-route overlay. Absent fields fall back to the global MOTD.
#[derive(Debug, Clone, PartialEq, Eq)]
pub struct MotdOverride {
    pub enabled: Option<bool>,
    pub text: Option<String>,
    pub version_name: Option<String>,
    pub protocol: Option<ProtocolPolicy>,
    pub max_players: Option<i64>,
    pub players: Option<PlayerSource>,
    pub online: Option<i64>,
    pub sample: Option<Vec<String>>,
    pub favicon: Option<String>,
    pub enforces_secure_chat: Option<bool>,
    pub offline: Option<OfflineMotd>,
    pub line1: Option<String>,
    pub line2: Option<String>,
}

/// An overlay as a value.
pub ghost struct MotdOverlay {
    pub enabled: Option<bool>,
    pub text: Option<Seq<char>>,
    pub version_name: Option<Seq<char>>,
    pub protocol: Option<ProtocolPolicy>,
    pub max_players: Option<i64>,
    pub players: Option<PlayerSource>,
    pub online: Option<i64>,
    pub sample: Option<Seq<Seq<char>>>,
    pub favicon: Option<Seq<char>>,
    pub enforces_secure_chat: Option<bool>,
    /// Text, and whether the entry is marked incompatible.
    pub offline: Option<(Seq<char>, bool)>,
    pub line1: Option<Seq<char>>,
    pub line2: Option<Seq<char>>,
}

/// An overlay that sets nothing.
pub open spec fn empty_overlay() -> MotdOverlay {
    MotdOverlay {
        enabled: None,
        text: None,
        version_name: None,
        protocol: None,
        max_players: None,
        players: None,
        online: None,
        sample: None,
        favicon: None,
        enforces_secure_chat: None,
        offline: None,
        line1: None,
        line2: None,
    }
}

impl View for MotdOverride {
    type V = MotdOverlay;

    open spec fn view(&self) -> MotdOverlay {
        MotdOverlay {
            enabled: self.enabled,
            text: opt_text(self.text),
            version_name: opt_text(self.version_name),
            protocol: self.protocol,
            max_players: self.max_players,
            players: self.players,
            online: self.online,
            sample: opt_texts(self.sample),
            favicon: opt_text(self.favicon),
            enforces_secure_chat: self.enforces_secure_chat,
            offline: match self.offline {
                Some(offline) => Some((offline.text@, offline.mark_incompatible)),
                None => None,
            },
            line1: opt_text(self.line1),
            line2: opt_text(self.line2),
        }
    }
}

impl MotdOverride {
    /// The same overlay once more.
    pub fn copy(&self) -> (over: MotdOverride)
        ensures
            over@ == self@,
    {
        MotdOverride {
            enabled: self.enabled,
            text: copy_opt(&self.text),
            version_name: copy_opt(&self.version_name),
            protocol: self.protocol,
            max_players: self.max_players,
            players: self.players,
            online: self.online,
            sample: match &self.sample {
                Some(sample) => Some(copy_texts(sample)),
                None => None,
            },
            favicon: copy_opt(&self.favicon),
            enforces_secure_chat: self.enforces_secure_chat,
            offline: match &self.offline {
                Some(offline) => Some(
                    OfflineMotd {
                        text: offline.text.clone(),
                        mark_incompatible: offline.mark_incompatible,
                    },
                ),
                None => None,
            },
            line1: copy_opt(&self.line1),
            line2: copy_opt(&self.line2),
        }
    }
}

impl Default for MotdOverride {
    fn default() -> (over: Self)
        ensures
            over@ == empty_overlay(),
    {
        MotdOverride {
            enabled: None,
            text: None,
            version_name: None,
            protocol: None,
            max_players: None,
            players: None,
            online: None,
            sample: None,
            favicon: None,
            enforces_secure_chat: None,
            offline: None,
            line1: None,
            line2: None,
        }
    }
}

/// What is there, or else the other.
pub open spec fn or_else<A>(own: Option<A>, other: A) -> A {
    match own {
        Some(value) => value,
        None => other,
    }
}

/// What is there, or else the other, which may be absent too.
pub open spec fn or_maybe<A>(own: Option<A>, other: Option<A>) -> Option<A> {
    match own {
        Some(value) => Some(value),
        None => other,
    }
}

/// The MOTD of a route: what its overlay sets, and the global MOTD for the rest.
pub open spec fn overlaid(motd: MotdValue, over: MotdOverlay) -> MotdValue {
    MotdValue {
        enabled: or_else(over.enabled, motd.enabled),
        text: or_else(over.text, motd.text),
        version_name: or_else(over.version_name, motd.version_name),
        protocol: or_else(over.protocol, motd.protocol),
        max_players: or_else(over.max_players, motd.max_players),
        players: or_else(over.players, motd.players),
        online: or_else(over.online, motd.online),
        sample: or_else(over.sample, motd.sample),
        favicon: or_maybe(over.favicon, motd.favicon),
        enforces_secure_chat: or_maybe(over.enforces_secure_chat, motd.enforces_secure_chat),
        offline_text: match over.offline {
            Some((text, _)) => text,
            None => motd.offline_text,
        },
        offline_incompatible: match over.offline {
            Some((_, incompatible)) => incompatible,
            None => motd.offline_incompatible,
        },
        line1: or_maybe(over.line1, motd.line1),
        line2: or_maybe(over.line2, motd.line2),
    }
}

/// An overlay that sets nothing leaves the MOTD as it is.
pub proof fn empty_overlay_changes_nothing(motd: MotdValue)
    ensures
        overlaid(motd, empty_overlay()) == motd,
{
}

/// Applying an overlay a second time changes nothing more.
pub proof fn overlay_is_idempotent(motd: MotdValue, over: MotdOverlay)
    ensures
        overlaid(overlaid(motd, over), over) == overlaid(motd, over),
{
}

fn text_or(own: &Option<String>, other: &String) -> (text: String)
    ensures
        text@ == or_else(opt_text(*own), other@),
{
    match own {
        Some(text) => text.clone(),
        None => other.clone(),
    }
}

fn maybe_text_or(own: &Option<String>, other: &Option<String>) -> (text: Option<String>)
    ensures
        opt_text(text) == or_maybe(opt_text(*own), opt_text(*other)),
{
    match own {
        Some(text) => Some(text.clone()),
        None => copy_opt(other),
    }
}

impl Motd {
    /// Whether status pings have to be looked at at all.
    pub fn rewrites_anything(&self) -> (yes: bool)
        ensures
            yes == (self@.line1 is Some || self@.line2 is Some),
    {
        self.line1.is_some() || self.line2.is_some()
    }

    /// The same MOTD once more.
    fn copy(&self) -> (motd: Motd)
        ensures
            motd@ == self@,
    {
        Motd {
            enabled: self.enabled,
            text: self.text.clone(),
            version_name: self.version_name.clone(),
            protocol: self.protocol,
            max_players: self.max_players,
            players: self.players,
            online: self.online,
            sample: copy_texts(&self.sample),
            favicon: copy_opt(&self.favicon),
            enforces_secure_chat: self.enforces_secure_chat,
            offline: OfflineMotd {
                text: self.offline.text.clone(),
                mark_incompatible: self.offline.mark_incompatible,
            },
            line1: copy_opt(&self.line1),
            line2: copy_opt(&self.line2),
        }
    }

    /// Applies a route overlay, returning the effective MOTD.
    pub fn overlay(&self, over: Option<&MotdOverride>) -> (motd: Motd)
        ensures
            motd@ == match over {
                Some(over) => overlaid(self@, over@),
                None => self@,
            },
            over is Some ==> {
                let own = *over->Some_0;
                &&& own.enabled is Some ==> motd.enabled == own.enabled->Some_0
                &&& own.text is Some ==> motd.text@ == own.text->Some_0@
                &&& own.version_name is Some ==> motd.version_name@ == own.version_name->Some_0@
                &&& own.protocol is Some ==> motd.protocol == own.protocol->Some_0
                &&& own.max_players is Some ==> motd.max_players == own.max_players->Some_0
                &&& own.players is Some ==> motd.players == own.players->Some_0
                &&& own.online is Some ==> motd.online == own.online->Some_0
                &&& own.sample is Some ==> texts(motd.sample@) == texts(own.sample->Some_0@)
                &&& own.favicon is Some ==> motd.favicon is Some && motd.favicon->Some_0@
                    == own.favicon->Some_0@
                &&& own.enforces_secure_chat is Some ==> motd.enforces_secure_chat
                    == own.enforces_secure_chat
                &&& own.offline is Some ==> motd.offline.text@ == own.offline->Some_0.text@
                    && motd.offline.mark_incompatible == own.offline->Some_0.mark_incompatible
                &&& own.line1 is Some ==> motd.line1 is Some && motd.line1->Some_0@
                    == own.line1->Some_0@
                &&& own.line2 is Some ==> motd.line2 is Some && motd.line2->Some_0@
                    == own.line2->Some_0@
            },
    {
        let over = match over {
            Some(over) => over,
            None => return self.copy(),
        };
        let sample = match &over.sample {
            Some(sample) => copy_texts(sample),
            None => copy_texts(&self.sample),
        };
        let offline = match &over.offline {
            Some(offline) => OfflineMotd {
                text: offline.text.clone(),
                mark_incompatible: offline.mark_incompatible,
            },
            None => OfflineMotd {
                text: self.offline.text.clone(),
                mark_incompatible: self.offline.mark_incompatible,
            },
        };
        Motd {
            enabled: over.enabled.unwrap_or(self.enabled),
            text: text_or(&over.text, &self.text),
            version_name: text_or(&over.version_name, &self.version_name),
            protocol: over.protocol.unwrap_or(self.protocol),
            max_players: over.max_players.unwrap_or(self.max_players),
            players: over.players.unwrap_or(self.players),
            online: over.online.unwrap_or(self.online),
            sample,
            favicon: maybe_text_or(&over.favicon, &self.favicon),
            enforces_secure_chat: match over.enforces_secure_chat {
                Some(value) => Some(value),
                None => self.enforces_secure_chat,
            },
            offline,
            line1: maybe_text_or(&over.line1, &self.line1),
            line2: maybe_text_or(&over.line2, &self.line2),
        }
    }
}

/// What to report as the server's protocol version.
#[derive(Debug, Clone, Copy, PartialEq, Eq, Structural)]
pub enum ProtocolPolicy {
    /// Echo the client's own protocol number, so the server list never shows
    /// the red "incompatible version" cross regardless of what the client runs.
    Auto,
    /// A fixed number, which makes mismatching clients show as incompatible.
    Fixed(i32),
}

/// The policy that configured text stands for, or what is wrong with it.
pub open spec fn policy_of(text: Seq<char>) -> Result<ProtocolPolicy, Seq<char>> {
    let complaint = "expected `auto` or a number, got `"@ + text + "`"@;
    if lower(text) == "auto"@ {
        Ok(ProtocolPolicy::Auto)
    } else {
        match signed_number(text) {
            Some(n) => if i32::MIN <= n <= i32::MAX {
                Ok(ProtocolPolicy::Fixed(n as i32))
            } else {
                Err(complaint)
            },
            None => Err(complaint),
        }
    }
}

impl ProtocolPolicy {
    /// The number reported to a client that speaks `client_protocol`.
    pub open spec fn reported(self, client_protocol: i32) -> i32 {
        match self {
            ProtocolPolicy::Auto => client_protocol,
            ProtocolPolicy::Fixed(value) => value,
        }
    }

    /// The number reported to a client that speaks `client_protocol`.
    pub fn resolve(self, client_protocol: i32) -> (protocol: i32)
        ensures
            protocol == self.reported(client_protocol),
    {
        match self {
            ProtocolPolicy::Auto => client_protocol,
            ProtocolPolicy::Fixed(value) => value,
        }
    }

    /// Reads `auto` in any case, or a number.
    pub fn from_text(value: &str) -> (r: Result<Self, String>)
        ensures
            match policy_of(value@) {
                Ok(policy) => r == Ok::<ProtocolPolicy, String>(policy),
                Err(error) => r is Err && r->Err_0@ == error,
            },
    {
        let chars = to_chars(value);
        if same_chars(to_lower(chars.as_slice()).as_slice(), to_chars("auto").as_slice()) {
            return Ok(ProtocolPolicy::Auto);
        }
        match parse_signed(chars.as_slice()) {
            Some(n) => if -0x8000_0000 <= n && n <= 0x7fff_ffff {
                Ok(ProtocolPolicy::Fixed(n as i32))
            } else {
                Err(glue3("expected `auto` or a number, got `", value, "`"))
            },
            None => Err(glue3("expected `auto` or a number, got `", value, "`")),
        }
    }

    /// A fixed number, if it is in the range of protocol numbers.
    pub fn from_number(value: i128) -> (r: Result<Self, String>)
        ensures
            if i32::MIN <= value <= i32::MAX {
                r == Ok::<ProtocolPolicy, String>(ProtocolPolicy::Fixed(value as i32))
            } else {
                r is Err && r->Err_0@ == "protocol number out of range"@
            },
    {
        if -0x8000_0000 <= value && value <= 0x7fff_ffff {
            Ok(ProtocolPolicy::Fixed(value as i32))
        } else {
            Err("protocol number out of range".to_owned())
        }
    }
}

/// Where the player count comes from.
#[derive(Debug, Clone, Copy, PartialEq, Eq, Structural)]
pub enum PlayerSource {
    /// Sessions currently proxied by this gateway.
    Sessions,
    /// The fixed `online` value.
    Static,
    /// Sum of the player counts seen by status health checks.
    Backends,
}

impl Default for PlayerSource {
    fn default() -> (source: Self)
        ensures
            source == PlayerSource::Sessions,
    {
        PlayerSource::Sessions
    }
}

// ----------------------------------------------------------------- messages

/// Disconnect reasons. Shown to the player, so they are config, not constants.
#[derive(Debug, Clone)]
pub struct Messages {
    pub no_route: String,
    pub backend_offline: String,
    pub backend_error: String,
    pub rate_limited: String,
    pub too_many_connections: String,
}

impl Messages {
    /// What is said if nothing else is configured.
    pub open spec fn is_default(&self) -> bool {
        &&& self.no_route@ == "&cUnknown server address"@
        &&& self.backend_offline@ == "&cThis server is currently offline"@
        &&& self.backend_error@ == "&cCould not reach the server, please try again"@
        &&& self.rate_limited@ == "&cToo many connection attempts, slow down"@
        &&& self.too_many_connections@ == "&cThe network is full, please try again later"@
    }
}

impl Default for Messages {
    fn default() -> (m: Self)
        ensures
            m.is_default(),
    {
        Self {
            no_route: "&cUnknown server address".to_owned(),
            backend_offline: "&cThis server is currently offline".to_owned(),
            backend_error: "&cCould not reach the server, please try again".to_owned(),
            rate_limited: "&cToo many connection attempts, slow down".to_owned(),
            too_many_connections: "&cThe network is full, please try again later".to_owned(),
        }
    }
}

// ------------------------------------------------------------------- limits

/// How much a client may ask for.
#[derive(Debug, Clone)]
pub struct Limits {
    /// Total simultaneous client connections; 0 means unlimited.
    pub max_connections: usize,
    /// Simultaneous connections from a single IP; 0 means unlimited.
    pub max_connections_per_ip: usize,
    /// Token bucket for new connections per IP.
    pub connection_rate: RateLimit,
    /// Bytes read before the handshake is understood. A client that sends more
    /// than this without producing a valid handshake is dropped.
    pub max_handshake_bytes: usize,
    /// Exempt these networks from every per-IP limit (monitoring, your own LAN).
    pub exempt: IpNets,
}

/// Thirty connections at once, and one every two seconds after that.
pub open spec fn default_rate() -> RateLimit {
    RateLimit { burst: 30, per: seconds(60) }
}

impl Limits {
    /// The limits if nothing else is configured.
    pub open spec fn is_default(&self) -> bool {
        &&& self.max_connections == 20_000
        &&& self.max_connections_per_ip == 8
        &&& self.connection_rate == default_rate()
        &&& self.max_handshake_bytes == 8192
        &&& self.exempt.0@.len() == 0
    }
}

/// Whether two settings are the same limits.
pub open spec fn same_limits(a: Limits, b: Limits) -> bool {
    &&& a.max_connections == b.max_connections
    &&& a.max_connections_per_ip == b.max_connections_per_ip
    &&& a.connection_rate == b.connection_rate
    &&& a.max_handshake_bytes == b.max_handshake_bytes
    &&& a.exempt.0@ == b.exempt.0@
}

impl Limits {
    /// The same limits once more.
    pub fn copy(&self) -> (limits: Limits)
        ensures
            same_limits(limits, *self),
    {
        let mut nets: Vec<IpNet> = Vec::new();
        let mut i: usize = 0;
        assert(nets@ =~= self.exempt.0@.take(0));
        while i < self.exempt.0.len()
            invariant
                i <= self.exempt.0@.len(),
                nets@ == self.exempt.0@.take(i as int),
            decreases self.exempt.0@.len() - i,
        {
            nets.push(self.exempt.0[i]);
            i = i + 1;
            assert(nets@ =~= self.exempt.0@.take(i as int));
        }
        assert(nets@ =~= self.exempt.0@);
        Limits {
            max_connections: self.max_connections,
            max_connections_per_ip: self.max_connections_per_ip,
            connection_rate: self.connection_rate,
            max_handshake_bytes: self.max_handshake_bytes,
            exempt: IpNets(nets),
        }
    }
}

impl Default for Limits {
    fn default() -> (l: Self)
        ensures
            l.is_default(),
    {
        Self {
            max_connections: 20_000,
            max_connections_per_ip: 8,
            connection_rate: RateLimit::default(),
            max_handshake_bytes: 8 * 1024,
            exempt: IpNets::default(),
        }
    }
}

/// A token bucket.
#[derive(Debug, Clone, Copy)]
pub struct RateLimit {
    /// Connections allowed to burst before the bucket empties; 0 disables.
    pub burst: u32,
    /// Time to refill the bucket completely.
    pub per: HumanDuration,
}

impl Default for RateLimit {
    fn default() -> (rate: Self)
        ensures
            rate == default_rate(),
    {
        Self { burst: 30, per: HumanDuration::from_secs(60) }
    }
}

impl RateLimit {
    /// No bucket, or one that is always full.
    pub open spec fn disabled(&self) -> bool {
        self.burst == 0 || self.per.0@ == 0
    }

    /// Whether there is no limit on the rate.
    pub fn is_disabled(&self) -> (yes: bool)
        ensures
            yes == self.disabled(),
    {
        self.burst == 0 || self.per.is_zero()
    }
}

// ----------------------------------------------------------------- timeouts

/// How long things may take.
#[derive(Debug, Clone, Copy)]
pub struct Timeouts {
    /// Time allowed to deliver a complete handshake after connecting.
    pub handshake: HumanDuration,
    /// Time allowed for the whole status exchange.
    pub status: HumanDuration,
    /// TCP connect to the backend.
    pub connect: HumanDuration,
    /// Idle time on an established session before it is closed; 0 disables.
    pub idle: HumanDuration,
    /// Grace period for draining sessions on shutdown.
    pub drain: HumanDuration,
}

/// How long things may take if nothing else is configured.
pub open spec fn default_timeouts() -> Timeouts {
    Timeouts {
        handshake: seconds(5),
        status: seconds(10),
        connect: seconds(3),
        idle: seconds(600),
        drain: seconds(30),
    }
}

impl Default for Timeouts {
    fn default() -> (t: Self)
        ensures
            t == default_timeouts(),
    {
        Self {
            handshake: HumanDuration::from_secs(5),
            status: HumanDuration::from_secs(10),
            connect: HumanDuration::from_secs(3),
            idle: HumanDuration::from_secs(600),
            drain: HumanDuration::from_secs(30),
        }
    }
}

// ------------------------------------------------------------------- health

/// How servers are watched.
#[derive(Debug, Clone, Copy, PartialEq, Eq, Structural)]
pub struct Health {
    pub enabled: bool,
    pub method: HealthMethod,
    pub interval: HumanDuration,
    pub timeout: HumanDuration,
    /// Consecutive successes before a down server is used again.
    pub rise: u32,
    /// Consecutive failures before a server is taken out.
    pub fall: u32,
    /// Assume servers are up until proven otherwise, so a restart of the
    /// gateway does not reject players during the first check interval.
    pub start_healthy: bool,
}

/// How servers are watched if nothing else is configured.
pub open spec fn default_health() -> Health {
    Health {
        enabled: true,
        method: HealthMethod::Status,
        interval: seconds(10),
        timeout: seconds(2),
        rise: 2,
        fall: 3,
        start_healthy: true,
    }
}

impl Default for Health {
    fn default() -> (h: Self)
        ensures
            h == default_health(),
    {
        Self {
            enabled: true,
            method: HealthMethod::Status,
            interval: HumanDuration::from_secs(10),
            timeout: HumanDuration::from_secs(2),
            rise: 2,
            fall: 3,
            start_healthy: true,
        }
    }
}

/// What a check consists of.
#[derive(Debug, Clone, Copy, PartialEq, Eq, Structural)]
pub enum HealthMethod {
    /// TCP connect only.
    Tcp,
    /// Full status ping, which also yields player counts and the backend's
    /// version string.
    Status,
}

impl Default for HealthMethod {
    fn default() -> (method: Self)
        ensures
            method == HealthMethod::Status,
    {
        HealthMethod::Status
    }
}

/// Per-server settings. Absent fields fall back to the global ones.
#[derive(Debug, Clone, Copy, PartialEq, Eq, Structural)]
pub struct HealthOverride {
    pub enabled: Option<bool>,
    pub method: Option<HealthMethod>,
    pub interval: Option<HumanDuration>,
    pub timeout: Option<HumanDuration>,
    pub rise: Option<u32>,
    pub fall: Option<u32>,
}

impl Default for HealthOverride {
    fn default() -> (over: Self)
        ensures
            over == (HealthOverride {
                enabled: None,
                method: None,
                interval: None,
                timeout: None,
                rise: None,
                fall: None,
            }),
    {
        HealthOverride {
            enabled: None,
            method: None,
            interval: None,
            timeout: None,
            rise: None,
            fall: None,
        }
    }
}

/// The settings for one server: its own, and the global ones for the rest.
pub open spec fn health_overlaid(health: Health, over: Option<HealthOverride>) -> Health {
    match over {
        None => health,
        Some(over) => Health {
            enabled: or_else(over.enabled, health.enabled),
            method: or_else(over.method, health.method),
            interval: or_else(over.interval, health.interval),
            timeout: or_else(over.timeout, health.timeout),
            rise: or_else(over.rise, health.rise),
            fall: or_else(over.fall, health.fall),
            start_healthy: health.start_healthy,
        },
    }
}

impl Health {
    /// The settings for one server.
    pub fn overlay(&self, over: Option<&HealthOverride>) -> (health: Health)
        ensures
            health == match over {
                Some(over) => health_overlaid(*self, Some(*over)),
                None => health_overlaid(*self, None),
            },
    {
        let over = match over {
            Some(over) => over,
            None => return *self,
        };
        Health {
            enabled: over.enabled.unwrap_or(self.enabled),
            method: over.method.unwrap_or(self.method),
            interval: over.interval.unwrap_or(self.interval),
            timeout: over.timeout.unwrap_or(self.timeout),
            rise: over.rise.unwrap_or(self.rise),
            fall: over.fall.unwrap_or(self.fall),
            start_healthy: self.start_healthy,
        }
    }
}

// ------------------------------------------------------ metrics and logging

/// The scrape endpoint.
#[derive(Debug, Clone, Copy, PartialEq, Eq, Structural)]
pub struct Metrics {
    pub enabled: bool,
    /// Prometheus scrape endpoint. Keep it off the public interface.
    pub bind: SocketAddr,
}

/// The scrape endpoint if nothing else is configured: off, and then private.
pub open spec fn default_metrics() -> Metrics {
    Metrics { enabled: false, bind: plain_socket(IpAddr::V4(0x7f00_0001), 9100) }
}

impl Default for Metrics {
    fn default() -> (m: Self)
        ensures
            m == default_metrics(),
    {
        Self { enabled: false, bind: SocketAddr::new(IpAddr::V4(0x7f00_0001), 9100) }
    }
}

/// What is logged.
#[derive(Debug, Clone)]
pub struct Log {
    pub level: String,
    pub format: LogFormat,
    /// Include client IPs in connection logs. Turning this off keeps the
    /// gateway useful while logging no personal data.
    pub client_ip: bool,
}

impl Log {
    /// What is logged if nothing else is configured.
    pub open spec fn is_default(&self) -> bool {
        self.level@ == "info"@ && self.format == LogFormat::Text && self.client_ip
    }
}

impl Default for Log {
    fn default() -> (log: Self)
        ensures
            log.is_default(),
    {
        Self { level: "info".to_owned(), format: LogFormat::Text, client_ip: true }
    }
}

/// The form of log lines.
#[derive(Debug, Clone, Copy, PartialEq, Eq, Structural)]
pub enum LogFormat {
    Text,
    Json,
}

impl Default for LogFormat {
    fn default() -> (format: Self)
        ensures
            format == LogFormat::Text,
    {
        LogFormat::Text
    }
}

impl Default for Config {
    fn default() -> (config: Self)
        ensures
            config.wf(),
            config.listeners@.len() == 0,
            config.intercept is None,
            config.routing.default is None,
            config.routing.rules@.len() == 0,
            config.servers@.len() == 0,
            config.groups@.len() == 0,
            config.motd@ == default_motd(),
            config.messages.is_default(),
            config.limits.is_default(),
            config.timeouts == default_timeouts(),
            config.health == default_health(),
            config.metrics == default_metrics(),
            config.log.is_default(),
    {
        Config {
            listeners: Vec::new(),
            intercept: None,
            routing: Routing::default(),
            servers: Vec::new(),
            groups: Vec::new(),
            motd: Motd::default(),
            messages: Messages::default(),
            limits: Limits::default(),
            timeouts: Timeouts::default(),
            health: Health::default(),
            metrics: Metrics::default(),
            log: Log::default(),
        }
    }
}

// -------------------------------------------------------------------- laws --

/// Every field that an overlay sets is the field of the effective MOTD.
pub proof fn what_an_overlay_sets_is_shown(motd: MotdValue, over: MotdOverlay)
    ensures
        ({
            let shown = overlaid(motd, over);
            &&& over.enabled is Some ==> shown.enabled == over.enabled->Some_0
            &&& over.text is Some ==> shown.text == over.text->Some_0
            &&& over.version_name is Some ==> shown.version_name == over.version_name->Some_0
            &&& over.protocol is Some ==> shown.protocol == over.protocol->Some_0
            &&& over.max_players is Some ==> shown.max_players == over.max_players->Some_0
            &&& over.players is Some ==> shown.players == over.players->Some_0
            &&& over.online is Some ==> shown.online == over.online->Some_0
            &&& over.sample is Some ==> shown.sample == over.sample->Some_0
            &&& over.favicon is Some ==> shown.favicon == over.favicon
            &&& over.enforces_secure_chat is Some ==> shown.enforces_secure_chat
                == over.enforces_secure_chat
            &&& over.offline is Some ==> shown.offline_text == over.offline->Some_0.0
                && shown.offline_incompatible == over.offline->Some_0.1
            &&& over.line1 is Some ==> shown.line1 == over.line1
            &&& over.line2 is Some ==> shown.line2 == over.line2
        }),
{
}

/// Every field that an overlay does not set is that of the global MOTD.
pub proof fn what_an_overlay_leaves_out_stays(motd: MotdValue, over: MotdOverlay)
    ensures
        ({
            let shown = overlaid(motd, over);
            &&& over.enabled is None ==> shown.enabled == motd.enabled
            &&& over.text is None ==> shown.text == motd.text
            &&& over.version_name is None ==> shown.version_name == motd.version_name
            &&& over.protocol is None ==> shown.protocol == motd.protocol
            &&& over.max_players is None ==> shown.max_players == motd.max_players
            &&& over.players is None ==> shown.players == motd.players
            &&& over.online is None ==> shown.online == motd.online
            &&& over.sample is None ==> shown.sample == motd.sample
            &&& over.favicon is None ==> shown.favicon == motd.favicon
            &&& over.enforces_secure_chat is None ==> shown.enforces_secure_chat
                == motd.enforces_secure_chat
            &&& over.offline is None ==> shown.offline_text == motd.offline_text
                && shown.offline_incompatible == motd.offline_incompatible
            &&& over.line1 is None ==> shown.line1 == motd.line1
            &&& over.line2 is None ==> shown.line2 == motd.line2
        }),
{
}

/// A server's own health settings hold where it has them, the global ones where
/// it has none, and whether servers start healthy is always the global setting.
pub proof fn a_servers_own_health_settings_hold(health: Health, over: HealthOverride)
    ensures
        health_overlaid(health, None) == health,
        ({
            let shown = health_overlaid(health, Some(over));
            &&& shown.enabled == (if over.enabled is Some {
                over.enabled->Some_0
            } else {
                health.enabled
            })
            &&& shown.method == (if over.method is Some {
                over.method->Some_0
            } else {
                health.method
            })
            &&& shown.interval == (if over.interval is Some {
                over.interval->Some_0
            } else {
                health.interval
            })
            &&& shown.timeout == (if over.timeout is Some {
                over.timeout->Some_0
            } else {
                health.timeout
            })
            &&& shown.rise == (if over.rise is Some {
                over.rise->Some_0
            } else {
                health.rise
            })
            &&& shown.fall == (if over.fall is Some {
                over.fall->Some_0
            } else {
                health.fall
            })
            &&& shown.start_healthy == health.start_healthy
        }),
{
}

/// A protocol policy is read as `auto` in any case, or as the number that the
/// text spells, within the range of protocol numbers; nothing else is one.
pub proof fn protocol_policies_are_auto_or_numbers(text: Seq<char>, n: i32, client: i32)
    ensures
        policy_of(integer_text(n as int)) == Ok::<ProtocolPolicy, Seq<char>>(
            ProtocolPolicy::Fixed(n),
        ),
        lower(text) == "auto"@ ==> policy_of(text) == Ok::<ProtocolPolicy, Seq<char>>(
            ProtocolPolicy::Auto,
        ),
        lower(text) != "auto"@ && (signed_number(text) is None || signed_number(text)->Some_0
            < -0x8000_0000 || signed_number(text)->Some_0 > 0x7fff_ffff) ==> policy_of(text)
            is Err,
        ProtocolPolicy::Auto.reported(client) == client,
        ProtocolPolicy::Fixed(n).reported(client) == n,
{
    integer_round_trip(n as int);
    reveal_strlit("auto");
    let spelled = integer_text(n as int);
    if lower(spelled) == "auto"@ {
        assert(lower(spelled)[0] == 'a');
        lemma_lower_char(spelled[0]);
        assert(spelled[0] == 'a' || spelled[0] == 'A');
        assert(spelled.contains(spelled[0]));
        lemma_integer_contains(n as int, spelled[0]);
    }
}

/// A rate is switched off by a burst of zero or a refill time of zero, and by
/// nothing else.
pub proof fn a_rate_is_switched_off_by_zero(rate: RateLimit)
    ensures
        rate.disabled() == (rate.burst == 0 || rate.per.0@ == 0),
{
}

/// What holds where nothing else is configured.
pub proof fn defaults_hold_where_nothing_is_said()
    ensures
        default_rate().burst == 30,
        default_rate().per.0@ == 60_000_000_000,
        default_timeouts().handshake.0@ == 5_000_000_000,
        default_timeouts().status.0@ == 10_000_000_000,
        default_timeouts().connect.0@ == 3_000_000_000,
        default_timeouts().idle.0@ == 600_000_000_000,
        default_timeouts().drain.0@ == 30_000_000_000,
        default_health().enabled,
        default_health().method == HealthMethod::Status,
        default_health().interval.0@ == 10_000_000_000,
        default_health().timeout.0@ == 2_000_000_000,
        default_health().rise == 2,
        default_health().fall == 3,
        default_health().start_healthy,
        default_motd().enabled,
        default_motd().text == "A Minecraft Network"@,
        default_motd().version_name == "Network"@,
        default_motd().protocol == ProtocolPolicy::Auto,
        default_motd().max_players == 1000,
        default_motd().players == PlayerSource::Sessions,
        default_motd().sample.len() == 0,
        default_motd().favicon is None,
        default_motd().enforces_secure_chat == Some(false),
        default_motd().offline_text == "&cCurrently offline"@,
        default_motd().offline_incompatible,
        default_motd().line1 is None,
        default_motd().line2 is None,
{
}

/// Limits are the same where each of them is.
pub proof fn limits_are_the_same_field_by_field(a: Limits, b: Limits)
    ensures
        same_limits(a, b) == (a.max_connections == b.max_connections && a.max_connections_per_ip
            == b.max_connections_per_ip && a.connection_rate == b.connection_rate
            && a.max_handshake_bytes == b.max_handshake_bytes && a.exempt.0@ == b.exempt.0@),
        a.is_default() ==> a.max_connections == 20_000 && a.max_connections_per_ip == 8
            && a.max_handshake_bytes == 8192 && a.exempt.0@.len() == 0
            && a.connection_rate.burst == 30,
{
}

/// Metrics are off, and else private, where nothing is said.
pub proof fn metrics_are_private_by_default()
    ensures
        !default_metrics().enabled,
        default_metrics().bind.ip == IpAddr::V4(0x7f00_0001),
        default_metrics().bind.port == 9100,
{
}

} // verus!
