//! Configuration of a node: which ports to intercept, and what to put in the
//! MOTD. Everything but the ports has a default.

use vstd::prelude::*;

use crate::config::duration::{seconds, HumanDuration};
use crate::config::intercept::{
    covered, default_listen, default_listen_v6, listen_default, listen_v6_default, ranges_cover,
    PortRange,
};
use crate::config::model::{default_metrics, LogFormat, Metrics};
use crate::config::validate::{
    lemma_overlaps, lemma_said, lemma_sum, overlaps, push_overlaps, said_if, ConfigError,
};
use crate::net::{socket_text, IpAddr, SocketAddr};
use crate::text::{decimal, decimal_text, glue3, glue5, opt_text, push_text, texts};

verus! {

/// The whole configuration of a node.
#[derive(Debug, Clone)]
pub struct Config {
    /// Ports whose connections are taken over, e.g. `["25565-25665", 30000]`.
    pub ports: Vec<PortRange>,
    /// Where the kernel hands intercepted IPv4 connections over. Loopback keeps
    /// it unreachable from outside.
    pub listen: SocketAddr,
    /// The same for IPv6. Absent, IPv6 connections are left alone.
    pub listen_v6: Option<SocketAddr>,
    pub motd: Motd,
    pub offline: Offline,
    pub timeouts: Timeouts,
    pub metrics: Metrics,
    pub log: Log,
}

/// The lines replaced in every intercepted server's MOTD. Unset lines stay the
/// server's own.
#[derive(Debug, Clone, PartialEq, Eq)]
pub struct Motd {
    pub line1: Option<String>,
    pub line2: Option<String>,
}

impl Default for Motd {
    fn default() -> (motd: Self)
        ensures
            motd.line1 is None,
            motd.line2 is None,
    {
        Motd { line1: None, line2: None }
    }
}

impl Motd {
    /// Whether status pings have to be looked at at all.
    pub open spec fn rewrites(&self) -> bool {
        self.line1 is Some || self.line2 is Some
    }

    /// Whether status pings have to be looked at at all.
    pub fn rewrites_anything(&self) -> (yes: bool)
        ensures
            yes == self.rewrites(),
    {
        self.line1.is_some() || self.line2.is_some()
    }
}

/// What players see when the server behind a port does not answer: stopped,
/// crashed, or no server allocated to that port at all.
#[derive(Debug, Clone, PartialEq, Eq)]
pub struct Offline {
    /// When off, an unreachable server's port simply closes the connection.
    pub enabled: bool,
    /// The server list MOTD. `motd.line1`/`line2` still apply on top of it.
    pub motd: String,
    /// Shown in red where the ping bars would be.
    pub version: String,
    /// Disconnect message for a player trying to join. Absent, the connection
    /// is closed without one.
    pub kick: Option<String>,
}

impl Offline {
    /// What players see if nothing else is configured.
    pub open spec fn is_default(&self) -> bool {
        &&& self.enabled
        &&& self.motd@ == "&cThis server is offline"@
        &&& self.version@ == "&cOffline"@
        &&& opt_text(self.kick) == Some(
            "&cThis server is offline right now.\n&7Try again later."@,
        )
    }
}

impl Default for Offline {
    fn default() -> (offline: Self)
        ensures
            offline.is_default(),
    {
        Self {
            enabled: true,
            motd: "&cThis server is offline".to_owned(),
            version: "&cOffline".to_owned(),
            kick: Some("&cThis server is offline right now.\n&7Try again later.".to_owned()),
        }
    }
}

/// How long things may take.
#[derive(Debug, Clone, Copy)]
pub struct Timeouts {
    /// How long to wait for a client to show whether it is a status ping.
    /// Anything still undecided is passed through.
    pub handshake: HumanDuration,
    /// How long to wait for the server's status response.
    pub status: HumanDuration,
    /// Connecting to the server.
    pub connect: HumanDuration,
    /// How long open connections get to finish on shutdown.
    pub drain: HumanDuration,
}

/// How long things may take if nothing else is configured.
pub open spec fn default_timeouts() -> Timeouts {
    Timeouts {
        handshake: seconds(5),
        status: seconds(10),
        connect: seconds(3),
        drain: seconds(30),
    }
}

impl Default for Timeouts {
    fn default() -> (t: Self)
        ensures
            t == default_timeouts(),
    {
        Self {
            handshake: HumanDuration::from_secs(5),
            status: HumanDuration::from_secs(10),
            connect: HumanDuration::from_secs(3),
            drain: HumanDuration::from_secs(30),
        }
    }
}

/// What is logged.
#[derive(Debug, Clone)]
pub struct Log {
    pub level: String,
    pub format: LogFormat,
    /// Include player addresses in logs.
    pub client_ip: bool,
}

impl Log {
    /// What is logged if nothing else is configured: no player addresses.
    pub open spec fn is_default(&self) -> bool {
        self.level@ == "info"@ && self.format == LogFormat::Text && !self.client_ip
    }
}

impl Default for Log {
    fn default() -> (log: Self)
        ensures
            log.is_default(),
    {
        Self { level: "info".to_owned(), format: LogFormat::Text, client_ip: false }
    }
}

/// A parsed configuration together with any non-fatal complaints.
#[derive(Debug, Clone)]
pub struct Loaded {
    pub config: Config,
    pub warnings: Vec<String>,
}

/// The complaint about a listener whose own port is taken over.
pub open spec fn looping(field: Seq<char>, port: u16) -> Seq<char> {
    "`"@ + field + "` port "@ + decimal(port as nat)
        + " lies inside `ports`; connections would loop back into the gateway"@
}

/// Everything that is wrong with a configuration.
pub open spec fn config_errors(config: Config) -> Seq<Seq<char>> {
    let ports = config.ports@;
    said_if(ports.len() == 0, "`ports` is empty"@) + said_if(
        !(config.listen.ip is V4),
        "`listen` must be an IPv4 address"@,
    ) + said_if(
        config.listen_v6 is Some && !(config.listen_v6->Some_0.ip is V6),
        "`listen_v6` must be an IPv6 address"@,
    ) + said_if(
        covered(ports, config.listen.port),
        looping("listen"@, config.listen.port),
    ) + said_if(
        config.listen_v6 is Some && covered(ports, config.listen_v6->Some_0.port),
        looping("listen_v6"@, config.listen_v6->Some_0.port),
    )
}

/// Everything that looks unintended about a configuration.
pub open spec fn config_warnings(config: Config, linux: bool) -> Seq<Seq<char>> {
    overlaps("ports"@, config.ports@, config.ports@.len()) + said_if(
        !config.motd.rewrites(),
        "motd.line1 and motd.line2 are unset: every connection passes through untouched"@,
    ) + said_if(
        config.metrics.enabled && config.metrics.bind.ip.unspecified(),
        "metrics listen on "@ + socket_text(config.metrics.bind)
            + ", which is reachable from outside"@,
    ) + said_if(!linux, "interception needs Linux; this build can only check the config"@)
}

fn push_if(list: &mut Vec<String>, wrong: bool, message: &str)
    ensures
        texts(final(list)@) == texts(old(list)@) + said_if(wrong, message@),
{
    if wrong {
        push_text(list, message.to_owned());
    }
    assert(texts(list@) =~= texts(old(list)@) + said_if(wrong, message@));
}

fn looping_text(field: &str, port: u16) -> (text: String)
    ensures
        text@ == looping(field@, port),
{
    glue5(
        "`",
        field,
        "` port ",
        decimal_text(port as u128).as_str(),
        " lies inside `ports`; connections would loop back into the gateway",
    )
}

impl Config {
    /// A configuration for these ports with every default.
    pub fn for_ports(ports: Vec<PortRange>) -> (config: Self)
        ensures
            config.ports == ports,
            config.listen == listen_default(),
            config.listen_v6 == Some(listen_v6_default()),
            !config.motd.rewrites(),
            config.offline.is_default(),
            config.timeouts == default_timeouts(),
            config.metrics == default_metrics(),
            config.log.is_default(),
    {
        Config {
            ports,
            listen: default_listen(),
            listen_v6: default_listen_v6(),
            motd: Motd::default(),
            offline: Offline::default(),
            timeouts: Timeouts::default(),
            metrics: Metrics::default(),
            log: Log::default(),
        }
    }

    /// Whether connections to `port` are taken over.
    pub fn covers(&self, port: u16) -> (yes: bool)
        ensures
            yes == covered(self.ports@, port),
    {
        ranges_cover(&self.ports, port)
    }

    /// Hard errors abort start-up; the returned warnings are logged. `linux`
    /// says whether this build can intercept connections.
    #[verifier::rlimit(40)]
    pub fn validate(&self, linux: bool) -> (r: Result<Vec<String>, ConfigError>)
        ensures
            if config_errors(*self).len() == 0 {
                r is Ok && texts(r->Ok_0@) == config_warnings(*self, linux)
            } else {
                r is Err && r->Err_0 is Invalid && texts(r->Err_0->Invalid_0@) == config_errors(
                    *self,
                )
            },
    {
        let mut errors: Vec<String> = Vec::new();
        let mut warnings: Vec<String> = Vec::new();
        assert(texts(errors@) =~= Seq::<Seq<char>>::empty());
        assert(texts(warnings@) =~= Seq::<Seq<char>>::empty());
        push_if(&mut errors, self.ports.len() == 0, "`ports` is empty");
        push_if(&mut errors, !self.listen.ip.is_ipv4(), "`listen` must be an IPv4 address");
        let wrong_family: bool = match self.listen_v6 {
            Some(listen) => !listen.ip.is_ipv6(),
            None => false,
        };
        push_if(&mut errors, wrong_family, "`listen_v6` must be an IPv6 address");
        push_if(
            &mut errors,
            self.covers(self.listen.port),
            looping_text("listen", self.listen.port).as_str(),
        );
        if let Some(listen) = self.listen_v6 {
            push_if(
                &mut errors,
                self.covers(listen.port),
                looping_text("listen_v6", listen.port).as_str(),
            );
        }
        assert(texts(errors@) =~= config_errors(*self));
        push_overlaps(&mut warnings, "ports", &self.ports);
        push_if(
            &mut warnings,
            !self.motd.rewrites_anything(),
            "motd.line1 and motd.line2 are unset: every connection passes through untouched",
        );
        let exposed = glue3(
            "metrics listen on ",
            self.metrics.bind.to_text().as_str(),
            ", which is reachable from outside",
        );
        push_if(
            &mut warnings,
            self.metrics.enabled && self.metrics.bind.ip.is_unspecified(),
            exposed.as_str(),
        );
        push_if(
            &mut warnings,
            !linux,
            "interception needs Linux; this build can only check the config",
        );
        assert(texts(warnings@) =~= config_warnings(*self, linux));
        assert(texts(errors@).len() == errors@.len());
        if errors.len() == 0 {
            Ok(warnings)
        } else {
            Err(ConfigError::Invalid(errors))
        }
    }
}

impl Config {
    /// Takes a configuration that was just read into use, with its warnings, or
    /// says what is wrong with it.
    pub fn accept(self, linux: bool) -> (r: Result<Loaded, ConfigError>)
        ensures
            if config_errors(self).len() == 0 {
                r is Ok && r->Ok_0.config == self && texts(r->Ok_0.warnings@) == config_warnings(
                    self,
                    linux,
                )
            } else {
                r is Err && r->Err_0 is Invalid && texts(r->Err_0->Invalid_0@) == config_errors(
                    self,
                )
            },
    {
        match self.validate(linux) {
            Ok(warnings) => Ok(Loaded { config: self, warnings }),
            Err(error) => Err(error),
        }
    }
}

/// With a configuration that is accepted no connection can loop back into the
/// gateway, and each listener has its family.
pub proof fn accepted_config_cannot_loop(config: Config)
    requires
        config_errors(config).len() == 0,
    ensures
        config.ports@.len() > 0,
        config.listen.ip is V4,
        !covered(config.ports@, config.listen.port),
        config.listen_v6 is Some ==> config.listen_v6->Some_0.ip is V6 && !covered(
            config.ports@,
            config.listen_v6->Some_0.port,
        ),
{
}

/// A configuration is accepted exactly where it takes some ports over, listens
/// on addresses of the right families, and takes none of its own ports over.
pub proof fn accepted_config_is_sound(config: Config)
    ensures
        (config_errors(config).len() == 0) == {
            &&& config.ports@.len() > 0
            &&& config.listen.ip is V4
            &&& config.listen_v6 is Some ==> config.listen_v6->Some_0.ip is V6
            &&& forall|i: int|
                0 <= i < config.ports@.len() ==> {
                    &&& !((#[trigger] config.ports@[i]).start <= config.listen.port
                        <= config.ports@[i].end)
                    &&& config.listen_v6 is Some ==> !(config.ports@[i].start
                        <= config.listen_v6->Some_0.port <= config.ports@[i].end)
                }
        },
{
    let ports = config.ports@;
    assert forall|i: int, port: u16| 0 <= i < ports.len() && #[trigger] ports[i].holds(
        port,
    ) implies #[trigger] covered(ports, port) by {}
    assert forall|i: int| 0 <= i < ports.len() && config.listen_v6 is Some && (
    #[trigger] ports[i]).start <= config.listen_v6->Some_0.port
        <= ports[i].end implies covered(ports, config.listen_v6->Some_0.port) by {
        assert(ports[i].holds(config.listen_v6->Some_0.port));
    }
    assert forall|i: int| 0 <= i < ports.len() && (#[trigger] ports[i]).start
        <= config.listen.port <= ports[i].end implies covered(ports, config.listen.port) by {
        assert(ports[i].holds(config.listen.port));
    }
}

/// A configuration draws no warning exactly where no two ranges share a port,
/// some line is put in, the metrics are not open to the world, and the machine
/// can intercept.
pub proof fn unwarned_config_is_meant(config: Config, linux: bool)
    ensures
        (config_warnings(config, linux).len() == 0) == {
            &&& linux
            &&& config.motd.line1 is Some || config.motd.line2 is Some
            &&& config.metrics.enabled ==> config.metrics.bind.ip != IpAddr::V4(0)
                && config.metrics.bind.ip != IpAddr::V6(0)
            &&& forall|i: int, j: int|
                0 <= i < j < config.ports@.len() ==> !(#[trigger] config.ports@[i]).meets(
                    #[trigger] config.ports@[j],
                )
        },
{
    lemma_overlaps("ports"@, config.ports@, config.ports@.len());
}

/// A node passes everything through exactly where it has no line to put in.
pub proof fn one_line_is_enough(motd: Motd)
    ensures
        motd.line1 is Some ==> motd.rewrites(),
        motd.line2 is Some ==> motd.rewrites(),
        motd.line1 is None && motd.line2 is None ==> !motd.rewrites(),
{
}

/// Each thing that is wrong with a configuration is told by the field it is
/// about.
pub proof fn complaints_name_their_field(config: Config, linux: bool)
    ensures
        config.ports@.len() == 0 ==> config_errors(config).contains("`ports` is empty"@),
        config.listen.ip is V6 ==> config_errors(config).contains(
            "`listen` must be an IPv4 address"@,
        ),
        config.listen_v6 is Some && config.listen_v6->Some_0.ip is V4 ==> config_errors(
            config,
        ).contains("`listen_v6` must be an IPv6 address"@),
        covered(config.ports@, config.listen.port) ==> config_errors(config).contains(
            "`"@ + "listen"@ + "` port "@ + decimal(config.listen.port as nat)
                + " lies inside `ports`; connections would loop back into the gateway"@,
        ),
        !linux ==> config_warnings(config, linux).contains(
            "interception needs Linux; this build can only check the config"@,
        ),
        config.motd.line1 is None && config.motd.line2 is None ==> config_warnings(
            config,
            linux,
        ).contains(
            "motd.line1 and motd.line2 are unset: every connection passes through untouched"@,
        ),
{
    let ports = config.ports@;
    let w3 = config.listen_v6 is Some && !(config.listen_v6->Some_0.ip is V6);
    let w4 = covered(ports, config.listen.port);
    let w5 = config.listen_v6 is Some && covered(ports, config.listen_v6->Some_0.port);
    let m4 = looping("listen"@, config.listen.port);
    let s1 = said_if(ports.len() == 0, "`ports` is empty"@);
    let s2 = said_if(!(config.listen.ip is V4), "`listen` must be an IPv4 address"@);
    let s3 = said_if(w3, "`listen_v6` must be an IPv6 address"@);
    let s4 = said_if(w4, m4);
    let s5 = said_if(w5, looping("listen_v6"@, config.listen_v6->Some_0.port));
    lemma_said(ports.len() == 0, "`ports` is empty"@);
    lemma_said(!(config.listen.ip is V4), "`listen` must be an IPv4 address"@);
    lemma_said(w3, "`listen_v6` must be an IPv6 address"@);
    lemma_said(w4, m4);
    lemma_sum(s1, s2);
    lemma_sum(s1 + s2, s3);
    lemma_sum(s1 + s2 + s3, s4);
    lemma_sum(s1 + s2 + s3 + s4, s5);
    let quiet = !config.motd.rewrites();
    let open = config.metrics.enabled && config.metrics.bind.ip.unspecified();
    let q2 = "motd.line1 and motd.line2 are unset: every connection passes through untouched"@;
    let q3 = "metrics listen on "@ + socket_text(config.metrics.bind)
        + ", which is reachable from outside"@;
    let q4 = "interception needs Linux; this build can only check the config"@;
    let met = overlaps("ports"@, ports, ports.len());
    lemma_said(quiet, q2);
    lemma_said(!linux, q4);
    lemma_sum(met, said_if(quiet, q2));
    lemma_sum(met + said_if(quiet, q2), said_if(open, q3));
    lemma_sum(met + said_if(quiet, q2) + said_if(open, q3), said_if(!linux, q4));
}

} // verus!
