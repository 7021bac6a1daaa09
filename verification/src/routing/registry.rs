//! The backend registry: what exists, what is healthy, and which one gets the
//! next player.

use std::sync::Arc;

use vstd::prelude::*;

use crate::config::model::{
    ascending, health_overlaid, rule_values, server_names, BackendKind, Config, Forwarding, Group,
    Health, Policy, Rule, RuleValue, Server,
};
use crate::config::validate::{
    group_members, is_target, members as member_names, servers_by_name,
};
use crate::order::{name_order, names_are_ordered, slices};
use crate::routing::matcher::{alone_decides, any_rule, decides, some_rule_decides, Matcher};
use crate::text::{copy_opt, opt_text, same_text, text_less};
use crate::time::Duration;

verus! {

/// What the last successful status health check saw.
#[derive(Debug, Clone, PartialEq, Eq)]
pub struct StatusSnapshot {
    pub online: i64,
    pub max: i64,
    pub version: String,
    pub protocol: i32,
    pub latency: Duration,
}

/// A snapshot as a value.
pub ghost struct SnapshotValue {
    pub online: i64,
    pub max: i64,
    pub version: Seq<char>,
    pub protocol: i32,
    pub latency: Duration,
}

impl View for StatusSnapshot {
    type V = SnapshotValue;

    open spec fn view(&self) -> SnapshotValue {
        SnapshotValue {
            online: self.online,
            max: self.max,
            version: self.version@,
            protocol: self.protocol,
            latency: self.latency,
        }
    }
}

/// The value of a snapshot that may be absent.
pub open spec fn opt_snapshot(snapshot: Option<StatusSnapshot>) -> Option<SnapshotValue> {
    match snapshot {
        Some(snapshot) => Some(snapshot@),
        None => None,
    }
}

impl StatusSnapshot {
    /// The same snapshot once more.
    pub fn copy(&self) -> (snapshot: StatusSnapshot)
        ensures
            snapshot@ == self@,
    {
        StatusSnapshot {
            online: self.online,
            max: self.max,
            version: self.version.clone(),
            protocol: self.protocol,
            latency: self.latency,
        }
    }
}

fn copy_status(status: &Option<StatusSnapshot>) -> (copy: Option<StatusSnapshot>)
    ensures
        opt_snapshot(copy) == opt_snapshot(*status),
{
    match status {
        Some(snapshot) => Some(snapshot.copy()),
        None => None,
    }
}

/// A backend server plus everything the gateway learned about it at runtime.
#[derive(Debug)]
pub struct Backend {
    pub name: String,
    /// `host:port`, resolved per connect.
    pub address: String,
    pub kind: BackendKind,
    pub forwarding: Forwarding,
    pub weight: u32,
    /// 0 means unlimited.
    pub max_connections: usize,
    pub health_config: Health,
    pub group: Option<String>,
    pub(crate) healthy: bool,
    pub(crate) consecutive_ok: u32,
    pub(crate) consecutive_fail: u32,
    pub(crate) active: usize,
    pub(crate) sessions_total: u64,
    pub(crate) status: Option<StatusSnapshot>,
}

/// A backend as a value.
pub ghost struct BackendValue {
    pub name: Seq<char>,
    pub address: Seq<char>,
    pub kind: BackendKind,
    pub forwarding: Forwarding,
    pub weight: u32,
    pub max_connections: usize,
    pub health_config: Health,
    pub group: Option<Seq<char>>,
    pub healthy: bool,
    /// Checks in a row that succeeded.
    pub consecutive_ok: u32,
    /// Checks in a row that failed.
    pub consecutive_fail: u32,
    /// Sessions that hold a slot.
    pub active: usize,
    /// Sessions that ever held a slot.
    pub sessions_total: u64,
    pub status: Option<SnapshotValue>,
}

impl View for Backend {
    type V = BackendValue;

    closed spec fn view(&self) -> BackendValue {
        BackendValue {
            name: self.name@,
            address: self.address@,
            kind: self.kind,
            forwarding: self.forwarding,
            weight: self.weight,
            max_connections: self.max_connections,
            health_config: self.health_config,
            group: opt_text(self.group),
            healthy: self.healthy,
            consecutive_ok: self.consecutive_ok,
            consecutive_fail: self.consecutive_fail,
            active: self.active,
            sessions_total: self.sessions_total,
            status: opt_snapshot(self.status),
        }
    }
}

/// One more, starting over at zero behind the largest number.
pub open spec fn next_u32(n: u32) -> u32 {
    if n == u32::MAX {
        0
    } else {
        (n + 1) as u32
    }
}

/// One more, starting over at zero behind the largest number.
pub open spec fn next_u64(n: u64) -> u64 {
    if n == u64::MAX {
        0
    } else {
        (n + 1) as u64
    }
}

/// One more, starting over at zero behind the largest number.
pub open spec fn next_usize(n: usize) -> usize {
    if n == usize::MAX {
        0
    } else {
        (n + 1) as usize
    }
}

/// One less, starting over at the largest number below zero.
pub open spec fn previous_usize(n: usize) -> usize {
    if n == 0 {
        usize::MAX
    } else {
        (n - 1) as usize
    }
}

/// The larger of a threshold and one.
pub open spec fn at_least_one(n: u32) -> u32 {
    if n == 0 {
        1
    } else {
        n
    }
}

impl BackendValue {
    /// Every slot is taken.
    pub open spec fn full(self) -> bool {
        self.max_connections != 0 && self.active >= self.max_connections
    }

    /// May get the next player.
    pub open spec fn selectable(self) -> bool {
        self.healthy && !self.full()
    }

    /// The backend after a session took a slot.
    pub open spec fn acquired(self) -> BackendValue {
        BackendValue {
            active: next_usize(self.active),
            sessions_total: next_u64(self.sessions_total),
            ..self
        }
    }

    /// The backend after a session gave its slot back.
    pub open spec fn released(self) -> BackendValue {
        BackendValue { active: previous_usize(self.active), ..self }
    }

    /// Whether one more check with this result changes the state: a streak as
    /// long as the threshold, against the current state.
    pub open spec fn flips(self, ok: bool) -> bool {
        if ok {
            !self.healthy && next_u32(self.consecutive_ok) >= at_least_one(self.health_config.rise)
        } else {
            self.healthy && next_u32(self.consecutive_fail) >= at_least_one(
                self.health_config.fall,
            )
        }
    }

    /// The backend after one more check.
    pub open spec fn checked(self, ok: bool, snapshot: Option<SnapshotValue>) -> BackendValue {
        let flips = self.flips(ok);
        BackendValue {
            healthy: if flips {
                ok
            } else {
                self.healthy
            },
            consecutive_ok: if ok {
                next_u32(self.consecutive_ok)
            } else {
                0
            },
            consecutive_fail: if ok {
                0
            } else {
                next_u32(self.consecutive_fail)
            },
            status: if flips && !ok {
                None
            } else if snapshot is Some {
                snapshot
            } else {
                self.status
            },
            ..self
        }
    }

    /// The backend with the runtime state of another.
    pub open spec fn inheriting(self, previous: BackendValue) -> BackendValue {
        BackendValue {
            healthy: previous.healthy,
            active: previous.active,
            sessions_total: previous.sessions_total,
            status: previous.status,
            ..self
        }
    }
}

/// Holds a backend's session slot for as long as the session lives. It is given
/// back with [`Backend::release`].
#[derive(Debug, PartialEq, Eq)]
pub struct SessionGuard {
    backend: String,
}

impl SessionGuard {
    /// The name of the backend whose slot this is.
    pub closed spec fn holder(&self) -> Seq<char> {
        self.backend@
    }

    /// The name of the backend whose slot this is.
    pub fn backend(&self) -> (name: &str)
        ensures
            name@ == self.holder(),
    {
        self.backend.as_str()
    }
}

impl Backend {
    /// The public fields say what the value says.
    pub(crate) proof fn lemma_public_fields(&self)
        ensures
            self@.name == self.name@,
            self@.address == self.address@,
            self@.kind == self.kind,
            self@.forwarding == self.forwarding,
            self@.weight == self.weight,
            self@.max_connections == self.max_connections,
            self@.health_config == self.health_config,
            self@.group == opt_text(self.group),
    {
    }

    /// Whether the backend passes its checks.
    pub fn is_healthy(&self) -> (yes: bool)
        ensures
            yes == self@.healthy,
    {
        self.healthy
    }

    /// Sessions that hold a slot.
    pub fn active_sessions(&self) -> (n: usize)
        ensures
            n == self@.active,
    {
        self.active
    }

    /// Sessions that ever held a slot.
    pub fn sessions_total(&self) -> (n: u64)
        ensures
            n == self@.sessions_total,
    {
        self.sessions_total
    }

    /// What the last successful status check saw.
    pub fn status(&self) -> (status: Option<StatusSnapshot>)
        ensures
            opt_snapshot(status) == self@.status,
    {
        copy_status(&self.status)
    }

    /// Whether every slot is taken.
    pub fn is_full(&self) -> (yes: bool)
        ensures
            yes == self@.full(),
    {
        self.max_connections != 0 && self.active >= self.max_connections
    }

    /// Claims a session slot, respecting `max_connections`.
    ///
    /// The returned guard goes back to [`Backend::release`] when the session
    /// ends.
    pub fn try_acquire(&mut self) -> (guard: Option<SessionGuard>)
        ensures
            if old(self)@.full() {
                guard is None && final(self)@ == old(self)@
            } else {
                guard is Some && guard->Some_0.holder() == old(self)@.name && final(self)@ == old(
                    self,
                )@.acquired()
            },
    {
        if self.max_connections != 0 && self.active >= self.max_connections {
            return None;
        }
        self.active = if self.active == usize::MAX {
            0
        } else {
            self.active + 1
        };
        self.sessions_total = if self.sessions_total == u64::MAX {
            0
        } else {
            self.sessions_total + 1
        };
        Some(SessionGuard { backend: self.name.clone() })
    }

    /// Gives a session slot back.
    pub fn release(&mut self, guard: SessionGuard)
        requires
            guard.holder() == old(self)@.name,
        ensures
            final(self)@ == old(self)@.released(),
    {
        self.active = if self.active == 0 {
            usize::MAX
        } else {
            self.active - 1
        };
    }

    /// Feeds one health check result into the rise/fall state machine.
    ///
    /// Returns `Some(new_state)` when the backend actually changed state, so
    /// the caller logs a transition rather than every single probe.
    pub fn record_health(&mut self, ok: bool, snapshot: Option<StatusSnapshot>) -> (change: Option<
        bool,
    >)
        ensures
            change == if old(self)@.flips(ok) {
                Some(ok)
            } else {
                None::<bool>
            },
            final(self)@ == old(self)@.checked(ok, opt_snapshot(snapshot)),
    {
        if snapshot.is_some() {
            self.status = snapshot;
        }
        if ok {
            self.consecutive_fail = 0;
            let streak: u32 = if self.consecutive_ok == u32::MAX {
                0
            } else {
                self.consecutive_ok + 1
            };
            self.consecutive_ok = streak;
            let rise: u32 = if self.health_config.rise == 0 {
                1
            } else {
                self.health_config.rise
            };
            if !self.healthy && streak >= rise {
                self.healthy = true;
                return Some(true);
            }
        } else {
            self.consecutive_ok = 0;
            let streak: u32 = if self.consecutive_fail == u32::MAX {
                0
            } else {
                self.consecutive_fail + 1
            };
            self.consecutive_fail = streak;
            let fall: u32 = if self.health_config.fall == 0 {
                1
            } else {
                self.health_config.fall
            };
            if self.healthy && streak >= fall {
                self.healthy = false;
                self.status = None;
                return Some(false);
            }
        }
        None
    }

    /// Carries runtime state across a config reload for a server that did not
    /// change identity, so a reload does not blank the health of 300 servers.
    pub fn inherit_from(&mut self, previous: &Backend)
        ensures
            final(self)@ == old(self)@.inheriting(previous@),
    {
        self.healthy = previous.healthy;
        self.active = previous.active;
        self.sessions_total = previous.sessions_total;
        self.status = copy_status(&previous.status);
    }
}

/// The values of a list of backends.
pub open spec fn backend_values(backends: Seq<Backend>) -> Seq<BackendValue> {
    backends.map_values(|backend: Backend| backend@)
}

// ------------------------------------------------------------------ targets --

/// Why there is no backend for the next session.
#[derive(Debug, Clone, Copy, PartialEq, Eq, Structural)]
pub enum SelectError {
    /// No such target.
    UnknownTarget,
    /// The target has no members.
    Empty,
    /// Every backend is unhealthy.
    AllUnhealthy,
    /// Every backend is at its connection limit.
    AllFull,
}

impl SelectError {
    /// The error in words.
    pub fn as_str(self) -> (text: &'static str)
        ensures
            text@ == match self {
                SelectError::UnknownTarget => "no such target"@,
                SelectError::Empty => "target has no members"@,
                SelectError::AllUnhealthy => "every backend is unhealthy"@,
                SelectError::AllFull => "every backend is at its connection limit"@,
            },
    {
        match self {
            SelectError::UnknownTarget => "no such target",
            SelectError::Empty => "target has no members",
            SelectError::AllUnhealthy => "every backend is unhealthy",
            SelectError::AllFull => "every backend is at its connection limit",
        }
    }
}

/// A routing target: either one server, or a group of them.
#[derive(Debug)]
pub struct Target {
    pub name: String,
    pub policy: Policy,
    /// Indices into the registry's backends.
    members: Vec<usize>,
    /// The share of each member.
    weights: Vec<u32>,
    /// Weighted round-robin wheel of indices into `members`.
    wheel: Vec<usize>,
    cursor: usize,
}

/// A target as a value.
pub ghost struct TargetValue {
    pub name: Seq<char>,
    pub policy: Policy,
    pub members: Seq<usize>,
    pub weights: Seq<u32>,
    pub wheel: Seq<usize>,
    pub cursor: usize,
}

impl View for Target {
    type V = TargetValue;

    closed spec fn view(&self) -> TargetValue {
        TargetValue {
            name: self.name@,
            policy: self.policy,
            members: self.members@,
            weights: self.weights@,
            wheel: self.wheel@,
            cursor: self.cursor,
        }
    }
}

/// Total wheel size, so a typo like `weight: 100000` cannot allocate wildly.
pub const MAX_WHEEL: usize = 4096;

/// How many units of weight one slot of the wheel stands for.
pub open spec fn wheel_scale(total: nat) -> nat {
    if total > MAX_WHEEL {
        (total + MAX_WHEEL - 1) as nat / MAX_WHEEL as nat
    } else {
        1
    }
}

/// How many slots a member has on the wheel: its share, and at least one unless
/// its weight is zero.
pub open spec fn slots(weight: u32, scale: nat) -> nat {
    if weight == 0 {
        0
    } else if weight as nat / scale == 0 {
        1
    } else {
        weight as nat / scale
    }
}

/// The slots of the first `n` members, one member after the other.
pub open spec fn wheel_of(weights: Seq<u32>, scale: nat, n: nat) -> Seq<usize>
    decreases n,
{
    if n == 0 || n > weights.len() {
        Seq::empty()
    } else {
        wheel_of(weights, scale, (n - 1) as nat) + Seq::new(
            slots(weights[n - 1], scale),
            |i: int| (n - 1) as usize,
        )
    }
}

/// The sum of the first `n` weights.
pub open spec fn total_weight(weights: Seq<u32>, n: nat) -> nat
    decreases n,
{
    if n == 0 || n > weights.len() {
        0
    } else {
        total_weight(weights, (n - 1) as nat) + weights[n - 1] as nat
    }
}

/// The weights of a target's members.
pub open spec fn member_weights(members: Seq<usize>, backends: Seq<BackendValue>) -> Seq<u32> {
    members.map_values(|m: usize| backends[m as int].weight)
}

/// The wheel for members of these weights.
pub open spec fn dealt(weights: Seq<u32>) -> Seq<usize> {
    wheel_of(weights, wheel_scale(total_weight(weights, weights.len())), weights.len())
}

/// The place on the wheel, `offset` behind `start`.
pub open spec fn wheel_place(start: usize, offset: nat, len: nat) -> int {
    (start + offset) % len as int
}

impl TargetValue {
    /// Members are backends, and the wheel turns over members by their weights.
    pub open spec fn wf(self, backends: Seq<BackendValue>) -> bool {
        &&& self.members.len() <= usize::MAX
        &&& self.weights.len() == self.members.len()
        &&& self.wheel == dealt(self.weights)
        &&& forall|i: int| 0 <= i < self.members.len() ==> (#[trigger] self.members[i]) < backends.len()
        &&& forall|i: int| 0 <= i < self.wheel.len() ==> (#[trigger] self.wheel[i]) < self.members.len()
    }

    /// The backend that member `i` is.
    pub open spec fn member(self, backends: Seq<BackendValue>, i: int) -> BackendValue {
        backends[self.members[i] as int]
    }

    /// Whether any member is healthy.
    pub open spec fn any_healthy(self, backends: Seq<BackendValue>) -> bool {
        exists|i: int| 0 <= i < self.members.len() && (#[trigger] self.member(backends, i)).healthy
    }

    /// The first selectable member from `i` on.
    pub open spec fn first_selectable(self, backends: Seq<BackendValue>, i: nat) -> Option<usize>
        decreases self.members.len() - i,
    {
        if i >= self.members.len() {
            None
        } else if self.member(backends, i as int).selectable() {
            Some(self.members[i as int])
        } else {
            self.first_selectable(backends, i + 1)
        }
    }

    /// The quietest selectable one of the first `n` members; the first one where
    /// several are equally quiet.
    pub open spec fn quietest(self, backends: Seq<BackendValue>, n: nat) -> Option<usize>
        decreases n,
    {
        if n == 0 || n > self.members.len() {
            None
        } else {
            let best = self.quietest(backends, (n - 1) as nat);
            let m = self.members[n - 1];
            if !backends[m as int].selectable() {
                best
            } else {
                match best {
                    Some(b) => if backends[m as int].active < backends[b as int].active {
                        Some(m)
                    } else {
                        best
                    },
                    None => Some(m),
                }
            }
        }
    }

    /// The first selectable member on the wheel, from `offset` behind the cursor
    /// on, at most one lap.
    pub open spec fn next_on_wheel(self, backends: Seq<BackendValue>, offset: nat) -> Option<usize>
        decreases self.wheel.len() - offset,
    {
        if offset >= self.wheel.len() {
            None
        } else {
            let slot = self.wheel[wheel_place(self.cursor, offset, self.wheel.len())];
            if self.member(backends, slot as int).selectable() {
                Some(self.members[slot as int])
            } else {
                self.next_on_wheel(backends, offset + 1)
            }
        }
    }

    /// The backend for the next session, by the target's policy.
    pub open spec fn picked(self, backends: Seq<BackendValue>) -> Option<usize> {
        match self.policy {
            Policy::RoundRobin => self.next_on_wheel(backends, 0),
            Policy::LeastConnections => self.quietest(backends, self.members.len()),
            Policy::Failover => self.first_selectable(backends, 0),
        }
    }

    /// The backend for the next session, or why there is none.
    pub open spec fn selected(self, backends: Seq<BackendValue>) -> Result<usize, SelectError> {
        if self.members.len() == 0 {
            Err(SelectError::Empty)
        } else if !self.any_healthy(backends) {
            Err(SelectError::AllUnhealthy)
        } else {
            match self.picked(backends) {
                Some(i) => Ok(i),
                None => Err(SelectError::AllFull),
            }
        }
    }

    /// The target after a selection: only round robin moves on.
    pub open spec fn after_select(self, backends: Seq<BackendValue>) -> TargetValue {
        if self.policy == Policy::RoundRobin && self.wheel.len() > 0 && self.any_healthy(backends) {
            TargetValue { cursor: next_usize(self.cursor), ..self }
        } else {
            self
        }
    }
}

/// The sum of the sessions of the first `n` members.
pub open spec fn sessions_of(members: Seq<usize>, backends: Seq<BackendValue>, n: nat) -> nat
    decreases n,
{
    if n == 0 || n > members.len() {
        0
    } else {
        sessions_of(members, backends, (n - 1) as nat) + backends[members[n - 1] as int].active as nat
    }
}

proof fn lemma_sessions_grow(members: Seq<usize>, backends: Seq<BackendValue>, n: nat)
    requires
        n <= members.len(),
    ensures
        sessions_of(members, backends, n) <= sessions_of(members, backends, members.len()),
    decreases members.len() - n,
{
    if n < members.len() {
        lemma_sessions_grow(members, backends, n + 1);
    }
}

/// A number where it fits a `usize`.
pub open spec fn fitting(n: nat) -> Option<usize> {
    if n <= usize::MAX {
        Some(n as usize)
    } else {
        None
    }
}

/// The healthy ones of the first `n` members.
pub open spec fn healthy_of(members: Seq<usize>, backends: Seq<BackendValue>, n: nat) -> Seq<usize>
    decreases n,
{
    if n == 0 || n > members.len() {
        Seq::empty()
    } else {
        let before = healthy_of(members, backends, (n - 1) as nat);
        if backends[members[n - 1] as int].healthy {
            before.push(members[n - 1])
        } else {
            before
        }
    }
}

impl Target {
    /// Indices of the members in the registry's backends.
    pub fn members(&self) -> (members: &[usize])
        ensures
            members@ == self@.members,
    {
        self.members.as_slice()
    }

    /// Indices of the members that are healthy.
    pub fn healthy_members(&self, backends: &[Backend]) -> (healthy: Vec<usize>)
        requires
            self@.wf(backend_values(backends@)),
        ensures
            healthy@ == healthy_of(self@.members, backend_values(backends@), self@.members.len()),
    {
        let ghost values = backend_values(backends@);
        let mut healthy: Vec<usize> = Vec::new();
        let mut i: usize = 0;
        assert(healthy@ =~= healthy_of(self@.members, values, 0));
        while i < self.members.len()
            invariant
                i <= self.members@.len(),
                values == backend_values(backends@),
                self@.wf(values),
                healthy@ == healthy_of(self@.members, values, i as nat),
            decreases self.members@.len() - i,
        {
            let m: usize = self.members[i];
            assert(self@.members[i as int] < values.len());
            assert(values[m as int] == backends@[m as int]@);
            if backends[m].is_healthy() {
                healthy.push(m);
            }
            i = i + 1;
        }
        healthy
    }

    /// Sessions that the members have in all, if their number fits.
    pub fn active_sessions(&self, backends: &[Backend]) -> (n: Option<usize>)
        requires
            self@.wf(backend_values(backends@)),
        ensures
            n == fitting(
                sessions_of(self@.members, backend_values(backends@), self@.members.len()),
            ),
    {
        let ghost values = backend_values(backends@);
        let mut n: usize = 0;
        let mut i: usize = 0;
        while i < self.members.len()
            invariant
                i <= self.members@.len(),
                values == backend_values(backends@),
                self@.wf(values),
                n == sessions_of(self@.members, values, i as nat),
            decreases self.members@.len() - i,
        {
            let m: usize = self.members[i];
            assert(self@.members[i as int] < values.len());
            assert(values[m as int] == backends@[m as int]@);
            let more: usize = backends[m].active_sessions();
            if more > usize::MAX - n {
                proof {
                    lemma_sessions_grow(self@.members, values, (i + 1) as nat);
                }
                return None;
            }
            n = n + more;
            i = i + 1;
        }
        Some(n)
    }

    /// Picks the backend for the next session.
    pub fn select(&mut self, backends: &[Backend]) -> (r: Result<usize, SelectError>)
        requires
            old(self)@.wf(backend_values(backends@)),
        ensures
            r == old(self)@.selected(backend_values(backends@)),
            final(self)@ == old(self)@.after_select(backend_values(backends@)),
    {
        let ghost values = backend_values(backends@);
        if self.members.len() == 0 {
            return Err(SelectError::Empty);
        }
        let mut any_healthy: bool = false;
        let mut i: usize = 0;
        while i < self.members.len()
            invariant
                i <= self.members@.len(),
                *self == *old(self),
                values == backend_values(backends@),
                self@.wf(values),
                any_healthy ==> self@.any_healthy(values),
                !any_healthy ==> forall|j: int|
                    0 <= j < i ==> !(#[trigger] self@.member(values, j)).healthy,
            decreases self.members@.len() - i,
        {
            let m: usize = self.members[i];
            assert(self@.members[i as int] < values.len());
            assert(values[m as int] == backends@[m as int]@);
            assert(self@.member(values, i as int) == backends@[m as int]@);
            if backends[m].is_healthy() {
                any_healthy = true;
            }
            i = i + 1;
        }
        if !any_healthy {
            return Err(SelectError::AllUnhealthy);
        }
        let picked = match self.policy {
            Policy::RoundRobin => self.select_round_robin(backends),
            Policy::LeastConnections => self.select_quietest(backends),
            Policy::Failover => self.select_first(backends),
        };
        match picked {
            Some(i) => Ok(i),
            None => Err(SelectError::AllFull),
        }
    }

    fn may_get_next(backend: &Backend) -> (yes: bool)
        ensures
            yes == backend@.selectable(),
    {
        backend.is_healthy() && !backend.is_full()
    }

    fn select_quietest(&self, backends: &[Backend]) -> (picked: Option<usize>)
        requires
            self@.wf(backend_values(backends@)),
        ensures
            picked == self@.quietest(backend_values(backends@), self@.members.len()),
    {
        let ghost values = backend_values(backends@);
        let mut best: Option<usize> = None;
        let mut i: usize = 0;
        while i < self.members.len()
            invariant
                i <= self.members@.len(),
                values == backend_values(backends@),
                self@.wf(values),
                best == self@.quietest(values, i as nat),
                best is Some ==> best->Some_0 < backends@.len(),
            decreases self.members@.len() - i,
        {
            let m: usize = self.members[i];
            assert(self@.members[i as int] < values.len());
            assert(values[m as int] == backends@[m as int]@);
            if Self::may_get_next(&backends[m]) {
                match best {
                    Some(b) => {
                        assert(values[b as int] == backends@[b as int]@);
                        if backends[m].active_sessions() < backends[b].active_sessions() {
                            best = Some(m);
                        }
                    },
                    None => {
                        best = Some(m);
                    },
                }
            }
            i = i + 1;
        }
        best
    }

    fn select_first(&self, backends: &[Backend]) -> (picked: Option<usize>)
        requires
            self@.wf(backend_values(backends@)),
        ensures
            picked == self@.first_selectable(backend_values(backends@), 0),
    {
        let ghost values = backend_values(backends@);
        let mut i: usize = 0;
        while i < self.members.len()
            invariant
                i <= self.members@.len(),
                values == backend_values(backends@),
                self@.wf(values),
                self@.first_selectable(values, 0) == self@.first_selectable(values, i as nat),
            decreases self.members@.len() - i,
        {
            let m: usize = self.members[i];
            assert(self@.members[i as int] < values.len());
            assert(values[m as int] == backends@[m as int]@);
            if Self::may_get_next(&backends[m]) {
                return Some(m);
            }
            i = i + 1;
        }
        None
    }

    fn select_round_robin(&mut self, backends: &[Backend]) -> (picked: Option<usize>)
        requires
            old(self)@.wf(backend_values(backends@)),
        ensures
            picked == old(self)@.next_on_wheel(backend_values(backends@), 0),
            final(self)@ == if old(self)@.wheel.len() > 0 {
                TargetValue { cursor: next_usize(old(self)@.cursor), ..old(self)@ }
            } else {
                old(self)@
            },
    {
        let ghost values = backend_values(backends@);
        let ghost before = self@;
        if self.wheel.len() == 0 {
            return None;
        }
        let start: usize = self.cursor;
        self.cursor = if start == usize::MAX {
            0
        } else {
            start + 1
        };
        let len: usize = self.wheel.len();
        let mut offset: usize = 0;
        while offset < len
            invariant
                offset <= len,
                len == self.wheel@.len(),
                len > 0,
                start == before.cursor,
                before == old(self)@,
                values == backend_values(backends@),
                before.wf(values),
                self@ == (TargetValue { cursor: next_usize(before.cursor), ..before }),
                before.next_on_wheel(values, 0) == before.next_on_wheel(values, offset as nat),
            decreases len - offset,
        {
            // One full pass: if nothing is selectable, there is no pick.
            let place: usize = ((start as u128 + offset as u128) % len as u128) as usize;
            assert(place == wheel_place(start, offset as nat, len as nat));
            let slot: usize = self.wheel[place];
            assert(before.wheel[place as int] < before.members.len());
            let m: usize = self.members[slot];
            assert(before.members[slot as int] < values.len());
            assert(values[m as int] == backends@[m as int]@);
            if Self::may_get_next(&backends[m]) {
                return Some(m);
            }
            offset = offset + 1;
        }
        None
    }
}

/// The first `n` weights stay within what their number allows.
proof fn lemma_total_weight_bound(weights: Seq<u32>, n: nat)
    requires
        n <= weights.len(),
    ensures
        total_weight(weights, n) <= n * u32::MAX,
    decreases n,
{
    if n > 0 {
        lemma_total_weight_bound(weights, (n - 1) as nat);
        assert((n - 1) * u32::MAX + u32::MAX == n * u32::MAX) by (nonlinear_arith);
    }
}

/// The wheel turns over members only.
proof fn lemma_wheel_in_range(weights: Seq<u32>, scale: nat, n: nat)
    requires
        n <= weights.len(),
        weights.len() <= usize::MAX,
    ensures
        forall|i: int|
            0 <= i < wheel_of(weights, scale, n).len() ==> (#[trigger] wheel_of(
                weights,
                scale,
                n,
            )[i]) < n,
    decreases n,
{
    if n > 0 {
        lemma_wheel_in_range(weights, scale, (n - 1) as nat);
        let before = wheel_of(weights, scale, (n - 1) as nat);
        let wheel = wheel_of(weights, scale, n);
        assert forall|i: int| 0 <= i < wheel.len() implies (#[trigger] wheel[i]) < n by {
            if i < before.len() {
                assert(wheel[i] == before[i]);
            }
        }
    }
}

/// A target with its wheel, before the first selection.
pub open spec fn fresh_target(
    name: Seq<char>,
    policy: Policy,
    members: Seq<usize>,
    backends: Seq<BackendValue>,
) -> TargetValue {
    let weights = member_weights(members, backends);
    TargetValue {
        name,
        policy,
        members,
        weights,
        wheel: dealt(weights),
        cursor: 0,
    }
}

#[verifier::rlimit(40)]
fn build_target(name: String, policy: Policy, members: Vec<usize>, backends: &[Backend]) -> (target:
    Target)
    requires
        forall|i: int| 0 <= i < members@.len() ==> (#[trigger] members@[i]) < backends@.len(),
    ensures
        target@ == fresh_target(name@, policy, members@, backend_values(backends@)),
        target@.wf(backend_values(backends@)),
{
    let ghost values = backend_values(backends@);
    let ghost weights = member_weights(members@, values);
    let mut total: u128 = 0;
    let mut i: usize = 0;
    while i < members.len()
        invariant
            i <= members@.len(),
            values == backend_values(backends@),
            weights == member_weights(members@, values),
            weights.len() == members@.len(),
            forall|k: int| 0 <= k < members@.len() ==> (#[trigger] members@[k]) < backends@.len(),
            total == total_weight(weights, i as nat),
        decreases members@.len() - i,
    {
        let m: usize = members[i];
        assert(members@[i as int] < backends@.len());
        assert(values[m as int] == backends@[m as int]@);
        proof {
            lemma_total_weight_bound(weights, (i + 1) as nat);
            assert((i + 1) * u32::MAX <= usize::MAX * u32::MAX) by (nonlinear_arith)
                requires
                    i + 1 <= usize::MAX,
            ;
            assert(usize::MAX * u32::MAX <= u128::MAX) by (nonlinear_arith)
                requires
                    usize::MAX <= 0xffff_ffff_ffff_ffff,
            ;
        }
        total = total + backends[m].weight as u128;
        i = i + 1;
    }
    let scale: u128 = if total > MAX_WHEEL as u128 {
        proof {
            lemma_total_weight_bound(weights, weights.len());
            assert(weights.len() * u32::MAX <= usize::MAX * u32::MAX) by (nonlinear_arith)
                requires
                    weights.len() <= usize::MAX,
            ;
            assert(usize::MAX * u32::MAX + 4096 <= u128::MAX) by (nonlinear_arith)
                requires
                    usize::MAX <= 0xffff_ffff_ffff_ffff,
            ;
        }
        (total + (MAX_WHEEL as u128 - 1)) / MAX_WHEEL as u128
    } else {
        1
    };
    let ghost units = wheel_scale(total_weight(weights, weights.len()));
    assert(scale == units);
    let mut own_weights: Vec<u32> = Vec::new();
    let mut wheel: Vec<usize> = Vec::new();
    let mut index: usize = 0;
    assert(own_weights@ =~= weights.take(0));
    assert(wheel@ =~= wheel_of(weights, units, 0));
    while index < members.len()
        invariant
            index <= members@.len(),
            values == backend_values(backends@),
            weights == member_weights(members@, values),
            weights.len() == members@.len(),
            forall|k: int| 0 <= k < members@.len() ==> (#[trigger] members@[k]) < backends@.len(),
            scale == units,
            scale >= 1,
            wheel@ == wheel_of(weights, units, index as nat),
            own_weights@ == weights.take(index as int),
        decreases members@.len() - index,
    {
        let m: usize = members[index];
        assert(members@[index as int] < backends@.len());
        assert(values[m as int] == backends@[m as int]@);
        let weight: u32 = backends[m].weight;
        assert(weight == weights[index as int]);
        let share: u128 = weight as u128 / scale;
        assert(share <= weight) by (nonlinear_arith)
            requires
                share == weight as u128 / scale,
                scale >= 1,
        ;
        let count: u128 = if weight == 0 {
            0
        } else if share == 0 {
            1
        } else {
            share
        };
        let ghost before = wheel@;
        assert(count == slots(weight, units));
        let mut k: u128 = 0;
        assert(wheel@ =~= before + Seq::new(0, |j: int| index));
        while k < count
            invariant
                k <= count,
                wheel@ == before + Seq::new(k as nat, |j: int| index),
            decreases count - k,
        {
            wheel.push(index);
            k = k + 1;
            assert(wheel@ =~= before + Seq::new(k as nat, |j: int| index));
        }
        own_weights.push(weight);
        assert(own_weights@ =~= weights.take(index + 1));
        index = index + 1;
        assert(wheel@ =~= wheel_of(weights, units, index as nat));
    }
    proof {
        lemma_wheel_in_range(weights, units, weights.len());
        assert(weights.take(index as int) =~= weights);
    }
    Target { name, policy, members, weights: own_weights, wheel, cursor: 0 }
}

// ----------------------------------------------------------------- registry --

/// A backend as it is configured, before anything is known about it.
pub open spec fn fresh_backend(name: Seq<char>, server: Server, health: Health) -> BackendValue {
    let health_config = health_overlaid(health, server.health);
    BackendValue {
        name,
        address: server.address@,
        kind: server.kind,
        forwarding: server.forwarding,
        weight: server.weight,
        max_connections: server.max_connections,
        health_config,
        group: opt_text(server.group),
        healthy: !health_config.enabled || health.start_healthy,
        consecutive_ok: 0,
        consecutive_fail: 0,
        active: 0,
        sessions_total: 0,
        status: None,
    }
}

/// Where a backend of this name stands, or the number of backends.
pub open spec fn backend_place(backends: Seq<BackendValue>, name: Seq<char>) -> nat
    decreases backends.len(),
{
    if backends.len() == 0 || backends[0].name == name {
        0
    } else {
        1 + backend_place(backends.drop_first(), name)
    }
}

proof fn lemma_backend_place_is(backends: Seq<BackendValue>, name: Seq<char>, at: int)
    requires
        0 <= at <= backends.len(),
        at < backends.len() ==> backends[at].name == name,
        forall|i: int| 0 <= i < at ==> (#[trigger] backends[i]).name != name,
    ensures
        backend_place(backends, name) == at,
    decreases backends.len(),
{
    if at > 0 {
        assert(backends[0].name != name);
        assert forall|i: int| 0 <= i < at - 1 implies (
        #[trigger] backends.drop_first()[i]).name != name by {
            assert(backends[i + 1].name != name);
        }
        lemma_backend_place_is(backends.drop_first(), name, at - 1);
    }
}

/// What `backend_place` finds.
pub proof fn lemma_backend_place(backends: Seq<BackendValue>, name: Seq<char>)
    ensures
        backend_place(backends, name) <= backends.len(),
        backend_place(backends, name) < backends.len() ==> backends[backend_place(
            backends,
            name,
        ) as int].name == name,
        forall|i: int|
            0 <= i < backend_place(backends, name) ==> (#[trigger] backends[i]).name != name,
    decreases backends.len(),
{
    if backends.len() > 0 && backends[0].name != name {
        lemma_backend_place(backends.drop_first(), name);
        assert forall|i: int| 0 <= i < backend_place(backends, name) implies (
        #[trigger] backends[i]).name != name by {
            if i > 0 {
                assert(backends[i] == backends.drop_first()[i - 1]);
            }
        }
    }
}

/// A backend after a reload: what was known of a backend with the same name and
/// address carries over.
pub open spec fn reloaded_backend(
    name: Seq<char>,
    server: Server,
    health: Health,
    previous: Seq<BackendValue>,
) -> BackendValue {
    let fresh = fresh_backend(name, server, health);
    let at = backend_place(previous, name) as int;
    if at < previous.len() && previous[at].address == server.address@ {
        fresh.inheriting(previous[at])
    } else {
        fresh
    }
}

/// The backends of a configuration after a reload.
pub open spec fn reloaded_backends(config: Config, previous: Seq<BackendValue>) -> Seq<
    BackendValue,
> {
    config.servers@.map_values(
        |entry: (String, Server)|
            reloaded_backend(entry.0@, entry.1, config.health, previous),
    )
}

/// The places of named backends.
pub open spec fn places(backends: Seq<BackendValue>, names: Seq<Seq<char>>) -> Seq<usize> {
    names.map_values(|name: Seq<char>| backend_place(backends, name) as usize)
}

/// The policy of a group, or the default one where it has no settings.
pub open spec fn policy_for(groups: Seq<(String, Group)>, name: Seq<char>) -> Policy
    decreases groups.len(),
{
    if groups.len() == 0 {
        Policy::RoundRobin
    } else if groups[0].0@ == name {
        groups[0].1.policy
    } else {
        policy_for(groups.drop_first(), name)
    }
}

/// The servers that a target stands for, in the order in which it asks them:
/// under failover as they were declared, else by their names.
pub open spec fn members_for(config: Config, name: Seq<char>) -> Seq<Seq<char>> {
    if policy_for(config.groups@, name) == Policy::Failover {
        member_names(config.servers@, name)
    } else {
        member_names(servers_by_name(config.servers@), name)
    }
}

/// The target of a name before the first selection.
pub open spec fn target_for(
    config: Config,
    backends: Seq<BackendValue>,
    name: Seq<char>,
) -> TargetValue {
    fresh_target(
        name,
        policy_for(config.groups@, name),
        places(backends, members_for(config, name)),
        backends,
    )
}

/// The values of a list of targets.
pub open spec fn target_values(targets: Seq<Target>) -> Seq<TargetValue> {
    targets.map_values(|target: Target| target@)
}

/// The names of a list of targets.
pub open spec fn target_list(targets: Seq<TargetValue>) -> Seq<Seq<char>> {
    targets.map_values(|target: TargetValue| target.name)
}

/// Snapshot of routing state. A config reload builds a new one and swaps it in;
/// in-flight sessions keep using the old one until they end.
#[derive(Debug)]
pub struct Registry {
    config: Arc<Config>,
    backends: Vec<Backend>,
    targets: Vec<Target>,
    matcher: Matcher,
}

/// A matched route, ready to be turned into a connection.
#[derive(Debug, Clone, Copy)]
pub struct Route<'a> {
    /// Which target it leads to.
    pub target: usize,
    pub rule: Option<&'a Rule>,
}

fn find_backend(backends: &Vec<Backend>, name: &str) -> (at: usize)
    ensures
        at == backend_place(backend_values(backends@), name@),
        at <= backends@.len(),
{
    let ghost values = backend_values(backends@);
    let mut i: usize = 0;
    while i < backends.len()
        invariant
            i <= backends@.len(),
            values == backend_values(backends@),
            forall|j: int| 0 <= j < i ==> (#[trigger] values[j]).name != name@,
        decreases backends@.len() - i,
    {
        assert(values[i as int] == backends@[i as int]@);
        if same_text(backends[i].name.as_str(), name) {
            proof {
                lemma_backend_place_is(values, name@, i as int);
            }
            return i;
        }
        i = i + 1;
    }
    proof {
        lemma_backend_place_is(values, name@, i as int);
    }
    i
}

fn find_policy(groups: &Vec<(String, Group)>, name: &str) -> (policy: Policy)
    ensures
        policy == policy_for(groups@, name@),
{
    let mut i: usize = 0;
    assert(groups@.skip(0) =~= groups@);
    while i < groups.len()
        invariant
            i <= groups@.len(),
            policy_for(groups@, name@) == policy_for(groups@.skip(i as int), name@),
        decreases groups@.len() - i,
    {
        if same_text(groups[i].0.as_str(), name) {
            return groups[i].1.policy;
        }
        assert(groups@.skip(i as int).drop_first() =~= groups@.skip(i + 1));
        i = i + 1;
    }
    Policy::RoundRobin
}

fn new_backend(name: &String, server: &Server, health: &Health) -> (backend: Backend)
    ensures
        backend@ == fresh_backend(name@, *server, *health),
{
    let health_config = match &server.health {
        Some(over) => health.overlay(Some(over)),
        None => health.overlay(None),
    };
    Backend {
        name: name.clone(),
        address: server.address.clone(),
        kind: server.kind,
        forwarding: server.forwarding,
        weight: server.weight,
        max_connections: server.max_connections,
        group: copy_opt(&server.group),
        healthy: !health_config.enabled || health.start_healthy,
        consecutive_ok: 0,
        consecutive_fail: 0,
        active: 0,
        sessions_total: 0,
        status: None,
        health_config,
    }
}

/// The backends of a configuration, with what is known of unchanged ones.
fn build_backends(config: &Config, previous: Option<&Registry>) -> (backends: Vec<Backend>)
    ensures
        backend_values(backends@) == reloaded_backends(
            *config,
            match previous {
                Some(previous) => previous.backend_values(),
                None => Seq::empty(),
            },
        ),
{
    let ghost old_values = match previous {
        Some(previous) => previous.backend_values(),
        None => Seq::empty(),
    };
    let servers = &config.servers;
    let mut backends: Vec<Backend> = Vec::new();
    let mut i: usize = 0;
    while i < servers.len()
        invariant
            i <= servers@.len(),
            *servers == config.servers,
            old_values == (match previous {
                Some(previous) => previous.backend_values(),
                None => Seq::<BackendValue>::empty(),
            }),
            backends@.len() == i,
            forall|k: int|
                0 <= k < i ==> (#[trigger] backends@[k])@ == reloaded_backend(
                    servers@[k].0@,
                    servers@[k].1,
                    config.health,
                    old_values,
                ),
        decreases servers@.len() - i,
    {
        let name = &servers[i].0;
        let server = &servers[i].1;
        let mut backend = new_backend(name, server, &config.health);
        match previous {
            Some(previous) => {
                let at: usize = find_backend(&previous.backends, name.as_str());
                proof {
                    lemma_backend_place(old_values, name@);
                }
                if at < previous.backends.len() {
                    let old_backend = &previous.backends[at];
                    assert(old_values[at as int] == old_backend@);
                    if same_text(old_backend.address.as_str(), backend.address.as_str()) {
                        backend.inherit_from(old_backend);
                    }
                }
            },
            None => {},
        }
        backends.push(backend);
        i = i + 1;
    }
    assert(backend_values(backends@) =~= reloaded_backends(*config, old_values));
    backends
}

/// The names of a configuration's servers stand at their places among its
/// backends.
proof fn lemma_server_place(config: Config, backends: Seq<BackendValue>, name: Seq<char>)
    requires
        backends.len() == config.servers@.len(),
        forall|k: int|
            0 <= k < backends.len() ==> (#[trigger] backends[k]).name == config.servers@[k].0@,
        server_names(config.servers@).contains(name),
    ensures
        backend_place(backends, name) < backends.len(),
{
    lemma_backend_place(backends, name);
    let k = choose|k: int|
        0 <= k < server_names(config.servers@).len() && server_names(config.servers@)[k] == name;
    assert(backends[k].name == name);
}

proof fn lemma_group_members_are_servers(
    servers: Seq<(String, Server)>,
    target: Seq<char>,
    n: nat,
)
    requires
        n <= servers.len(),
    ensures
        forall|i: int|
            0 <= i < group_members(servers, target, n).len() ==> server_names(servers).contains(
                #[trigger] group_members(servers, target, n)[i],
            ),
    decreases n,
{
    if n > 0 {
        lemma_group_members_are_servers(servers, target, (n - 1) as nat);
        let before = group_members(servers, target, (n - 1) as nat);
        let now = group_members(servers, target, n);
        assert forall|i: int| 0 <= i < now.len() implies server_names(servers).contains(
            #[trigger] now[i],
        ) by {
            if i < before.len() {
                assert(now[i] == before[i]);
            } else {
                assert(server_names(servers)[n - 1] == now[i]);
            }
        }
    }
}

/// Sorting servers by name keeps their names.
proof fn lemma_sorted_names(servers: Seq<(String, Server)>)
    ensures
        servers_by_name(servers).len() == servers.len(),
        forall|name: Seq<char>|
            server_names(servers_by_name(servers)).contains(name) == #[trigger] server_names(
                servers,
            ).contains(name),
{
    let names = server_names(servers);
    let sorted = servers_by_name(servers);
    let order = name_order(names);
    names_are_ordered(names);
    assert forall|name: Seq<char>|
        server_names(sorted).contains(name) == #[trigger] names.contains(name) by {
        if server_names(sorted).contains(name) {
            let k = choose|k: int| 0 <= k < sorted.len() && server_names(sorted)[k] == name;
            assert(0 <= order[k] < names.len());
            assert(sorted[k] == servers[order[k]]);
            assert(names[order[k]] == name);
        }
        if names.contains(name) {
            let i = choose|i: int| 0 <= i < names.len() && names[i] == name;
            assert(order.contains(i));
            let k = choose|k: int| 0 <= k < order.len() && order[k] == i;
            assert(sorted[k] == servers[i]);
            assert(server_names(sorted)[k] == name);
        }
    }
}

proof fn lemma_members_are_servers(config: Config, name: Seq<char>)
    ensures
        forall|i: int|
            0 <= i < members_for(config, name).len() ==> server_names(config.servers@).contains(
                #[trigger] members_for(config, name)[i],
            ),
{
    let servers = config.servers@;
    let sorted = servers_by_name(servers);
    lemma_sorted_names(servers);
    lemma_group_members_are_servers(servers, name, servers.len());
    lemma_group_members_are_servers(sorted, name, sorted.len());
    let wanted = members_for(config, name);
    assert forall|i: int| 0 <= i < wanted.len() implies server_names(servers).contains(
        #[trigger] wanted[i],
    ) by {
        if policy_for(config.groups@, name) != Policy::Failover {
            assert(server_names(sorted).contains(wanted[i]));
        }
    }
}

/// The target of one name.
fn build_named_target(config: &Config, backends: &Vec<Backend>, name: &str) -> (target: Target)
    requires
        backends@.len() == config.servers@.len(),
        forall|k: int|
            0 <= k < backends@.len() ==> (#[trigger] backend_values(backends@)[k]).name
                == config.servers@[k].0@,
    ensures
        target@ == target_for(*config, backend_values(backends@), name@),
        target@.wf(backend_values(backends@)),
{
    let ghost values = backend_values(backends@);
    let policy = find_policy(&config.groups, name);
    let names = match policy {
        Policy::Failover => config.declared_members(name),
        _ => config.resolve_target(name),
    };
    let ghost wanted = members_for(*config, name@);
    proof {
        lemma_members_are_servers(*config, name@);
        assert(slices(names@).len() == names@.len());
    }
    let mut members: Vec<usize> = Vec::new();
    let mut i: usize = 0;
    while i < names.len()
        invariant
            i <= names@.len(),
            values == backend_values(backends@),
            values.len() == config.servers@.len(),
            forall|k: int|
                0 <= k < values.len() ==> (#[trigger] values[k]).name == config.servers@[k].0@,
            wanted == slices(names@),
            wanted.len() == names@.len(),
            forall|k: int|
                0 <= k < wanted.len() ==> server_names(config.servers@).contains(
                    #[trigger] wanted[k],
                ),
            members@.len() == i,
            forall|k: int|
                0 <= k < i ==> (#[trigger] members@[k]) == backend_place(values, wanted[k])
                    && members@[k] < backends@.len(),
        decreases names@.len() - i,
    {
        assert(wanted[i as int] == names@[i as int]@);
        proof {
            lemma_server_place(*config, values, wanted[i as int]);
        }
        members.push(find_backend(backends, names[i]));
        i = i + 1;
    }
    assert(members@ =~= places(values, wanted));
    build_target(name.to_owned(), policy, members, backends.as_slice())
}

impl Registry {
    /// The backends as values, as they were declared.
    pub closed spec fn backend_values(&self) -> Seq<BackendValue> {
        backend_values(self.backends@)
    }

    /// The targets as values, in the order of their names.
    pub closed spec fn target_values(&self) -> Seq<TargetValue> {
        target_values(self.targets@)
    }

    /// The configuration this was built from.
    pub closed spec fn configuration(&self) -> Config {
        *self.config
    }

    /// The rules in the order of the configuration.
    pub closed spec fn rules(&self) -> Seq<RuleValue> {
        self.matcher.rules()
    }

    /// Where hosts lead that no rule covers.
    pub closed spec fn default_target(&self) -> Option<Seq<char>> {
        self.matcher.default_target()
    }

    spec fn matcher_wf(&self) -> bool {
        self.matcher.wf()
    }

    /// Targets refer to backends, and their names are the names a route may
    /// point at.
    pub closed spec fn wf(&self) -> bool {
        &&& self.matcher_wf()
        &&& forall|i: int|
            0 <= i < self.targets@.len() ==> (#[trigger] self.targets@[i])@.wf(
                self.backend_values(),
            )
    }

    /// Builds a registry from a configuration.
    pub fn build(config: Arc<Config>) -> (registry: Self)
        ensures
            registry.wf(),
            registry.configuration() == *config,
            registry.backend_values() == reloaded_backends(*config, Seq::empty()),
            ascending(target_list(registry.target_values())),
            forall|name: Seq<char>|
                target_list(registry.target_values()).contains(name) == is_target(*config, name),
            forall|i: int|
                0 <= i < registry.target_values().len() ==> (#[trigger] registry.target_values()[i])
                    == target_for(
                    *config,
                    registry.backend_values(),
                    registry.target_values()[i].name,
                ),
            registry.rules() == rule_values(config.routing.rules@),
            registry.default_target() == opt_text(config.routing.default),
    {
        Self::build_inheriting(config, None)
    }

    /// Builds a registry, carrying health and session counts over from a
    /// previous one where the server definition is unchanged.
    pub fn build_inheriting(config: Arc<Config>, previous: Option<&Registry>) -> (registry: Self)
        ensures
            registry.wf(),
            registry.configuration() == *config,
            registry.backend_values() == reloaded_backends(
                *config,
                match previous {
                    Some(previous) => previous.backend_values(),
                    None => Seq::empty(),
                },
            ),
            ascending(target_list(registry.target_values())),
            forall|name: Seq<char>|
                target_list(registry.target_values()).contains(name) == is_target(*config, name),
            forall|i: int|
                0 <= i < registry.target_values().len() ==> (#[trigger] registry.target_values()[i])
                    == target_for(
                    *config,
                    registry.backend_values(),
                    registry.target_values()[i].name,
                ),
            registry.rules() == rule_values(config.routing.rules@),
            registry.default_target() == opt_text(config.routing.default),
    {
        let backends = build_backends(&config, previous);
        let ghost values = backend_values(backends@);
        let mut targets: Vec<Target> = Vec::new();
        {
            let names = config.target_names();
            let mut i: usize = 0;
            assert(values.len() == backends@.len());
            while i < names.len()
                invariant
                    i <= names@.len(),
                    values == backend_values(backends@),
                    values.len() == backends@.len(),
                    values.len() == config.servers@.len(),
                    forall|k: int|
                        0 <= k < values.len() ==> (#[trigger] values[k]).name
                            == config.servers@[k].0@,
                    targets@.len() == i,
                    forall|k: int|
                        0 <= k < i ==> {
                            &&& (#[trigger] targets@[k])@ == target_for(*config, values, names@[k]@)
                            &&& targets@[k]@.wf(values)
                        },
                decreases names@.len() - i,
            {
                targets.push(build_named_target(&config, &backends, names[i]));
                i = i + 1;
            }
            proof {
                assert(target_list(target_values(targets@)) =~= slices(names@));
            }
        }
        let matcher = Matcher::build(&config);
        let registry = Registry { config, backends, targets, matcher };
        assert(registry.target_values() =~= target_values(targets@));
        registry
    }
}

/// Whether a host leads to this target, and by this rule.
pub open spec fn leads_to(
    rules: Seq<RuleValue>,
    default: Option<Seq<char>>,
    host: Seq<char>,
    listener: Seq<char>,
    target: Seq<char>,
    rule: Option<RuleValue>,
) -> bool {
    if any_rule(rules, host, listener) {
        exists|i: int| #[trigger]
            decides(rules, host, listener, i) && target == rules[i].target && rule == Some(rules[i])
    } else {
        default == Some(target) && rule is None
    }
}

/// Whether a host leads to the target at this place, by this rule.
pub open spec fn routes_to(
    rules: Seq<RuleValue>,
    default: Option<Seq<char>>,
    targets: Seq<TargetValue>,
    host: Seq<char>,
    listener: Seq<char>,
    route: (usize, Option<RuleValue>),
) -> bool {
    &&& route.0 < targets.len()
    &&& leads_to(rules, default, host, listener, targets[route.0 as int].name, route.1)
    &&& forall|j: int|
        0 <= j < route.0 ==> (#[trigger] targets[j]).name != targets[route.0 as int].name
}

/// Where a host leads: the place of the target, and the rule that decided it.
pub open spec fn route_of(
    rules: Seq<RuleValue>,
    default: Option<Seq<char>>,
    targets: Seq<TargetValue>,
    host: Seq<char>,
    listener: Seq<char>,
) -> Option<(usize, Option<RuleValue>)> {
    if exists|route: (usize, Option<RuleValue>)| #[trigger]
        routes_to(rules, default, targets, host, listener, route) {
        Some(
            choose|route: (usize, Option<RuleValue>)| #[trigger]
                routes_to(rules, default, targets, host, listener, route),
        )
    } else {
        None
    }
}

/// A route as a value.
pub open spec fn route_value(route: Option<Route<'_>>) -> Option<(usize, Option<RuleValue>)> {
    match route {
        Some(route) => Some((route.target, route_rule(route.rule))),
        None => None,
    }
}

proof fn lemma_one_route_of(
    rules: Seq<RuleValue>,
    default: Option<Seq<char>>,
    targets: Seq<TargetValue>,
    host: Seq<char>,
    listener: Seq<char>,
    route: (usize, Option<RuleValue>),
)
    requires
        routes_to(rules, default, targets, host, listener, route),
    ensures
        route_of(rules, default, targets, host, listener) == Some(route),
{
    let other = route_of(rules, default, targets, host, listener)->Some_0;
    one_route(
        rules,
        default,
        host,
        listener,
        targets[route.0 as int].name,
        route.1,
        targets[other.0 as int].name,
        other.1,
    );
    if route.0 < other.0 {
        assert(targets[route.0 as int].name != targets[other.0 as int].name);
    } else if other.0 < route.0 {
        assert(targets[other.0 as int].name != targets[route.0 as int].name);
    }
}

/// The value of a route's rule.
pub open spec fn route_rule(rule: Option<&Rule>) -> Option<RuleValue> {
    match rule {
        Some(rule) => Some(rule@),
        None => None,
    }
}

/// The sum of the sessions of the first `n` backends.
pub open spec fn total_active(backends: Seq<BackendValue>, n: nat) -> nat
    decreases n,
{
    if n == 0 || n > backends.len() {
        0
    } else {
        total_active(backends, (n - 1) as nat) + backends[n - 1].active as nat
    }
}

/// How many of the first `n` backends are healthy.
pub open spec fn count_healthy(backends: Seq<BackendValue>, n: nat) -> nat
    decreases n,
{
    if n == 0 || n > backends.len() {
        0
    } else {
        count_healthy(backends, (n - 1) as nat) + (if backends[n - 1].healthy {
            1nat
        } else {
            0
        })
    }
}

/// Players that the first `n` backends report.
pub open spec fn total_reported(backends: Seq<BackendValue>, n: nat) -> int
    decreases n,
{
    if n == 0 || n > backends.len() {
        0
    } else {
        total_reported(backends, (n - 1) as nat) + match backends[n - 1].status {
            Some(status) => status.online as int,
            None => 0,
        }
    }
}

proof fn lemma_active_grows(backends: Seq<BackendValue>, n: nat)
    requires
        n <= backends.len(),
    ensures
        total_active(backends, n) <= total_active(backends, backends.len()),
    decreases backends.len() - n,
{
    if n < backends.len() {
        lemma_active_grows(backends, n + 1);
    }
}

impl Registry {
    /// The configuration this was built from.
    pub fn config(&self) -> (config: &Arc<Config>)
        ensures
            **config == self.configuration(),
    {
        &self.config
    }

    /// Where the target of this name stands.
    pub fn target_index(&self, name: &str) -> (at: Option<usize>)
        ensures
            match at {
                Some(at) => at < self.target_values().len() && self.target_values()[at as int].name
                    == name@ && forall|j: int|
                    0 <= j < at ==> (#[trigger] self.target_values()[j]).name != name@,
                None => !target_list(self.target_values()).contains(name@),
            },
    {
        let ghost values = self.target_values();
        let mut i: usize = 0;
        while i < self.targets.len()
            invariant
                i <= self.targets@.len(),
                values == self.target_values(),
                values.len() == self.targets@.len(),
                forall|j: int| 0 <= j < i ==> (#[trigger] values[j]).name != name@,
            decreases self.targets@.len() - i,
        {
            assert(values[i as int] == self.targets@[i as int]@);
            if same_text(self.targets[i].name.as_str(), name) {
                return Some(i);
            }
            i = i + 1;
        }
        proof {
            if target_list(values).contains(name@) {
                let j = choose|j: int|
                    0 <= j < target_list(values).len() && target_list(values)[j] == name@;
                assert(values[j].name == name@);
            }
        }
        None
    }

    /// Resolves a handshake hostname to a target.
    pub fn route(&self, host: &str, listener: &str) -> (route: Option<Route<'_>>)
        requires
            self.wf(),
        ensures
            route_value(route) == route_of(
                self.rules(),
                self.default_target(),
                self.target_values(),
                host@,
                listener@,
            ),
            match route {
                Some(route) => route.target < self.target_values().len() && leads_to(
                    self.rules(),
                    self.default_target(),
                    host@,
                    listener@,
                    self.target_values()[route.target as int].name,
                    route_rule(route.rule),
                ),
                None => forall|target: Seq<char>, rule: Option<RuleValue>| #[trigger]
                    leads_to(
                        self.rules(),
                        self.default_target(),
                        host@,
                        listener@,
                        target,
                        rule,
                    ) ==> !target_list(self.target_values()).contains(target),
            },
    {
        let hit = match self.matcher.match_host(host, listener) {
            Some(hit) => hit,
            None => return None,
        };
        let ghost rules = self.rules();
        assert(leads_to(
            rules,
            self.default_target(),
            host@,
            listener@,
            hit.target@,
            route_rule(hit.rule),
        ));
        match self.target_index(hit.target) {
            Some(target) => {
                proof {
                    lemma_one_route_of(
                        rules,
                        self.default_target(),
                        self.target_values(),
                        host@,
                        listener@,
                        (target, route_rule(hit.rule)),
                    );
                }
                Some(Route { target, rule: hit.rule })
            },
            None => {
                proof {
                    assert forall|target: Seq<char>, rule: Option<RuleValue>| #[trigger]
                        leads_to(
                            rules,
                            self.default_target(),
                            host@,
                            listener@,
                            target,
                            rule,
                        ) implies !target_list(self.target_values()).contains(target) by {
                        one_route(
                            rules,
                            self.default_target(),
                            host@,
                            listener@,
                            target,
                            rule,
                            hit.target@,
                            route_rule(hit.rule),
                        );
                    }
                    assert forall|route: (usize, Option<RuleValue>)| !#[trigger]
                        routes_to(
                            rules,
                            self.default_target(),
                            self.target_values(),
                            host@,
                            listener@,
                            route,
                        ) by {
                        if route.0 < self.target_values().len() {
                            assert(target_list(self.target_values())[route.0 as int]
                                == self.target_values()[route.0 as int].name);
                        }
                    }
                }
                None
            },
        }
    }

    /// The target at a place.
    pub fn target_at(&self, at: usize) -> (target: Option<&Target>)
        ensures
            if at < self.target_values().len() {
                target is Some && target->Some_0@ == self.target_values()[at as int]
            } else {
                target is None
            },
    {
        if at < self.targets.len() {
            Some(&self.targets[at])
        } else {
            None
        }
    }

    /// The target of a name.
    pub fn target(&self, name: &str) -> (target: Option<&Target>)
        ensures
            match target {
                Some(target) => target@.name == name@ && self.target_values().contains(target@),
                None => !target_list(self.target_values()).contains(name@),
            },
    {
        match self.target_index(name) {
            Some(at) => {
                assert(self.target_values()[at as int] == self.targets@[at as int]@);
                Some(&self.targets[at])
            },
            None => None,
        }
    }

    /// Picks the backend for the next session of a target.
    pub fn select(&mut self, target: usize) -> (r: Result<usize, SelectError>)
        requires
            old(self).wf(),
        ensures
            final(self).wf(),
            final(self).backend_values() == old(self).backend_values(),
            final(self).configuration() == old(self).configuration(),
            final(self).rules() == old(self).rules(),
            final(self).default_target() == old(self).default_target(),
            if target < old(self).target_values().len() {
                &&& r == old(self).target_values()[target as int].selected(
                    old(self).backend_values(),
                )
                &&& final(self).target_values() == old(self).target_values().update(
                    target as int,
                    old(self).target_values()[target as int].after_select(
                        old(self).backend_values(),
                    ),
                )
            } else {
                &&& r == Err::<usize, SelectError>(SelectError::UnknownTarget)
                &&& final(self).target_values() == old(self).target_values()
            },
    {
        if target >= self.targets.len() {
            return Err(SelectError::UnknownTarget);
        }
        let ghost before = *self;
        assert(self.targets@[target as int]@.wf(self.backend_values()));
        let r = self.targets[target].select(self.backends.as_slice());
        proof {
            assert(self.target_values() =~= before.target_values().update(
                target as int,
                before.target_values()[target as int].after_select(before.backend_values()),
            ));
            assert forall|i: int| 0 <= i < self.targets@.len() implies (
            #[trigger] self.targets@[i])@.wf(self.backend_values()) by {
                assert(before.targets@[i]@.wf(before.backend_values()));
            }
        }
        r
    }

    /// Every target refers to backends of this registry.
    pub proof fn lemma_target_wf(&self, at: usize)
        requires
            self.wf(),
            at < self.target_values().len(),
        ensures
            self.target_values()[at as int].wf(self.backend_values()),
    {
        assert(self.targets@[at as int]@.wf(self.backend_values()));
    }

    /// Whether no member of a target is healthy, where there is such a target.
    pub fn is_target_offline(&self, at: usize) -> (offline: Option<bool>)
        requires
            self.wf(),
        ensures
            offline == if at < self.target_values().len() {
                Some(!self.target_values()[at as int].any_healthy(self.backend_values()))
            } else {
                None::<bool>
            },
    {
        if at >= self.targets.len() {
            return None;
        }
        let ghost values = self.backend_values();
        let ghost target = self.target_values()[at as int];
        proof {
            self.lemma_target_wf(at);
        }
        let members = self.targets[at].members();
        let mut i: usize = 0;
        while i < members.len()
            invariant
                i <= members@.len(),
                members@ == target.members,
                at < self.targets@.len(),
                target == self.target_values()[at as int],
                values == self.backend_values(),
                values == backend_values(self.backends@),
                target.wf(values),
                forall|j: int| 0 <= j < i ==> !(#[trigger] target.member(values, j)).healthy,
            decreases members@.len() - i,
        {
            let m: usize = members[i];
            assert(target.members[i as int] < values.len());
            assert(values[m as int] == self.backends@[m as int]@);
            if self.backends[m].is_healthy() {
                assert(target.member(values, i as int).healthy);
                return Some(false);
            }
            i = i + 1;
        }
        Some(true)
    }

    /// Takes a slot of the backend at a place.
    pub fn acquire(&mut self, at: usize) -> (guard: Option<SessionGuard>)
        requires
            old(self).wf(),
            at < old(self).backend_values().len(),
        ensures
            final(self).wf(),
            final(self).target_values() == old(self).target_values(),
            final(self).configuration() == old(self).configuration(),
            final(self).rules() == old(self).rules(),
            final(self).default_target() == old(self).default_target(),
            if old(self).backend_values()[at as int].full() {
                guard is None && final(self).backend_values() == old(self).backend_values()
            } else {
                &&& guard is Some
                &&& guard->Some_0.holder() == old(self).backend_values()[at as int].name
                &&& final(self).backend_values() == old(self).backend_values().update(
                    at as int,
                    old(self).backend_values()[at as int].acquired(),
                )
            },
    {
        let ghost before = *self;
        let guard = self.backends[at].try_acquire();
        proof {
            assert(self.backend_values() =~= if before.backend_values()[at as int].full() {
                before.backend_values()
            } else {
                before.backend_values().update(
                    at as int,
                    before.backend_values()[at as int].acquired(),
                )
            });
        }
        guard
    }

    /// Gives a slot back to the backend that it belongs to.
    pub fn release(&mut self, guard: SessionGuard)
        requires
            old(self).wf(),
        ensures
            final(self).wf(),
            final(self).target_values() == old(self).target_values(),
            final(self).configuration() == old(self).configuration(),
            final(self).rules() == old(self).rules(),
            final(self).default_target() == old(self).default_target(),
            ({
                let at = backend_place(old(self).backend_values(), guard.holder()) as int;
                final(self).backend_values() == if at < old(self).backend_values().len() {
                    old(self).backend_values().update(
                        at,
                        old(self).backend_values()[at].released(),
                    )
                } else {
                    old(self).backend_values()
                }
            }),
    {
        let ghost before = *self;
        let at: usize = find_backend(&self.backends, guard.backend());
        if at < self.backends.len() {
            proof {
                lemma_backend_place(self.backend_values(), guard.holder());
                assert(self.backend_values()[at as int] == self.backends@[at as int]@);
            }
            self.backends[at].release(guard);
            assert(self.backend_values() =~= before.backend_values().update(
                at as int,
                before.backend_values()[at as int].released(),
            ));
        }
    }

    /// The backend of a name.
    pub fn backend(&self, name: &str) -> (backend: Option<&Backend>)
        ensures
            ({
                let at = backend_place(self.backend_values(), name@) as int;
                if at < self.backend_values().len() {
                    backend is Some && backend->Some_0@ == self.backend_values()[at]
                } else {
                    backend is None
                }
            }),
    {
        let at: usize = find_backend(&self.backends, name);
        if at < self.backends.len() {
            Some(&self.backends[at])
        } else {
            None
        }
    }

    /// The backend of a name, to be changed.
    pub fn backend_mut(&mut self, name: &str) -> (backend: Option<&mut Backend>)
        ensures
            ({
                let at = backend_place(old(self).backend_values(), name@) as int;
                if at < old(self).backend_values().len() {
                    &&& backend is Some
                    &&& backend->Some_0@ == old(self).backend_values()[at]
                    &&& final(self).backend_values() == old(self).backend_values().update(
                        at,
                        final(backend->Some_0)@,
                    )
                } else {
                    backend is None && final(self).backend_values() == old(self).backend_values()
                }
            }),
            final(self).target_values() == old(self).target_values(),
            final(self).configuration() == old(self).configuration(),
            final(self).rules() == old(self).rules(),
            final(self).default_target() == old(self).default_target(),
            old(self).wf() ==> final(self).wf(),
    {
        let at: usize = find_backend(&self.backends, name);
        if at < self.backends.len() {
            Some(&mut self.backends[at])
        } else {
            None
        }
    }

    /// All backends as they were declared.
    pub fn backends(&self) -> (backends: &[Backend])
        ensures
            backend_values(backends@) == self.backend_values(),
    {
        self.backends.as_slice()
    }

    /// Sessions of all backends, if their number fits.
    pub fn active_sessions(&self) -> (n: Option<usize>)
        ensures
            n == fitting(total_active(self.backend_values(), self.backend_values().len())),
    {
        let ghost values = self.backend_values();
        let mut n: usize = 0;
        let mut i: usize = 0;
        while i < self.backends.len()
            invariant
                i <= self.backends@.len(),
                values == self.backend_values(),
                values.len() == self.backends@.len(),
                n == total_active(values, i as nat),
            decreases self.backends@.len() - i,
        {
            assert(values[i as int] == self.backends@[i as int]@);
            let more: usize = self.backends[i].active_sessions();
            if more > usize::MAX - n {
                proof {
                    lemma_active_grows(values, (i + 1) as nat);
                }
                return None;
            }
            n = n + more;
            i = i + 1;
        }
        Some(n)
    }

    /// How many backends are healthy.
    pub fn healthy_count(&self) -> (n: usize)
        ensures
            n == count_healthy(self.backend_values(), self.backend_values().len()),
    {
        let ghost values = self.backend_values();
        let mut n: usize = 0;
        let mut i: usize = 0;
        while i < self.backends.len()
            invariant
                i <= self.backends@.len(),
                n <= i,
                values == self.backend_values(),
                values.len() == self.backends@.len(),
                n == count_healthy(values, i as nat),
            decreases self.backends@.len() - i,
        {
            assert(values[i as int] == self.backends@[i as int]@);
            if self.backends[i].is_healthy() {
                n = n + 1;
            }
            i = i + 1;
        }
        n
    }

    /// Players reported by the backends themselves, for `motd.players:
    /// backends`, if their number fits.
    pub fn reported_players(&self) -> (n: Option<i64>)
        ensures
            n == ({
                let sum = total_reported(self.backend_values(), self.backend_values().len());
                if i64::MIN <= sum <= i64::MAX {
                    Some(sum as i64)
                } else {
                    None::<i64>
                }
            }),
    {
        let ghost values = self.backend_values();
        let mut sum: i128 = 0;
        let mut i: usize = 0;
        while i < self.backends.len()
            invariant
                i <= self.backends@.len(),
                values == self.backend_values(),
                values.len() == self.backends@.len(),
                sum == total_reported(values, i as nat),
                -(i * 0x8000_0000_0000_0000) <= sum <= i * 0x8000_0000_0000_0000,
            decreases self.backends@.len() - i,
        {
            assert(values[i as int] == self.backends@[i as int]@);
            match &self.backends[i].status {
                Some(status) => {
                    sum = sum + status.online as i128;
                },
                None => {},
            }
            i = i + 1;
        }
        if -0x8000_0000_0000_0000 <= sum && sum <= 0x7fff_ffff_ffff_ffff {
            Some(sum as i64)
        } else {
            None
        }
    }
}

// -------------------------------------------------------------------- laws --

/// A host leads to one target only, by one rule only.
pub proof fn one_route(
    rules: Seq<RuleValue>,
    default: Option<Seq<char>>,
    host: Seq<char>,
    listener: Seq<char>,
    target_a: Seq<char>,
    rule_a: Option<RuleValue>,
    target_b: Seq<char>,
    rule_b: Option<RuleValue>,
)
    requires
        leads_to(rules, default, host, listener, target_a, rule_a),
        leads_to(rules, default, host, listener, target_b, rule_b),
    ensures
        target_a == target_b,
        rule_a == rule_b,
{
    if any_rule(rules, host, listener) {
        let i = choose|i: int| #[trigger]
            decides(rules, host, listener, i) && target_a == rules[i].target && rule_a == Some(
                rules[i],
            );
        let j = choose|j: int| #[trigger]
            decides(rules, host, listener, j) && target_b == rules[j].target && rule_b == Some(
                rules[j],
            );
        crate::routing::matcher::one_rule_decides(rules, host, listener, i, j);
    }
}

/// A slot that was claimed and given back leaves the count as it was, and a
/// claim is counted once for all.
pub proof fn release_undoes_acquire(backend: BackendValue)
    requires
        !backend.full(),
    ensures
        backend.acquired().released().active == backend.active,
        backend.acquired().released() == (BackendValue {
            sessions_total: next_u64(backend.sessions_total),
            ..backend
        }),
{
}

/// A limited backend never has more sessions than its limit.
pub proof fn limit_is_never_exceeded(backend: BackendValue)
    requires
        backend.max_connections != 0,
        backend.active <= backend.max_connections,
        !backend.full(),
    ensures
        backend.acquired().active <= backend.max_connections,
{
}

/// A backend that keeps failing goes down with the last failure of a streak as
/// long as its threshold, and not before.
pub proof fn failures_are_debounced(backend: BackendValue)
    requires
        backend.healthy,
        backend.consecutive_fail < u32::MAX,
    ensures
        backend.flips(false) == (backend.consecutive_fail + 1 >= at_least_one(
            backend.health_config.fall,
        )),
        !backend.flips(true),
        backend.checked(true, None).consecutive_fail == 0,
        backend.checked(false, None).healthy == !backend.flips(false),
{
}

/// A backend that is down comes back with the last success of a streak as long
/// as its threshold, and not before.
pub proof fn recoveries_are_debounced(backend: BackendValue)
    requires
        !backend.healthy,
        backend.consecutive_ok < u32::MAX,
    ensures
        backend.flips(true) == (backend.consecutive_ok + 1 >= at_least_one(
            backend.health_config.rise,
        )),
        !backend.flips(false),
        backend.checked(false, None).consecutive_ok == 0,
        backend.checked(true, None).healthy == backend.flips(true),
{
}

/// A backend at a new address starts from a clean slate.
pub proof fn moved_backend_starts_clean(
    name: Seq<char>,
    server: Server,
    health: Health,
    previous: Seq<BackendValue>,
)
    requires
        forall|i: int|
            0 <= i < previous.len() && (#[trigger] previous[i]).name == name ==> previous[i].address
                != server.address@,
    ensures
        reloaded_backend(name, server, health, previous) == fresh_backend(name, server, health),
{
    lemma_backend_place(previous, name);
}

/// A backend at the same address keeps its health and its sessions.
pub proof fn unmoved_backend_keeps_its_state(
    name: Seq<char>,
    server: Server,
    health: Health,
    previous: Seq<BackendValue>,
)
    requires
        backend_place(previous, name) < previous.len(),
        previous[backend_place(previous, name) as int].address == server.address@,
    ensures
        ({
            let before = previous[backend_place(previous, name) as int];
            let after = reloaded_backend(name, server, health, previous);
            &&& after.healthy == before.healthy
            &&& after.active == before.active
            &&& after.sessions_total == before.sessions_total
            &&& after.status == before.status
        }),
{
}

/// Whether member `at` can take a player, and none from `from` on before it.
pub open spec fn first_room(
    target: TargetValue,
    backends: Seq<BackendValue>,
    at: int,
    from: int,
) -> bool {
    &&& 0 <= at < target.members.len()
    &&& target.member(backends, at).selectable()
    &&& forall|k: int| from <= k < at ==> !(#[trigger] target.member(backends, k)).selectable()
}

proof fn lemma_first_selectable(target: TargetValue, backends: Seq<BackendValue>, i: nat)
    requires
        i <= target.members.len(),
    ensures
        match target.first_selectable(backends, i) {
            Some(m) => target.members.contains(m) && exists|at: int|
                i <= at && first_room(target, backends, at, i as int)
                    && target.members[at] == m,
            None => forall|k: int|
                i <= k < target.members.len() ==> !(#[trigger] target.member(
                    backends,
                    k,
                )).selectable(),
        },
    decreases target.members.len() - i,
{
    if i < target.members.len() {
        lemma_first_selectable(target, backends, i + 1);
        if target.member(backends, i as int).selectable() {
            assert(target.members.contains(target.members[i as int]));
            assert(first_room(target, backends, i as int, i as int));
        } else if let Some(m) = target.first_selectable(backends, i + 1) {
            let at = choose|at: int|
                i + 1 <= at && first_room(target, backends, at, i as int + 1)
                    && target.members[at] == m;
            assert(first_room(target, backends, at, i as int));
        }
    }
}

proof fn lemma_quietest(target: TargetValue, backends: Seq<BackendValue>, n: nat)
    requires
        n <= target.members.len(),
    ensures
        match target.quietest(backends, n) {
            Some(m) => target.members.contains(m) && backends[m as int].selectable() && forall|
                k: int,
            |
                0 <= k < n && (#[trigger] target.member(backends, k)).selectable()
                    ==> backends[m as int].active <= target.member(backends, k).active,
            None => forall|k: int|
                0 <= k < n ==> !(#[trigger] target.member(backends, k)).selectable(),
        },
    decreases n,
{
    if n > 0 {
        lemma_quietest(target, backends, (n - 1) as nat);
        assert(target.members.contains(target.members[n - 1]));
        let m = target.members[n - 1];
        assert(target.member(backends, n - 1) == backends[m as int]);
    }
}

proof fn lemma_next_on_wheel(target: TargetValue, backends: Seq<BackendValue>, offset: nat)
    requires
        target.wf(backends),
        offset <= target.wheel.len(),
    ensures
        match target.next_on_wheel(backends, offset) {
            Some(m) => target.members.contains(m) && backends[m as int].selectable(),
            None => true,
        },
    decreases target.wheel.len() - offset,
{
    if offset < target.wheel.len() {
        lemma_next_on_wheel(target, backends, offset + 1);
        let len = target.wheel.len();
        let place = wheel_place(target.cursor, offset, len);
        assert(0 <= place < len);
        let slot = target.wheel[place];
        assert(slot < target.members.len());
        assert(target.members.contains(target.members[slot as int]));
    }
}

/// Whatever the policy, the backend that gets the next player is a member of
/// the target, healthy, and has a free slot.
pub proof fn selection_is_sound(target: TargetValue, backends: Seq<BackendValue>)
    requires
        target.wf(backends),
        target.selected(backends) is Ok,
    ensures
        target.members.contains(target.selected(backends)->Ok_0),
        backends[target.selected(backends)->Ok_0 as int].healthy,
        !backends[target.selected(backends)->Ok_0 as int].full(),
{
    lemma_first_selectable(target, backends, 0);
    lemma_quietest(target, backends, target.members.len());
    lemma_next_on_wheel(target, backends, 0);
}

/// Least connections picks a member that no selectable member undercuts.
pub proof fn least_connections_prefers_the_quietest(
    target: TargetValue,
    backends: Seq<BackendValue>,
    other: int,
)
    requires
        target.wf(backends),
        target.policy == Policy::LeastConnections,
        target.selected(backends) is Ok,
        0 <= other < target.members.len(),
        target.member(backends, other).selectable(),
    ensures
        backends[target.selected(backends)->Ok_0 as int].active <= target.member(
            backends,
            other,
        ).active,
{
    lemma_quietest(target, backends, target.members.len());
}

/// Under failover and least connections a target is full only where no member
/// can take a player.
pub proof fn full_means_nobody_is_free(target: TargetValue, backends: Seq<BackendValue>, i: int)
    requires
        target.wf(backends),
        target.policy != Policy::RoundRobin,
        target.selected(backends) == Err::<usize, SelectError>(SelectError::AllFull),
        0 <= i < target.members.len(),
    ensures
        !target.member(backends, i).selectable(),
{
    lemma_first_selectable(target, backends, 0);
    lemma_quietest(target, backends, target.members.len());
}

/// While every member can take a player, round robin hands out the slots of the
/// wheel one after the other, and moves on by one.
pub proof fn round_robin_follows_the_wheel(target: TargetValue, backends: Seq<BackendValue>)
    requires
        target.wf(backends),
        target.policy == Policy::RoundRobin,
        target.wheel.len() > 0,
        forall|i: int|
            0 <= i < target.members.len() ==> (#[trigger] target.member(backends, i)).selectable(),
        target.cursor < usize::MAX,
    ensures
        target.selected(backends) == Ok::<usize, SelectError>(
            target.members[target.wheel[target.cursor as int % target.wheel.len() as int] as int],
        ),
        target.after_select(backends).cursor == target.cursor + 1,
{
    let place = wheel_place(target.cursor, 0, target.wheel.len());
    let slot = target.wheel[place];
    assert(slot < target.members.len());
    assert(target.member(backends, slot as int).selectable());
    assert(target.any_healthy(backends));
}

/// One lap hands out every slot of the wheel exactly once, wherever it starts:
/// each member gets its share.
pub proof fn one_lap_is_fair(wheel: Seq<usize>, start: nat)
    requires
        wheel.len() > 0,
    ensures
        Seq::new(wheel.len(), |k: int| wheel[(start + k) % wheel.len() as int]).to_multiset()
            == wheel.to_multiset(),
{
    let n = wheel.len() as int;
    let s = start as int % n;
    let lap = Seq::new(wheel.len(), |k: int| wheel[(start + k) % n]);
    assert forall|k: int| 0 <= k < n implies #[trigger] lap[k] == (wheel.skip(s) + wheel.take(s))[k] by {
        let q = start as int / n;
        assert(start as int == q * n + s) by (nonlinear_arith)
            requires
                q == start as int / n,
                s == start as int % n,
                n > 0,
        ;
        if k < n - s {
            vstd::arithmetic::div_mod::lemma_fundamental_div_mod_converse(
                start as int + k,
                n,
                q,
                s + k,
            );
        } else {
            assert((q + 1) * n == q * n + n) by (nonlinear_arith);
            vstd::arithmetic::div_mod::lemma_fundamental_div_mod_converse(
                start as int + k,
                n,
                q + 1,
                s + k - n,
            );
        }
    }
    assert(lap =~= wheel.skip(s) + wheel.take(s));
    vstd::seq_lib::lemma_multiset_commutative(wheel.skip(s), wheel.take(s));
    vstd::seq_lib::lemma_multiset_commutative(wheel.take(s), wheel.skip(s));
    assert(wheel.take(s) + wheel.skip(s) =~= wheel);
}

/// A member with a weight has at least one slot on the wheel, and one without
/// has none.
pub proof fn every_weight_counts(weight: u32, scale: nat)
    requires
        scale >= 1,
    ensures
        (slots(weight, scale) == 0) == (weight == 0),
        scale == 1 ==> slots(weight, scale) == weight,
{
}

proof fn lemma_same_slots(n: nat, slot: usize, other: usize)
    ensures
        Seq::new(n, |i: int| slot).to_multiset().count(other) == if other == slot {
            n
        } else {
            0
        },
    decreases n,
{
    let all = Seq::new(n, |i: int| slot);
    broadcast use vstd::seq_lib::group_to_multiset_ensures;

    if n > 0 {
        lemma_same_slots((n - 1) as nat, slot, other);
        assert(all =~= Seq::new((n - 1) as nat, |i: int| slot).push(slot));
    } else {
        assert(all =~= Seq::<usize>::empty());
    }
}

/// Each member has exactly its share of the slots on the wheel.
pub proof fn wheel_gives_shares(weights: Seq<u32>, scale: nat, n: nat, member: usize)
    requires
        n <= weights.len() <= usize::MAX,
    ensures
        wheel_of(weights, scale, n).to_multiset().count(member) == if member < n {
            slots(weights[member as int], scale)
        } else {
            0
        },
    decreases n,
{
    broadcast use vstd::seq_lib::group_to_multiset_ensures;

    if n > 0 {
        let before = wheel_of(weights, scale, (n - 1) as nat);
        let slot = (n - 1) as usize;
        let own = Seq::new(slots(weights[n - 1], scale), |i: int| (n - 1) as usize);
        wheel_gives_shares(weights, scale, (n - 1) as nat, member);
        lemma_same_slots(slots(weights[n - 1], scale), slot, member);
        assert(own =~= Seq::new(slots(weights[n - 1], scale), |i: int| slot));
        vstd::seq_lib::lemma_multiset_commutative(before, own);
    }
}

proof fn lemma_nothing_on_wheel(
    target: TargetValue,
    backends: Seq<BackendValue>,
    offset: nat,
    k: nat,
)
    requires
        target.next_on_wheel(backends, offset) is None,
        offset <= k < target.wheel.len(),
    ensures
        !target.member(
            backends,
            target.wheel[wheel_place(target.cursor, k, target.wheel.len())] as int,
        ).selectable(),
    decreases k - offset,
{
    if offset < k {
        lemma_nothing_on_wheel(target, backends, offset + 1, k);
    }
}

/// Round robin looks at every slot of the wheel before it calls a target full.
pub proof fn full_means_the_wheel_is_full(
    target: TargetValue,
    backends: Seq<BackendValue>,
    slot: int,
)
    requires
        target.wf(backends),
        target.policy == Policy::RoundRobin,
        target.selected(backends) == Err::<usize, SelectError>(SelectError::AllFull),
        0 <= slot < target.wheel.len(),
    ensures
        !target.member(backends, target.wheel[slot] as int).selectable(),
{
    let n = target.wheel.len() as int;
    let start = target.cursor as int;
    let at = start % n;
    let q = start / n;
    assert(start == q * n + at) by (nonlinear_arith)
        requires
            q == start / n,
            at == start % n,
            n > 0,
    ;
    let k = if slot >= at {
        slot - at
    } else {
        slot + n - at
    };
    if slot >= at {
        vstd::arithmetic::div_mod::lemma_fundamental_div_mod_converse(start + k, n, q, slot);
    } else {
        assert((q + 1) * n == q * n + n) by (nonlinear_arith);
        vstd::arithmetic::div_mod::lemma_fundamental_div_mod_converse(start + k, n, q + 1, slot);
    }
    lemma_nothing_on_wheel(target, backends, 0, k as nat);
}

/// A member with a weight stands on the wheel.
proof fn lemma_on_the_wheel(weights: Seq<u32>, member: usize) -> (slot: int)
    requires
        member < weights.len() <= usize::MAX,
        weights[member as int] > 0,
    ensures
        0 <= slot < dealt(weights).len(),
        dealt(weights)[slot] == member,
{
    broadcast use vstd::seq_lib::group_to_multiset_ensures;

    let scale = wheel_scale(total_weight(weights, weights.len()));
    let wheel = dealt(weights);
    wheel_gives_shares(weights, scale, weights.len(), member);
    every_weight_counts(weights[member as int], scale);
    assert(wheel.to_multiset().count(member) > 0);
    assert(wheel.contains(member));
    choose|slot: int| 0 <= slot < wheel.len() && wheel[slot] == member
}

/// Round robin calls a target full only where no member with a weight can take
/// a player: each of them is unhealthy or full.
pub proof fn full_round_robin_has_no_room(
    target: TargetValue,
    backends: Seq<BackendValue>,
    i: int,
)
    requires
        target.wf(backends),
        target.policy == Policy::RoundRobin,
        target.selected(backends) == Err::<usize, SelectError>(SelectError::AllFull),
        0 <= i < target.members.len(),
        target.weights[i] >= 1,
    ensures
        !target.member(backends, i).healthy || target.member(backends, i).full(),
{
    let slot = lemma_on_the_wheel(target.weights, i as usize);
    full_means_the_wheel_is_full(target, backends, slot);
}

/// Whether some member can take a player.
pub open spec fn any_room(target: TargetValue, backends: Seq<BackendValue>) -> bool {
    exists|i: int|
        0 <= i < target.members.len() && (#[trigger] target.member(backends, i)).selectable()
}

/// Whether member `i` is a right one for the next player: it has room, under
/// least connections nobody with room is quieter, and under failover nobody
/// with room stands before it.
pub open spec fn right_choice(target: TargetValue, backends: Seq<BackendValue>, i: int) -> bool {
    &&& 0 <= i < target.members.len()
    &&& target.member(backends, i).selectable()
    &&& target.policy == Policy::LeastConnections ==> forall|k: int|
        0 <= k < target.members.len() && (#[trigger] target.member(backends, k)).selectable()
            ==> target.member(backends, i).active <= target.member(backends, k).active
    &&& target.policy == Policy::Failover ==> first_room(target, backends, i, 0)
}

/// A target without members is empty, one without a healthy member is
/// unhealthy, one without room is full, and every other has a right choice, as
/// long as under round robin every member has a weight.
#[verifier::rlimit(40)]
pub proof fn selection_is_exact(target: TargetValue, backends: Seq<BackendValue>)
    requires
        target.wf(backends),
        target.policy == Policy::RoundRobin ==> forall|i: int|
            0 <= i < target.members.len() ==> #[trigger] target.weights[i] >= 1,
    ensures
        (target.selected(backends) == Err::<usize, SelectError>(SelectError::Empty)) == (
        target.members.len() == 0),
        (target.selected(backends) == Err::<usize, SelectError>(SelectError::AllUnhealthy)) == (
        target.members.len() > 0 && !target.any_healthy(backends)),
        (target.selected(backends) == Err::<usize, SelectError>(SelectError::AllFull)) == (
        target.any_healthy(backends) && !any_room(target, backends)),
        (target.selected(backends) is Ok) == any_room(target, backends),
        target.selected(backends) is Ok ==> exists|i: int|
            right_choice(target, backends, i) && target.members[i] == target.selected(
                backends,
            )->Ok_0,
{
    lemma_first_selectable(target, backends, 0);
    lemma_quietest(target, backends, target.members.len());
    lemma_next_on_wheel(target, backends, 0);
    if any_room(target, backends) {
        let i = choose|i: int|
            0 <= i < target.members.len() && (#[trigger] target.member(backends, i)).selectable();
        assert(target.member(backends, i).healthy);
        assert(target.any_healthy(backends));
        if target.policy == Policy::RoundRobin && target.selected(backends) is Err {
            assert(target.weights[i] >= 1);
            full_round_robin_has_no_room(target, backends, i);
        }
    }
    if let Ok(m) = target.selected(backends) {
        if target.policy == Policy::Failover {
            let at = choose|at: int|
                0 <= at && first_room(target, backends, at, 0) && target.members[at] == m;
            assert(right_choice(target, backends, at));
        } else {
            let at = choose|at: int| 0 <= at < target.members.len() && target.members[at] == m;
            assert(target.member(backends, at) == backends[m as int]);
            assert(right_choice(target, backends, at));
        }
        let i = choose|i: int| right_choice(target, backends, i) && target.members[i] == m;
        assert(target.member(backends, i).selectable());
    }
}

// ------------------------------------------------------- declaration order --

proof fn lemma_declared_place(servers: Seq<(String, Server)>, backends: Seq<BackendValue>, i: int)
    requires
        server_names(servers).no_duplicates(),
        backends.len() == servers.len(),
        forall|k: int| 0 <= k < servers.len() ==> (#[trigger] backends[k]).name == servers[k].0@,
        0 <= i < servers.len(),
    ensures
        backend_place(backends, servers[i].0@) == i,
{
    let names = server_names(servers);
    assert forall|k: int| 0 <= k < i implies (#[trigger] backends[k]).name != servers[i].0@ by {
        assert(names[k] == servers[k].0@ && names[i] == servers[i].0@);
    }
    lemma_backend_place_is(backends, servers[i].0@, i);
}

proof fn lemma_group_in_order(
    servers: Seq<(String, Server)>,
    backends: Seq<BackendValue>,
    group: Seq<char>,
    n: nat,
)
    requires
        server_names(servers).no_duplicates(),
        backends.len() == servers.len() <= usize::MAX,
        forall|k: int| 0 <= k < servers.len() ==> (#[trigger] backends[k]).name == servers[k].0@,
        n <= servers.len(),
    ensures
        ({
            let at = places(backends, group_members(servers, group, n));
            &&& forall|i: int| 0 <= i < at.len() ==> (#[trigger] at[i]) < n
            &&& forall|i: int, j: int| 0 <= i < j < at.len() ==> at[i] < at[j]
        }),
    decreases n,
{
    if n > 0 {
        lemma_group_in_order(servers, backends, group, (n - 1) as nat);
        lemma_declared_place(servers, backends, n - 1);
        let before = group_members(servers, group, (n - 1) as nat);
        let old_at = places(backends, before);
        let at = places(backends, group_members(servers, group, n));
        assert forall|i: int| 0 <= i < at.len() implies (#[trigger] at[i]) < n && (i < old_at.len()
            ==> at[i] == old_at[i]) by {
            if i < old_at.len() {
                assert(old_at[i] < n - 1);
            }
        }
    }
}

/// Under failover the members of a target stand in the order in which they were
/// declared: the places of the servers in the configuration ascend.
pub proof fn members_stand_as_declared(
    config: Config,
    previous: Seq<BackendValue>,
    target: Seq<char>,
)
    requires
        config.wf(),
        config.servers@.len() <= usize::MAX,
        policy_for(config.groups@, target) == Policy::Failover,
    ensures
        ({
            let backends = reloaded_backends(config, previous);
            let at = target_for(config, backends, target).members;
            &&& forall|i: int| 0 <= i < at.len() ==> (#[trigger] at[i]) < config.servers@.len()
            &&& forall|i: int, j: int| 0 <= i < j < at.len() ==> at[i] < at[j]
        }),
{
    let backends = reloaded_backends(config, previous);
    let servers = config.servers@;
    let at = target_for(config, backends, target).members;
    assert forall|k: int| 0 <= k < servers.len() implies (#[trigger] backends[k]).name
        == servers[k].0@ by {}
    if server_names(servers).contains(target) {
        let i = choose|i: int| 0 <= i < servers.len() && server_names(servers)[i] == target;
        assert(servers[i].0@ == target);
        lemma_declared_place(servers, backends, i);
        assert(at =~= seq![i as usize]);
    } else {
        lemma_group_in_order(servers, backends, target, servers.len());
    }
}

proof fn lemma_group_by_name(servers: Seq<(String, Server)>, group: Seq<char>, n: nat)
    requires
        n <= servers.len(),
        forall|i: int, j: int|
            0 <= i < j < servers.len() ==> !text_less(
                (#[trigger] servers[j]).0@,
                (#[trigger] servers[i]).0@,
            ),
    ensures
        ({
            let names = group_members(servers, group, n);
            &&& forall|i: int| 0 <= i < names.len() ==> exists|k: int|
                0 <= k < n && #[trigger] names[i] == (#[trigger] servers[k]).0@
            &&& forall|i: int, j: int|
                0 <= i < j < names.len() ==> !text_less(#[trigger] names[j], #[trigger] names[i])
        }),
    decreases n,
{
    if n > 0 {
        lemma_group_by_name(servers, group, (n - 1) as nat);
        let before = group_members(servers, group, (n - 1) as nat);
        let names = group_members(servers, group, n);
        assert forall|i: int| 0 <= i < names.len() implies exists|k: int|
            0 <= k < n && #[trigger] names[i] == (#[trigger] servers[k]).0@ by {
            if i < before.len() {
                assert(names[i] == before[i]);
                let k = choose|k: int| 0 <= k < n - 1 && before[i] == (#[trigger] servers[k]).0@;
                assert(names[i] == servers[k].0@);
            } else {
                assert(names[i] == servers[n - 1].0@);
            }
        }
        assert forall|i: int, j: int| 0 <= i < j < names.len() implies !text_less(
            #[trigger] names[j],
            #[trigger] names[i],
        ) by {
            assert(names[i] == before[i]);
            if j < before.len() {
                assert(names[j] == before[j]);
            } else {
                let k = choose|k: int| 0 <= k < n - 1 && before[i] == (#[trigger] servers[k]).0@;
                assert(!text_less(servers[n - 1].0@, servers[k].0@));
            }
        }
    }
}

/// Under the other policies the members of a target stand in the order of their
/// names.
pub proof fn members_stand_by_name(config: Config, target: Seq<char>)
    requires
        policy_for(config.groups@, target) != Policy::Failover,
    ensures
        forall|i: int, j: int|
            0 <= i < j < members_for(config, target).len() ==> !text_less(
                #[trigger] members_for(config, target)[j],
                #[trigger] members_for(config, target)[i],
            ),
{
    let servers = config.servers@;
    let names = server_names(servers);
    let sorted = servers_by_name(servers);
    let order = name_order(names);
    names_are_ordered(names);
    assert forall|i: int, j: int| 0 <= i < j < sorted.len() implies !text_less(
        (#[trigger] sorted[j]).0@,
        (#[trigger] sorted[i]).0@,
    ) by {
        assert(0 <= order[i] < names.len() && 0 <= order[j] < names.len());
        assert(sorted[i] == servers[order[i]] && sorted[j] == servers[order[j]]);
        assert(!text_less(names[order[j]], names[order[i]]));
    }
    lemma_group_by_name(sorted, target, sorted.len());
}

// ------------------------------------------------------------ health history --

/// A backend after a history of checks, oldest first.
pub open spec fn after_checks(
    backend: BackendValue,
    history: Seq<(bool, Option<SnapshotValue>)>,
) -> BackendValue
    decreases history.len(),
{
    if history.len() == 0 {
        backend
    } else {
        after_checks(backend, history.drop_last()).checked(history.last().0, history.last().1)
    }
}

/// How many checks at the end of a history had this result, without a break.
pub open spec fn run_of(history: Seq<(bool, Option<SnapshotValue>)>, ok: bool) -> nat
    decreases history.len(),
{
    if history.len() == 0 || history.last().0 != ok {
        0
    } else {
        1 + run_of(history.drop_last(), ok)
    }
}

proof fn lemma_streaks(backend: BackendValue, history: Seq<(bool, Option<SnapshotValue>)>)
    requires
        backend.consecutive_ok == 0,
        backend.consecutive_fail == 0,
        history.len() <= u32::MAX,
    ensures
        after_checks(backend, history).consecutive_ok == run_of(history, true),
        after_checks(backend, history).consecutive_fail == run_of(history, false),
        run_of(history, true) <= history.len(),
        run_of(history, false) <= history.len(),
        after_checks(backend, history).health_config == backend.health_config,
    decreases history.len(),
{
    if history.len() > 0 {
        lemma_streaks(backend, history.drop_last());
    }
}

/// A backend changes its state exactly with the check that makes an unbroken
/// run of results against that state as long as the threshold, counted since
/// the backend was built; then it is what the check found, and one that goes
/// down forgets its status. Every other check leaves the state as it is and
/// keeps the newest status.
pub proof fn health_follows_the_run(
    built: BackendValue,
    history: Seq<(bool, Option<SnapshotValue>)>,
    ok: bool,
    snapshot: Option<SnapshotValue>,
)
    requires
        built.consecutive_ok == 0,
        built.consecutive_fail == 0,
        history.len() < u32::MAX,
    ensures
        ({
            let before = after_checks(built, history);
            let after = after_checks(built, history.push((ok, snapshot)));
            let run = run_of(history.push((ok, snapshot)), ok);
            let threshold = at_least_one(
                if ok {
                    built.health_config.rise
                } else {
                    built.health_config.fall
                },
            );
            &&& after == before.checked(ok, snapshot)
            &&& before.flips(ok) == (before.healthy != after.healthy)
            &&& before.flips(ok) == (before.healthy != ok && run >= threshold)
            &&& before.flips(ok) ==> after.healthy == ok
            &&& after.status == if before.flips(ok) && !ok {
                None
            } else if snapshot is Some {
                snapshot
            } else {
                before.status
            }
        }),
{
    let all = history.push((ok, snapshot));
    assert(all.drop_last() =~= history);
    lemma_streaks(built, history);
    lemma_streaks(built, all);
}

proof fn lemma_wheel_len(weights: Seq<u32>, scale: nat, n: nat)
    requires
        scale >= 1,
        n <= weights.len(),
    ensures
        scale * wheel_of(weights, scale, n).len() <= total_weight(weights, n) + scale * n,
    decreases n,
{
    if n > 0 {
        lemma_wheel_len(weights, scale, (n - 1) as nat);
        let weight = weights[n - 1] as nat;
        let before = wheel_of(weights, scale, (n - 1) as nat).len();
        let own = slots(weights[n - 1], scale);
        assert(scale * (weight / scale) <= weight) by (nonlinear_arith)
            requires
                scale >= 1,
        ;
        assert(scale * own <= weight + scale) by (nonlinear_arith)
            requires
                scale * (weight / scale) <= weight,
                own == 0 || own == 1 || own == weight / scale,
        ;
        assert(scale * (before + own) == scale * before + scale * own) by (nonlinear_arith);
        assert(scale * n == scale * (n - 1) + scale) by (nonlinear_arith);
    }
}

/// However large the weights are, the wheel stays small: no weight can make it
/// allocate wildly.
pub proof fn the_wheel_stays_small(weights: Seq<u32>)
    ensures
        dealt(weights).len() <= MAX_WHEEL + weights.len(),
{
    let total = total_weight(weights, weights.len());
    let scale = wheel_scale(total);
    let n = weights.len();
    let len = wheel_of(weights, scale, n).len();
    let max = MAX_WHEEL as nat;
    assert(scale >= 1 && total <= scale * max) by (nonlinear_arith)
        requires
            max == 4096,
            scale == if total > max {
                (total + max - 1) as nat / max
            } else {
                1
            },
    ;
    lemma_wheel_len(weights, scale, n);
    assert(len <= max + n) by (nonlinear_arith)
        requires
            scale >= 1,
            scale * len <= total + scale * n,
            total <= scale * max,
    ;
}

// ------------------------------------------------------------ what is owed --

/// The rule that decides names the target; where no rule takes the host, the
/// default target does, and without one the host leads nowhere.
pub proof fn the_deciding_rule_names_the_target(
    rules: Seq<RuleValue>,
    default: Option<Seq<char>>,
    host: Seq<char>,
    listener: Seq<char>,
    i: int,
    target: Seq<char>,
    rule: Option<RuleValue>,
)
    ensures
        decides(rules, host, listener, i) ==> leads_to(
            rules,
            default,
            host,
            listener,
            rules[i].target,
            Some(rules[i]),
        ),
        (forall|k: int|
            0 <= k < rules.len() ==> !alone_decides(#[trigger] rules[k], host, listener))
            ==> leads_to(
            rules,
            default,
            host,
            listener,
            target,
            rule,
        ) == (default == Some(target) && rule is None),
{
    some_rule_decides(rules, host, listener);
}

/// A backend with a limit takes that many sessions and not one more; one without
/// a limit takes every session. Only a healthy backend with a free slot may get
/// a player, and a claimed slot is one session more.
pub proof fn slots_are_counted(backend: BackendValue)
    ensures
        backend.max_connections == 0 ==> !backend.full(),
        backend.max_connections > 0 && backend.active < backend.max_connections ==> !backend.full(),
        backend.max_connections > 0 && backend.active >= backend.max_connections ==> backend.full(),
        backend.selectable() == (backend.healthy && !backend.full()),
        backend.active < usize::MAX ==> backend.acquired().active == backend.active + 1,
        backend.sessions_total < u64::MAX ==> backend.acquired().sessions_total
            == backend.sessions_total + 1,
        backend.active > 0 ==> backend.released().active == backend.active - 1,
        backend.released().sessions_total == backend.sessions_total,
        backend.acquired().healthy == backend.healthy,
        backend.released().healthy == backend.healthy,
        backend.acquired().name == backend.name,
        backend.released().name == backend.name,
        backend.acquired().status == backend.status,
        backend.released().status == backend.status,
{
}

/// A check counts towards its own streak and ends the other one, a threshold of
/// zero counts as one, and nothing but the streaks, the state and the status
/// changes.
pub proof fn a_check_counts_for_its_streak(
    backend: BackendValue,
    snapshot: Option<SnapshotValue>,
    ok: bool,
)
    ensures
        at_least_one(0) == 1,
        backend.health_config.rise > 0 ==> at_least_one(backend.health_config.rise)
            == backend.health_config.rise,
        backend.health_config.fall > 0 ==> at_least_one(backend.health_config.fall)
            == backend.health_config.fall,
        backend.consecutive_ok < u32::MAX ==> backend.checked(true, snapshot).consecutive_ok
            == backend.consecutive_ok + 1,
        backend.consecutive_fail < u32::MAX ==> backend.checked(false, snapshot).consecutive_fail
            == backend.consecutive_fail + 1,
        backend.checked(true, snapshot).consecutive_fail == 0,
        backend.checked(false, snapshot).consecutive_ok == 0,
        backend.checked(ok, snapshot).active == backend.active,
        backend.checked(ok, snapshot).sessions_total == backend.sessions_total,
        backend.checked(ok, snapshot).name == backend.name,
        backend.checked(ok, snapshot).address == backend.address,
        backend.checked(ok, snapshot).weight == backend.weight,
        backend.checked(ok, snapshot).max_connections == backend.max_connections,
        backend.checked(ok, snapshot).group == backend.group,
        backend.checked(ok, snapshot).health_config == backend.health_config,
{
}

/// A reload takes every setting from the new configuration and starts both
/// streaks anew, whatever is known of the backend from before.
pub proof fn a_reload_takes_the_new_settings(
    name: Seq<char>,
    server: Server,
    health: Health,
    previous: Seq<BackendValue>,
)
    ensures
        ({
            let backend = reloaded_backend(name, server, health, previous);
            let own = health_overlaid(health, server.health);
            &&& backend.name == name
            &&& backend.address == server.address@
            &&& backend.kind == server.kind
            &&& backend.forwarding == server.forwarding
            &&& backend.weight == server.weight
            &&& backend.max_connections == server.max_connections
            &&& backend.group == opt_text(server.group)
            &&& backend.health_config == own
            &&& backend.consecutive_ok == 0
            &&& backend.consecutive_fail == 0
        }),
        ({
            let backend = fresh_backend(name, server, health);
            let own = health_overlaid(health, server.health);
            &&& !own.enabled ==> backend.healthy
            &&& own.enabled ==> backend.healthy == health.start_healthy
            &&& backend.active == 0
            &&& backend.sessions_total == 0
            &&& backend.status is None
        }),
{
}

/// A backend found again under its name and address keeps its health, sessions
/// and status.
pub proof fn a_reload_keeps_what_stays(
    name: Seq<char>,
    server: Server,
    health: Health,
    previous: Seq<BackendValue>,
    at: int,
)
    requires
        0 <= at < previous.len(),
        previous[at].name == name,
        previous[at].address == server.address@,
        forall|i: int| 0 <= i < at ==> (#[trigger] previous[i]).name != name,
    ensures
        ({
            let backend = reloaded_backend(name, server, health, previous);
            &&& backend.healthy == previous[at].healthy
            &&& backend.active == previous[at].active
            &&& backend.sessions_total == previous[at].sessions_total
            &&& backend.status == previous[at].status
        }),
{
    lemma_backend_place_is(previous, name, at);
}

/// Weights that add up to no more than the wheel may hold are the numbers of
/// slots. Heavier ones are divided by the same number, the smallest by which
/// their sum fits, and round down, but not below one slot.
pub proof fn slots_follow_the_weights(weights: Seq<u32>, member: usize)
    requires
        member < weights.len() <= usize::MAX,
    ensures
        ({
            let total = total_weight(weights, weights.len());
            let share = dealt(weights).to_multiset().count(member);
            let weight = weights[member as int] as nat;
            let scale = wheel_scale(total);
            &&& total <= 4096 ==> share == weight
            &&& total > 4096 ==> scale * 4096 >= total > (scale - 1) * 4096
            &&& total > 4096 && weight == 0 ==> share == 0
            &&& total > 4096 && 0 < weight < scale ==> share == 1
            &&& total > 4096 && weight >= scale ==> share * scale <= weight < (share + 1) * scale
        }),
{
    let total = total_weight(weights, weights.len());
    let weight = weights[member as int] as nat;
    let scale = wheel_scale(total);
    wheel_gives_shares(weights, scale, weights.len(), member);
    assert(total > 4096 ==> scale * 4096 >= total > (scale - 1) * 4096 && scale >= 1)
        by (nonlinear_arith)
        requires
            total > 4096 ==> scale == (total + 4095) as nat / 4096,
    ;
    if total > 4096 {
        let parts = weight / scale;
        assert(parts * scale <= weight < (parts + 1) * scale) by (nonlinear_arith)
            requires
                parts == weight / scale,
                scale >= 1,
        ;
        if weight >= scale {
            assert(parts >= 1) by (nonlinear_arith)
                requires
                    weight >= scale,
                    weight < (parts + 1) * scale,
            ;
        } else {
            assert(parts == 0) by (nonlinear_arith)
                requires
                    weight < scale,
                    parts == weight / scale,
            ;
        }
    }
}

proof fn lemma_wheel_ascends(weights: Seq<u32>, scale: nat, n: nat)
    requires
        n <= weights.len() <= usize::MAX,
    ensures
        forall|i: int|
            0 <= i < wheel_of(weights, scale, n).len() ==> (#[trigger] wheel_of(
                weights,
                scale,
                n,
            )[i]) < n,
        forall|i: int, j: int|
            0 <= i < j < wheel_of(weights, scale, n).len() ==> wheel_of(weights, scale, n)[i]
                <= wheel_of(weights, scale, n)[j],
    decreases n,
{
    if n > 0 {
        lemma_wheel_ascends(weights, scale, (n - 1) as nat);
        let before = wheel_of(weights, scale, (n - 1) as nat);
        let all = wheel_of(weights, scale, n);
        assert forall|i: int| 0 <= i < all.len() implies (#[trigger] all[i]) < n by {
            if i < before.len() {
                assert(all[i] == before[i]);
            }
        }
        assert forall|i: int, j: int| 0 <= i < j < all.len() implies all[i] <= all[j] by {
            if i < before.len() {
                assert(all[i] == before[i]);
            }
            if j < before.len() {
                assert(all[j] == before[j]);
            }
        }
    }
}

/// The slots of a member stand together on the wheel, in the order of the
/// members.
pub proof fn the_wheel_goes_by_members(weights: Seq<u32>, i: int, j: int)
    requires
        weights.len() <= usize::MAX,
        0 <= i <= j < dealt(weights).len(),
    ensures
        dealt(weights)[i] <= dealt(weights)[j],
{
    lemma_wheel_ascends(
        weights,
        wheel_scale(total_weight(weights, weights.len())),
        weights.len(),
    );
}

/// The first member with room, from a place on the wheel on.
proof fn lemma_first_on_wheel(
    target: TargetValue,
    backends: Seq<BackendValue>,
    offset: nat,
    k: nat,
)
    requires
        offset <= k < target.wheel.len(),
        target.member(
            backends,
            target.wheel[(target.cursor + k) % target.wheel.len() as int] as int,
        ).selectable(),
        forall|m: int|
            offset <= m < k ==> !target.member(
                backends,
                (#[trigger] target.wheel[(target.cursor + m) % target.wheel.len() as int]) as int,
            ).selectable(),
    ensures
        target.next_on_wheel(backends, offset) == Some(
            target.members[target.wheel[(target.cursor + k) % target.wheel.len() as int] as int],
        ),
    decreases k - offset,
{
    if offset < k {
        let m = offset as int;
        let passed = target.wheel[(target.cursor + m) % target.wheel.len() as int];
        assert(!target.member(backends, passed as int).selectable());
        lemma_first_on_wheel(target, backends, offset + 1, k);
    }
}

/// Round robin passes over the slots of members without room: the first slot
/// behind the cursor whose member has room gets the player, and the wheel moves
/// on by one slot all the same.
pub proof fn round_robin_passes_over_the_busy(
    target: TargetValue,
    backends: Seq<BackendValue>,
    k: nat,
)
    requires
        target.wf(backends),
        target.policy == Policy::RoundRobin,
        k < target.wheel.len(),
        target.member(
            backends,
            target.wheel[(target.cursor + k) % target.wheel.len() as int] as int,
        ).selectable(),
        forall|m: int|
            0 <= m < k ==> !target.member(
                backends,
                (#[trigger] target.wheel[(target.cursor + m) % target.wheel.len() as int]) as int,
            ).selectable(),
    ensures
        target.selected(backends) == Ok::<usize, SelectError>(
            target.members[target.wheel[(target.cursor + k) % target.wheel.len() as int] as int],
        ),
        target.cursor < usize::MAX ==> target.after_select(backends).cursor == target.cursor + 1,
        target.cursor == usize::MAX ==> target.after_select(backends).cursor == 0,
{
    lemma_first_on_wheel(target, backends, 0, k);
    let place = (target.cursor + k) % target.wheel.len() as int;
    let slot = target.wheel[place];
    assert(slot < target.members.len());
    assert(target.member(backends, slot as int).healthy);
}

/// Only the cursor of a round-robin target ever moves, and only where a healthy
/// member was looked for on the wheel.
pub proof fn selecting_moves_the_cursor_only(target: TargetValue, backends: Seq<BackendValue>)
    ensures
        ({
            let after = target.after_select(backends);
            &&& after.name == target.name
            &&& after.policy == target.policy
            &&& after.members == target.members
            &&& after.weights == target.weights
            &&& after.wheel == target.wheel
            &&& target.policy != Policy::RoundRobin ==> after.cursor == target.cursor
            &&& !target.any_healthy(backends) ==> after.cursor == target.cursor
            &&& target.policy == Policy::RoundRobin && target.any_healthy(backends)
                && target.wheel.len() > 0 && target.cursor < usize::MAX ==> after.cursor
                == target.cursor + 1
        }),
{
}

proof fn lemma_first_quietest(target: TargetValue, backends: Seq<BackendValue>, n: nat) -> (at: int)
    requires
        n <= target.members.len(),
        target.quietest(backends, n) is Some,
    ensures
        0 <= at < n,
        target.quietest(backends, n) == Some(target.members[at]),
        target.member(backends, at).selectable(),
        forall|k: int|
            0 <= k < at && (#[trigger] target.member(backends, k)).selectable()
                ==> target.member(backends, at).active < target.member(backends, k).active,
        forall|k: int|
            at <= k < n && (#[trigger] target.member(backends, k)).selectable()
                ==> target.member(backends, at).active <= target.member(backends, k).active,
    decreases n,
{
    let last = n - 1;
    lemma_quietest(target, backends, (n - 1) as nat);
    if target.quietest(backends, (n - 1) as nat) is Some {
        let before = lemma_first_quietest(target, backends, (n - 1) as nat);
        if target.member(backends, last).selectable() && target.member(backends, last).active
            < target.member(backends, before).active {
            last
        } else {
            before
        }
    } else {
        last
    }
}

/// Of equally quiet members the first one gets the player.
pub proof fn the_first_of_the_quietest_is_picked(
    target: TargetValue,
    backends: Seq<BackendValue>,
)
    requires
        target.policy == Policy::LeastConnections,
        target.selected(backends) is Ok,
    ensures
        exists|at: int|
            0 <= at < target.members.len() && target.selected(backends) == Ok::<
                usize,
                SelectError,
            >(target.members[at]) && (#[trigger] target.member(backends, at)).selectable()
                && forall|k: int|
                0 <= k < at && (#[trigger] target.member(backends, k)).selectable()
                    ==> target.member(backends, at).active < target.member(backends, k).active,
{
    let at = lemma_first_quietest(target, backends, target.members.len());
    assert(target.member(backends, at).selectable());
}

/// A group with settings has the policy of its settings; every other target is
/// asked in turn.
pub proof fn groups_choose_their_policy(groups: Seq<(String, Group)>, name: Seq<char>, at: int)
    ensures
        0 <= at < groups.len() && groups[at].0@ == name && (forall|i: int|
            0 <= i < at ==> (#[trigger] groups[i]).0@ != name) ==> policy_for(groups, name)
            == groups[at].1.policy,
        (forall|i: int| 0 <= i < groups.len() ==> (#[trigger] groups[i]).0@ != name) ==> policy_for(
            groups,
            name,
        ) == Policy::RoundRobin,
    decreases groups.len(),
{
    if groups.len() > 0 {
        let rest = groups.drop_first();
        groups_choose_their_policy(rest, name, at - 1);
        assert forall|i: int| 0 <= i < rest.len() implies (#[trigger] rest[i]) == groups[i + 1] by {}
    }
}

/// The sums over all backends: one backend more adds its own sessions, itself
/// where it is healthy, and the players that it reports.
pub proof fn one_backend_more_adds_its_own(backends: Seq<BackendValue>, backend: BackendValue)
    ensures
        ({
            let all = backends.push(backend);
            &&& total_active(all, all.len()) == total_active(backends, backends.len())
                + backend.active
            &&& count_healthy(all, all.len()) == count_healthy(backends, backends.len()) + (
            if backend.healthy {
                1int
            } else {
                0
            })
            &&& total_reported(all, all.len()) == total_reported(backends, backends.len()) + (
            if backend.status is Some {
                backend.status->Some_0.online as int
            } else {
                0
            })
        }),
        total_active(Seq::empty(), 0) == 0,
        count_healthy(Seq::empty(), 0) == 0,
        total_reported(Seq::empty(), 0) == 0,
{
    lemma_sums_of_a_part(backends, backend, backends.len());
}

proof fn lemma_sums_of_a_part(backends: Seq<BackendValue>, backend: BackendValue, n: nat)
    requires
        n <= backends.len(),
    ensures
        total_active(backends.push(backend), n) == total_active(backends, n),
        count_healthy(backends.push(backend), n) == count_healthy(backends, n),
        total_reported(backends.push(backend), n) == total_reported(backends, n),
    decreases n,
{
    if n > 0 {
        lemma_sums_of_a_part(backends, backend, (n - 1) as nat);
    }
}

/// The healthy members of a target are those of its members that are healthy,
/// and its sessions are those of all its members, one member after the other.
pub proof fn one_member_more_adds_its_own(
    members: Seq<usize>,
    member: usize,
    backends: Seq<BackendValue>,
)
    ensures
        ({
            let all = members.push(member);
            &&& healthy_of(all, backends, all.len()) == (if backends[member as int].healthy {
                healthy_of(members, backends, members.len()).push(member)
            } else {
                healthy_of(members, backends, members.len())
            })
            &&& sessions_of(all, backends, all.len()) == sessions_of(
                members,
                backends,
                members.len(),
            ) + backends[member as int].active
        }),
        healthy_of(Seq::empty(), backends, 0) == Seq::<usize>::empty(),
        sessions_of(Seq::empty(), backends, 0) == 0,
{
    lemma_part_of_members(members, member, backends, members.len());
}

proof fn lemma_part_of_members(
    members: Seq<usize>,
    member: usize,
    backends: Seq<BackendValue>,
    n: nat,
)
    requires
        n <= members.len(),
    ensures
        healthy_of(members.push(member), backends, n) == healthy_of(members, backends, n),
        sessions_of(members.push(member), backends, n) == sessions_of(members, backends, n),
    decreases n,
{
    if n > 0 {
        lemma_part_of_members(members, member, backends, (n - 1) as nat);
    }
}

/// A target stands for the backends that are named as its members, in their
/// order, with their weights, and nobody has been selected yet.
pub proof fn targets_know_their_members(
    config: Config,
    backends: Seq<BackendValue>,
    name: Seq<char>,
    i: int,
)
    requires
        backends.len() <= usize::MAX,
        0 <= i < members_for(config, name).len(),
        exists|k: int|
            0 <= k < backends.len() && (#[trigger] backends[k]).name == members_for(
                config,
                name,
            )[i],
    ensures
        ({
            let target = target_for(config, backends, name);
            &&& target.name == name
            &&& target.policy == policy_for(config.groups@, name)
            &&& target.members.len() == members_for(config, name).len()
            &&& target.members[i] < backends.len()
            &&& backends[target.members[i] as int].name == members_for(config, name)[i]
            &&& target.weights[i] == backends[target.members[i] as int].weight
            &&& target.cursor == 0
        }),
{
    let member = members_for(config, name)[i];
    let k = choose|k: int| 0 <= k < backends.len() && (#[trigger] backends[k]).name == member;
    lemma_backend_place(backends, member);
    if backend_place(backends, member) == backends.len() {
        assert(backends[k].name != member);
    }
}

/// A route leads to the target that the host leads to, and there is a route
/// wherever that target exists.
pub proof fn routes_lead_to_their_target(
    rules: Seq<RuleValue>,
    default: Option<Seq<char>>,
    targets: Seq<TargetValue>,
    host: Seq<char>,
    listener: Seq<char>,
    at: usize,
    rule: Option<RuleValue>,
)
    ensures
        route_of(rules, default, targets, host, listener) == Some((at, rule)) ==> at < targets.len()
            && leads_to(rules, default, host, listener, targets[at as int].name, rule),
        at < targets.len() && leads_to(
            rules,
            default,
            host,
            listener,
            targets[at as int].name,
            rule,
        ) && (forall|j: int| 0 <= j < at ==> (#[trigger] targets[j]).name != targets[at as int].name)
            ==> route_of(rules, default, targets, host, listener) == Some((at, rule)),
        (forall|j: int|
            0 <= j < targets.len() ==> !leads_to(
                rules,
                default,
                host,
                listener,
                (#[trigger] targets[j]).name,
                rule,
            )) && route_of(rules, default, targets, host, listener) is Some ==> route_of(
            rules,
            default,
            targets,
            host,
            listener,
        )->Some_0.1 != rule,
{
    let route = route_of(rules, default, targets, host, listener);
    if route is Some {
        assert(routes_to(rules, default, targets, host, listener, route->Some_0));
    }
    if routes_to(rules, default, targets, host, listener, (at, rule)) {
        lemma_one_route_of(rules, default, targets, host, listener, (at, rule));
    }
}

/// A number of sessions is told where it fits.
pub proof fn sessions_are_told_where_they_fit(n: nat)
    ensures
        n <= usize::MAX ==> fitting(n) == Some(n as usize),
        n > usize::MAX ==> fitting(n) is None,
{
}

} // verus!
