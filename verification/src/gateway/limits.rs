//! Admission control.
//!
//! Everything here runs before a single Minecraft byte is read, because that is
//! the only place where the cost of an abusive connection is still near zero.
//!
//! The token buckets are `governor`'s: a keyed rate limiter already handles the
//! per-IP state, the refill arithmetic and the garbage collection that an
//! unbounded map of every IP that ever connected would otherwise need.

use std::collections::hash_map::RandomState;

use dashmap::DashMap;
use vstd::prelude::*;

use crate::config::cidr::unmapped;
use crate::config::model::Limits;
use crate::config::net::unmap;
use crate::net::IpAddr;
use crate::time::Duration;

verus! {

// ------------------------------------------------------------------ dashmap --

/// A map of the `dashmap` crate.
#[verifier::external_type_specification]
#[verifier::external_body]
#[verifier::reject_recursive_types(K)]
#[verifier::reject_recursive_types(V)]
#[verifier::reject_recursive_types(S)]
pub struct ExDashMap<K, V, S>(DashMap<K, V, S>);

/// The connection count of each address that a map holds.
pub uninterp spec fn contents(map: DashMap<(u8, u128), usize, RandomState>) -> Map<
    (u8, u128),
    usize,
>;

/// `DashMap::new`: a map that holds nothing.
#[verifier::external_body]
fn new_map() -> (map: DashMap<(u8, u128), usize, RandomState>)
    ensures
        contents(map).dom() == Set::<(u8, u128)>::empty(),
{
    DashMap::new()
}

/// `DashMap::get`: the value under `key`, where there is one.
#[verifier::external_body]
fn map_get(map: &DashMap<(u8, u128), usize, RandomState>, key: (u8, u128)) -> (value: Option<usize>)
    ensures
        value == if contents(*map).contains_key(key) {
            Some(contents(*map)[key])
        } else {
            None
        },
{
    map.get(&key).map(|value| *value)
}

/// `DashMap::insert`: the value under `key` is replaced, or added.
#[verifier::external_body]
fn map_insert(map: &mut DashMap<(u8, u128), usize, RandomState>, key: (u8, u128), value: usize)
    ensures
        contents(*final(map)) == contents(*old(map)).insert(key, value),
{
    map.insert(key, value);
}

/// `DashMap::remove`: there is no value under `key` any more.
#[verifier::external_body]
fn map_remove(map: &mut DashMap<(u8, u128), usize, RandomState>, key: (u8, u128))
    ensures
        contents(*final(map)) == contents(*old(map)).remove(key),
{
    map.remove(&key);
}

/// `DashMap::len`: how many keys the map holds.
#[verifier::external_body]
fn map_len(map: &DashMap<(u8, u128), usize, RandomState>) -> (n: usize)
    ensures
        n == contents(*map).dom().len(),
{
    map.len()
}

// ----------------------------------------------------------------- governor --

/// The token buckets of `governor::RateLimiter`, one per address. Whether a
/// bucket that is in use has a token depends on the time, so nothing is claimed
/// of that.
#[verifier::external_body]
pub struct Buckets {
    limiter: governor::DefaultKeyedRateLimiter<(u8, u128)>,
}

/// The addresses that have a bucket.
pub uninterp spec fn bucket_keys(buckets: Buckets) -> Set<(u8, u128)>;

/// What the buckets were made with: the nanoseconds in which a token comes back,
/// and how many tokens a bucket holds.
pub uninterp spec fn bucket_quota(buckets: Buckets) -> (nat, nat);

/// The longest time in nanoseconds that a whole bucket may take to fill. It
/// leaves `governor`, which counts nanoseconds in 64 bits, more than a century
/// to run.
pub const MAX_REFILL: u64 = 0xC000_0000_0000_0000;

/// `governor::RateLimiter::keyed` with a `Quota` of one token every `replenish`
/// and at most `burst` tokens, which it keeps. No address has a bucket yet.
#[verifier::external_body]
fn new_buckets(replenish: Duration, burst: u32) -> (buckets: Buckets)
    requires
        replenish.wf(),
        replenish@ > 0,
        burst > 0,
        replenish@ * burst <= MAX_REFILL,
    ensures
        bucket_keys(buckets) == Set::<(u8, u128)>::empty(),
        bucket_quota(buckets) == (replenish@, burst as nat),
{
    let period = std::time::Duration::new(replenish.secs, replenish.nanos);
    let burst = std::num::NonZeroU32::new(burst).expect("not zero");
    let quota = governor::Quota::with_period(period).expect("not zero").allow_burst(burst);
    Buckets { limiter: governor::RateLimiter::keyed(quota) }
}

/// `governor::RateLimiter::len`: how many buckets are kept. The crate calls it
/// an estimate, so nothing is claimed of it.
#[verifier::external_body]
fn bucket_count(buckets: &Buckets) -> usize {
    buckets.limiter.len()
}

/// `governor::RateLimiter::retain_recent`: forgets the buckets that are full.
/// Which ones those are depends on the time; none is added.
#[verifier::external_body]
fn forget_full(buckets: &mut Buckets)
    ensures
        bucket_keys(*final(buckets)).subset_of(bucket_keys(*old(buckets))),
        bucket_quota(*final(buckets)) == bucket_quota(*old(buckets)),
{
    buckets.limiter.retain_recent();
}

/// `governor::RateLimiter::check_key`: takes a token out of the bucket of `key`,
/// where it has one. A key without a bucket gets a full one; whether a bucket
/// that is in use has a token depends on the time.
#[verifier::external_body]
fn take_token(buckets: &mut Buckets, key: (u8, u128)) -> (taken: bool)
    ensures
        bucket_keys(*final(buckets)) == bucket_keys(*old(buckets)).insert(key),
        !bucket_keys(*old(buckets)).contains(key) ==> taken,
        bucket_quota(*final(buckets)) == bucket_quota(*old(buckets)),
{
    buckets.limiter.check_key(&key).is_ok()
}

// ------------------------------------------------------------------ policies --

/// Why a connection was refused.
#[derive(Debug, Clone, Copy, PartialEq, Eq, Structural)]
pub enum Rejection {
    /// The gateway is at `limits.max_connections`.
    GlobalLimit,
    /// This IP is at `limits.max_connections_per_ip`.
    PerIpLimit,
    /// This IP emptied its connection-rate bucket.
    RateLimited,
}

impl Rejection {
    /// Metrics label.
    pub fn as_str(self) -> (label: &'static str)
        ensures
            label@ == match self {
                Rejection::GlobalLimit => "global_limit"@,
                Rejection::PerIpLimit => "per_ip_limit"@,
                Rejection::RateLimited => "rate_limited"@,
            },
    {
        match self {
            Rejection::GlobalLimit => "global_limit",
            Rejection::PerIpLimit => "per_ip_limit",
            Rejection::RateLimited => "rate_limited",
        }
    }
}

impl Limits {
    /// Networks and durations are well formed, and a bucket fills in a time that
    /// can be counted.
    pub open spec fn wf(&self) -> bool {
        &&& self.exempt.wf()
        &&& self.connection_rate.per.0.wf()
        &&& self.connection_rate.per.0@ <= MAX_REFILL
    }

    /// Whether the refill time of a bucket can be counted.
    pub fn refill_fits(&self) -> (yes: bool)
        requires
            self.connection_rate.per.0.wf(),
        ensures
            yes == (self.connection_rate.per.0@ <= MAX_REFILL),
    {
        let per = self.connection_rate.per.0;
        per.secs as u128 * 1_000_000_000 + per.nanos as u128 <= MAX_REFILL as u128
    }
}

/// The time between two tokens in nanoseconds, where the rate is limited at all:
/// `burst` connections per `per` are one every `per / burst`.
pub open spec fn replenish_nanos(limits: Limits) -> Option<nat> {
    let rate = limits.connection_rate;
    if rate.disabled() || rate.per.0@ / rate.burst as nat == 0 {
        None
    } else {
        Some(rate.per.0@ / rate.burst as nat)
    }
}

/// The rate that limits ask for: the nanoseconds in which a connection comes
/// back, and how many may come at once; nothing where the rate is not limited.
pub open spec fn rate_of(limits: Limits) -> Option<(nat, nat)> {
    match replenish_nanos(limits) {
        Some(nanos) => Some((nanos, limits.connection_rate.burst as nat)),
        None => None,
    }
}

/// One `n`th of a duration.
fn part_of(d: Duration, n: u32) -> (part: Duration)
    requires
        d.wf(),
        n > 0,
    ensures
        part.wf(),
        part@ == d@ / n as nat,
{
    let total: u128 = d.secs as u128 * 1_000_000_000 + d.nanos as u128;
    assert(total / n as u128 <= total) by (nonlinear_arith)
        requires
            n > 0,
            total >= 0,
    ;
    Duration::from_nanos(total / n as u128)
}

/// The time between two tokens, where the rate is limited at all.
pub fn quota(limits: &Limits) -> (replenish: Option<Duration>)
    requires
        limits.connection_rate.per.0.wf(),
    ensures
        match replenish_nanos(*limits) {
            Some(nanos) => replenish is Some && replenish->Some_0.wf() && replenish->Some_0@
                == nanos,
            None => replenish is None,
        },
{
    if limits.connection_rate.is_disabled() {
        return None;
    }
    let replenish = part_of(limits.connection_rate.per.0, limits.connection_rate.burst);
    if replenish.is_zero() {
        return None;
    }
    Some(replenish)
}

fn buckets_for(limits: &Limits) -> (buckets: Option<Buckets>)
    requires
        limits.wf(),
    ensures
        match rate_of(*limits) {
            Some(rate) => {
                &&& buckets is Some
                &&& bucket_keys(buckets->Some_0) == Set::<(u8, u128)>::empty()
                &&& bucket_quota(buckets->Some_0) == rate
            },
            None => buckets is None,
        },
{
    match quota(limits) {
        Some(replenish) => {
            proof {
                let per = limits.connection_rate.per.0@;
                let burst = limits.connection_rate.burst as nat;
                assert((per / burst) * burst <= per) by (nonlinear_arith)
                    requires
                        burst > 0,
                ;
            }
            Some(new_buckets(replenish, limits.connection_rate.burst))
        },
        None => None,
    }
}

/// How long a rate-limited client would have to wait, for logging.
pub fn retry_hint(limits: &Limits) -> (wait: Duration)
    requires
        limits.connection_rate.per.0.wf(),
    ensures
        wait.wf(),
        wait@ == limits.connection_rate.per.0@ / (if limits.connection_rate.burst == 0 {
            1
        } else {
            limits.connection_rate.burst as nat
        }),
{
    let burst: u32 = if limits.connection_rate.burst == 0 {
        1
    } else {
        limits.connection_rate.burst
    };
    part_of(limits.connection_rate.per.0, burst)
}

// ----------------------------------------------------------------- admission --

/// An address as a key: its family and its bits.
pub open spec fn key_of(ip: IpAddr) -> (u8, u128) {
    match ip {
        IpAddr::V4(bits) => (4, bits as u128),
        IpAddr::V6(bits) => (6, bits),
    }
}

fn to_key(ip: IpAddr) -> (key: (u8, u128))
    ensures
        key == key_of(ip),
{
    match ip {
        IpAddr::V4(bits) => (4, bits as u128),
        IpAddr::V6(bits) => (6, bits),
    }
}

/// Who is connected.
pub ghost struct Occupancy {
    /// Connections in all.
    pub active: nat,
    /// Connections of each address that is counted.
    pub per_ip: Map<(u8, u128), usize>,
}

impl Occupancy {
    /// Connections of one address.
    pub open spec fn count(self, key: (u8, u128)) -> usize {
        if self.per_ip.contains_key(key) {
            self.per_ip[key]
        } else {
            0
        }
    }

    /// Addresses without a connection are not kept.
    pub open spec fn wf(self) -> bool {
        forall|key: (u8, u128)|
            self.per_ip.contains_key(key) ==> #[trigger] self.per_ip[key] > 0
    }
}

/// What is known of a connection before its rate is looked at.
#[derive(Debug, Clone, Copy, PartialEq, Eq, Structural)]
pub enum Gate {
    /// Refused, and the rate is not charged.
    Refused(Rejection),
    /// Admitted without any limit per address.
    Exempt,
    /// Admitted if its rate allows it.
    AskRate,
}

/// What is known of a connection before its rate is looked at. A client sitting
/// at its connection limit is not the same thing as a client connecting too
/// fast, so it is refused before the rate is charged.
pub open spec fn gate_of(limits: Limits, before: Occupancy, ip: IpAddr) -> Gate {
    let ip = unmapped(ip);
    if limits.max_connections != 0 && before.active + 1 > limits.max_connections {
        Gate::Refused(Rejection::GlobalLimit)
    } else if limits.exempt.matches(ip) {
        Gate::Exempt
    } else if limits.max_connections_per_ip != 0 && before.count(key_of(ip))
        >= limits.max_connections_per_ip {
        Gate::Refused(Rejection::PerIpLimit)
    } else {
        Gate::AskRate
    }
}

/// Whether a connection is admitted, given what its rate allows.
pub open spec fn verdict(limits: Limits, before: Occupancy, ip: IpAddr, rate_allows: bool) -> Result<
    (),
    Rejection,
> {
    match gate_of(limits, before, ip) {
        Gate::Refused(rejection) => Err(rejection),
        Gate::Exempt => Ok(()),
        Gate::AskRate => if rate_allows {
            Ok(())
        } else {
            Err(Rejection::RateLimited)
        },
    }
}

/// Whether an admitted connection counts for its address.
pub open spec fn counted(limits: Limits, before: Occupancy, ip: IpAddr) -> bool {
    limits.max_connections_per_ip != 0 && gate_of(limits, before, ip) == Gate::AskRate
}

/// Who is connected after a connection was admitted.
pub open spec fn entered(limits: Limits, before: Occupancy, ip: IpAddr) -> Occupancy {
    let key = key_of(unmapped(ip));
    Occupancy {
        active: before.active + 1,
        per_ip: if counted(limits, before, ip) {
            before.per_ip.insert(key, (before.count(key) + 1) as usize)
        } else {
            before.per_ip
        },
    }
}

/// Who is connected after a connection ended.
pub open spec fn left(before: Occupancy, key: (u8, u128), counted: bool) -> Occupancy {
    Occupancy {
        active: (before.active - 1) as nat,
        per_ip: if !counted || !before.per_ip.contains_key(key) {
            before.per_ip
        } else if before.per_ip[key] <= 1 {
            before.per_ip.remove(key)
        } else {
            before.per_ip.insert(key, (before.per_ip[key] - 1) as usize)
        },
    }
}

/// Holds a connection slot for the lifetime of the connection. It goes back to
/// [`Limiter::release`].
#[derive(Debug, PartialEq, Eq)]
pub struct Permit {
    ip: IpAddr,
    counted_per_ip: bool,
}

impl Permit {
    /// The address, as it is counted.
    pub closed spec fn address(&self) -> IpAddr {
        self.ip
    }

    /// Whether the connection counts for its address.
    pub closed spec fn is_counted(&self) -> bool {
        self.counted_per_ip
    }
}

/// Counts connections and refuses those that are too many.
pub struct Limiter {
    limits: Limits,
    /// `None` when rate limiting is switched off.
    rate: Option<Buckets>,
    active: usize,
    /// Live connection count per IP. Entries are removed as they reach zero, so
    /// this tracks current clients rather than every visitor ever.
    per_ip: DashMap<(u8, u128), usize, RandomState>,
}

/// Number of tracked buckets above which the idle ones are forgotten.
pub const GC_THRESHOLD: usize = 4096;

/// Whether the rate was charged to the client and to nobody else: where it is
/// asked, the client's address is watched afterwards, and no other address is
/// watched that was not before.
pub open spec fn charged_for(before: &Limiter, after: &Limiter, ip: IpAddr) -> bool {
    let key = key_of(unmapped(ip));
    if gate_of(before.limits(), before.occupancy(), ip) == Gate::AskRate && replenish_nanos(
        before.limits(),
    ) is Some {
        after.charged().contains(key) && after.charged().subset_of(before.charged().insert(key))
    } else {
        after.charged() == before.charged()
    }
}

impl Limiter {
    /// The limits in force.
    pub closed spec fn limits(&self) -> Limits {
        self.limits
    }

    /// Who is connected.
    pub closed spec fn occupancy(&self) -> Occupancy {
        Occupancy { active: self.active as nat, per_ip: contents(self.per_ip) }
    }

    /// The addresses whose rate is being watched, by their keys.
    pub closed spec fn charged(&self) -> Set<(u8, u128)> {
        match self.rate {
            Some(buckets) => bucket_keys(buckets),
            None => Set::empty(),
        }
    }

    /// The rate in force for each address: the nanoseconds in which a connection
    /// comes back, and how many may come at once.
    pub closed spec fn rate(&self) -> Option<(nat, nat)> {
        match self.rate {
            Some(buckets) => Some(bucket_quota(buckets)),
            None => None,
        }
    }

    /// The limits are well formed, the rate in force is the one that they ask
    /// for, and only connected addresses are kept.
    pub closed spec fn wf(&self) -> bool {
        &&& self.limits.wf()
        &&& self.rate() == rate_of(self.limits)
        &&& self.occupancy().wf()
    }

    /// What a well-formed limiter says of its parts.
    pub proof fn lemma_occupancy(&self)
        requires
            self.wf(),
        ensures
            self.occupancy().wf(),
            self.limits().wf(),
            self.rate() == rate_of(self.limits()),
            replenish_nanos(self.limits()) is None ==> self.charged() == Set::<(u8, u128)>::empty(),
    {
    }

    /// A limiter with nobody connected.
    pub fn new(limits: Limits) -> (limiter: Self)
        requires
            limits.wf(),
        ensures
            limiter.wf(),
            limiter.limits() == limits,
            limiter.occupancy().active == 0,
            limiter.occupancy().per_ip.dom() == Set::<(u8, u128)>::empty(),
            limiter.charged() == Set::<(u8, u128)>::empty(),
            limiter.rate() == rate_of(limits),
    {
        let rate = buckets_for(&limits);
        Limiter { limits, rate, active: 0, per_ip: new_map() }
    }

    /// Applies new limits from a config reload.
    ///
    /// In-flight buckets are reset, since the quota they were built from no
    /// longer exists. Live connection counts are untouched.
    pub fn set_limits(&mut self, limits: Limits)
        requires
            old(self).wf(),
            limits.wf(),
        ensures
            final(self).wf(),
            final(self).limits() == limits,
            final(self).occupancy() == old(self).occupancy(),
            final(self).charged() == Set::<(u8, u128)>::empty(),
            final(self).rate() == rate_of(limits),
    {
        self.rate = buckets_for(&limits);
        self.limits = limits;
    }

    /// Connections in all.
    pub fn active(&self) -> (n: usize)
        ensures
            n == self.occupancy().active,
    {
        self.active
    }

    /// How many addresses are counted.
    pub fn tracked_ips(&self) -> (n: usize)
        ensures
            n == self.occupancy().per_ip.dom().len(),
    {
        map_len(&self.per_ip)
    }

    fn count(&self, key: (u8, u128)) -> (n: usize)
        ensures
            n == self.occupancy().count(key),
    {
        match map_get(&self.per_ip, key) {
            Some(n) => n,
            None => 0,
        }
    }

    /// What is known of a connection before its rate is looked at.
    pub fn gate(&self, ip: IpAddr) -> (gate: Gate)
        requires
            self.wf(),
            self.occupancy().active < usize::MAX,
        ensures
            gate == gate_of(self.limits(), self.occupancy(), ip),
    {
        // Normalise `::ffff:1.2.3.4` so a dual-stack listener does not give the
        // same client two separate budgets.
        let ip = unmap(ip);
        if self.limits.max_connections != 0 && self.active + 1 > self.limits.max_connections {
            return Gate::Refused(Rejection::GlobalLimit);
        }
        if self.limits.exempt.contains(ip) {
            return Gate::Exempt;
        }
        if self.limits.max_connections_per_ip != 0 && self.count(to_key(ip))
            >= self.limits.max_connections_per_ip {
            return Gate::Refused(Rejection::PerIpLimit);
        }
        Gate::AskRate
    }

    /// Admits a connection or explains why not, given what its rate allows.
    pub fn enter(&mut self, ip: IpAddr, rate_allows: bool) -> (r: Result<Permit, Rejection>)
        requires
            old(self).wf(),
            old(self).occupancy().active < usize::MAX,
        ensures
            final(self).wf(),
            final(self).limits() == old(self).limits(),
            final(self).rate() == old(self).rate(),
            final(self).charged() == old(self).charged(),
            match verdict(old(self).limits(), old(self).occupancy(), ip, rate_allows) {
                Ok(()) => {
                    &&& r is Ok
                    &&& r->Ok_0.address() == unmapped(ip)
                    &&& r->Ok_0.is_counted() == counted(
                        old(self).limits(),
                        old(self).occupancy(),
                        ip,
                    )
                    &&& final(self).occupancy() == entered(
                        old(self).limits(),
                        old(self).occupancy(),
                        ip,
                    )
                },
                Err(rejection) => {
                    &&& r == Err::<Permit, Rejection>(rejection)
                    &&& final(self).occupancy() == old(self).occupancy()
                },
            },
    {
        let gate = self.gate(ip);
        let ip = unmap(ip);
        match gate {
            Gate::Refused(rejection) => return Err(rejection),
            Gate::Exempt => {
                self.active = self.active + 1;
                return Ok(Permit { ip, counted_per_ip: false });
            },
            Gate::AskRate => {},
        }
        if !rate_allows {
            return Err(Rejection::RateLimited);
        }
        let ghost before = self.occupancy();
        self.active = self.active + 1;
        if self.limits.max_connections_per_ip == 0 {
            assert(self.occupancy().per_ip == before.per_ip);
            return Ok(Permit { ip, counted_per_ip: false });
        }
        let key = to_key(ip);
        let n: usize = self.count(key);
        map_insert(&mut self.per_ip, key, n + 1);
        Ok(Permit { ip, counted_per_ip: true })
    }

    /// Admits a connection, or explains why not.
    ///
    /// The permit goes back to [`Limiter::release`] when the connection ends; a
    /// refused connection holds nothing. Only a limited rate can refuse a
    /// connection that the counts admit, and then only as
    /// [`Rejection::RateLimited`]. The rate is that of the client's own address,
    /// and an address whose rate is not being watched is within it.
    pub fn admit_connection(&mut self, ip: IpAddr) -> (r: Result<Permit, Rejection>)
        requires
            old(self).wf(),
            old(self).occupancy().active < usize::MAX,
        ensures
            final(self).wf(),
            final(self).limits() == old(self).limits(),
            final(self).rate() == old(self).rate(),
            charged_for(old(self), final(self), ip),
            exists|rate_allows: bool|
                {
                    &&& replenish_nanos(old(self).limits()) is None ==> rate_allows
                    &&& !old(self).charged().contains(key_of(unmapped(ip))) ==> rate_allows
                    &&& match #[trigger] verdict(
                        old(self).limits(),
                        old(self).occupancy(),
                        ip,
                        rate_allows,
                    ) {
                        Ok(()) => {
                            &&& r is Ok
                            &&& r->Ok_0.address() == unmapped(ip)
                            &&& r->Ok_0.is_counted() == counted(
                                old(self).limits(),
                                old(self).occupancy(),
                                ip,
                            )
                            &&& final(self).occupancy() == entered(
                                old(self).limits(),
                                old(self).occupancy(),
                                ip,
                            )
                        },
                        Err(rejection) => {
                            &&& r == Err::<Permit, Rejection>(rejection)
                            &&& final(self).occupancy() == old(self).occupancy()
                        },
                    }
                },
    {
        let mut rate_allows: bool = true;
        if self.gate(ip) == Gate::AskRate {
            if let Some(buckets) = &mut self.rate {
                if bucket_count(buckets) >= GC_THRESHOLD {
                    forget_full(buckets);
                }
                rate_allows = take_token(buckets, to_key(unmap(ip)));
            }
        }
        self.enter(ip, rate_allows)
    }

    /// Gives a connection slot back.
    pub fn release(&mut self, permit: Permit)
        requires
            old(self).wf(),
            old(self).occupancy().active > 0,
        ensures
            final(self).wf(),
            final(self).limits() == old(self).limits(),
            final(self).rate() == old(self).rate(),
            final(self).charged() == old(self).charged(),
            final(self).occupancy() == left(
                old(self).occupancy(),
                key_of(permit.address()),
                permit.is_counted(),
            ),
    {
        let ghost before = self.occupancy();
        self.active = self.active - 1;
        assert(self.occupancy().per_ip == before.per_ip);
        if !permit.counted_per_ip {
            return;
        }
        let key = to_key(permit.ip);
        match map_get(&self.per_ip, key) {
            Some(n) => if n <= 1 {
                map_remove(&mut self.per_ip, key);
            } else {
                map_insert(&mut self.per_ip, key, n - 1);
            },
            None => {},
        }
        assert forall|other: (u8, u128)|
            self.occupancy().per_ip.contains_key(other) implies #[trigger] self.occupancy().per_ip[other]
            > 0 by {
            assert(before.per_ip.contains_key(other));
            assert(before.per_ip[other] > 0);
        }
    }
}

// -------------------------------------------------------------------- laws --

/// A connection that was admitted and has ended leaves everything as it was.
pub proof fn release_undoes_admit(limits: Limits, before: Occupancy, ip: IpAddr)
    requires
        before.wf(),
        verdict(limits, before, ip, true) is Ok,
    ensures
        left(
            entered(limits, before, ip),
            key_of(unmapped(ip)),
            counted(limits, before, ip),
        ) == before,
{
    let after = left(
        entered(limits, before, ip),
        key_of(unmapped(ip)),
        counted(limits, before, ip),
    );
    assert(after.per_ip =~= before.per_ip);
}

/// A limiter that has admitted a connection and got its permit back counts what
/// it counted before: its connections and its addresses.
pub proof fn released_permits_leave_nothing(
    before: &Limiter,
    admitted: &Limiter,
    released: &Limiter,
    permit: Permit,
    ip: IpAddr,
)
    requires
        before.wf(),
        verdict(before.limits(), before.occupancy(), ip, true) is Ok,
        admitted.occupancy() == entered(before.limits(), before.occupancy(), ip),
        permit.address() == unmapped(ip),
        permit.is_counted() == counted(before.limits(), before.occupancy(), ip),
        released.occupancy() == left(
            admitted.occupancy(),
            key_of(permit.address()),
            permit.is_counted(),
        ),
    ensures
        released.occupancy() == before.occupancy(),
{
    before.lemma_occupancy();
    release_undoes_admit(before.limits(), before.occupancy(), ip);
}

/// An IPv4 client has one budget, however its address is written.
pub proof fn mapped_address_shares_the_budget(limits: Limits, before: Occupancy, bits: u32, rate: bool)
    ensures
        ({
            let plain = IpAddr::V4(bits);
            let mapped = IpAddr::V6((0xffff_0000_0000 + bits) as u128);
            &&& verdict(limits, before, plain, rate) == verdict(limits, before, mapped, rate)
            &&& entered(limits, before, plain) == entered(limits, before, mapped)
            &&& key_of(unmapped(plain)) == key_of(unmapped(mapped))
        }),
{
    crate::config::cidr::mapped_is_the_same_address(bits);
}

/// Neither limit is ever exceeded by an admitted connection.
pub proof fn limits_are_never_exceeded(limits: Limits, before: Occupancy, ip: IpAddr, rate: bool)
    requires
        verdict(limits, before, ip, rate) is Ok,
    ensures
        limits.max_connections != 0 ==> entered(limits, before, ip).active
            <= limits.max_connections,
        limits.max_connections_per_ip != 0 && !limits.exempt.matches(unmapped(ip)) ==> entered(
            limits,
            before,
            ip,
        ).count(key_of(unmapped(ip))) <= limits.max_connections_per_ip,
{
}

/// An exempt address is neither counted nor refused for its own connections.
pub proof fn exempt_addresses_are_not_counted(
    limits: Limits,
    before: Occupancy,
    ip: IpAddr,
    rate: bool,
)
    requires
        limits.exempt.matches(unmapped(ip)),
    ensures
        entered(limits, before, ip).per_ip == before.per_ip,
        verdict(limits, before, ip, rate) is Ok || verdict(limits, before, ip, rate) == Err::<
            (),
            Rejection,
        >(Rejection::GlobalLimit),
{
}

/// One client's connections do not count for another.
pub proof fn budgets_are_separate(limits: Limits, before: Occupancy, ip: IpAddr, other: IpAddr)
    requires
        key_of(unmapped(ip)) != key_of(unmapped(other)),
    ensures
        entered(limits, before, ip).count(key_of(unmapped(other))) == before.count(
            key_of(unmapped(other)),
        ),
{
}

/// Every address has a budget of its own: two addresses that are not the same
/// once mapped IPv4 is unmapped are counted under different keys, so while the
/// gateway itself has room, the connections of one change nothing for the
/// other.
pub proof fn addresses_have_their_own_budgets(
    limits: Limits,
    before: Occupancy,
    a: IpAddr,
    b: IpAddr,
    rate: bool,
)
    requires
        unmapped(a) != unmapped(b),
    ensures
        key_of(unmapped(a)) != key_of(unmapped(b)),
        entered(limits, before, a).count(key_of(unmapped(b))) == before.count(
            key_of(unmapped(b)),
        ),
        limits.max_connections == 0 || before.active + 1 < limits.max_connections ==> verdict(
            limits,
            entered(limits, before, a),
            b,
            rate,
        ) == verdict(limits, before, b, rate),
{
}

/// Keys stand for addresses: the same key is the same address.
pub proof fn keys_stand_for_addresses(a: IpAddr, b: IpAddr)
    ensures
        key_of(a) == key_of(b) ==> a == b,
{
}

/// A connection is refused for the whole gateway exactly where as many are open
/// as may be; for its address exactly where, with room in the gateway and no
/// exemption, as many of that address are open as may be; and for its rate
/// exactly where nothing else refuses or exempts it. Zero stands for no limit.
pub proof fn each_refusal_has_its_reason(
    limits: Limits,
    before: Occupancy,
    ip: IpAddr,
    rate: bool,
)
    ensures
        ({
            let answer = verdict(limits, before, ip, rate);
            let open = before.active;
            let own = before.count(key_of(unmapped(ip)));
            let crowded = limits.max_connections > 0 && open >= limits.max_connections;
            let exempt = limits.exempt.matches(unmapped(ip));
            let busy = limits.max_connections_per_ip > 0 && own >= limits.max_connections_per_ip;
            &&& (answer == Err::<(), Rejection>(Rejection::GlobalLimit)) == crowded
            &&& (answer == Err::<(), Rejection>(Rejection::PerIpLimit)) == (!crowded && !exempt
                && busy)
            &&& (answer == Err::<(), Rejection>(Rejection::RateLimited)) == (!crowded && !exempt
                && !busy && !rate)
            &&& (answer is Ok) == (!crowded && (exempt || !busy && rate))
        }),
{
}

/// An admitted connection is one more in all, and one more of its address where
/// addresses are limited and this one is not exempt; every other address keeps
/// its count.
pub proof fn an_admitted_connection_is_counted_once(
    limits: Limits,
    before: Occupancy,
    ip: IpAddr,
    other: IpAddr,
)
    requires
        verdict(limits, before, ip, true) is Ok,
    ensures
        ({
            let after = entered(limits, before, ip);
            let limited = limits.max_connections_per_ip > 0 && !limits.exempt.matches(
                unmapped(ip),
            );
            &&& after.active == before.active + 1
            &&& after.count(key_of(unmapped(other))) == before.count(key_of(unmapped(other))) + (
            if limited && unmapped(other) == unmapped(ip) {
                1int
            } else {
                0
            })
        }),
{
}

/// The rate is the configured one: as many connections at once as the burst, and
/// one more each time the refill time has passed once for each of them. It is
/// not limited where either is zero.
pub proof fn the_rate_is_the_configured_one(limits: Limits)
    ensures
        ({
            let burst = limits.connection_rate.burst as nat;
            let per = limits.connection_rate.per.0@;
            match rate_of(limits) {
                Some((nanos, tokens)) => {
                    &&& tokens == burst
                    &&& nanos > 0
                    &&& nanos * burst <= per < (nanos + 1) * burst
                },
                None => burst == 0 || per < burst,
            }
        }),
{
    let burst = limits.connection_rate.burst as nat;
    let per = limits.connection_rate.per.0@;
    if burst > 0 {
        let nanos = per / burst;
        assert(nanos * burst <= per < (nanos + 1) * burst) by (nonlinear_arith)
            requires
                nanos == per / burst,
                burst > 0,
        ;
        if nanos == 0 {
            assert((nanos + 1) * burst == burst) by (nonlinear_arith)
                requires
                    nanos == 0,
            ;
        } else {
            assert(per >= burst) by (nonlinear_arith)
                requires
                    nanos * burst <= per,
                    nanos >= 1,
            ;
        }
    }
}

/// A connection that ended is one less in all, and one less of its address where
/// it counted for it; every other address keeps its count.
pub proof fn an_ended_connection_is_counted_off(
    before: Occupancy,
    ip: IpAddr,
    other: IpAddr,
    counted: bool,
)
    requires
        before.active > 0,
        before.wf(),
    ensures
        ({
            let after = left(before, key_of(unmapped(ip)), counted);
            let own = before.count(key_of(unmapped(other)));
            &&& after.active == before.active - 1
            &&& after.count(key_of(unmapped(other))) == (if counted && unmapped(other) == unmapped(
                ip,
            ) && own > 0 {
                own - 1
            } else {
                own as int
            })
        }),
{
    assert(key_of(unmapped(ip)) == key_of(unmapped(other)) ==> unmapped(ip) == unmapped(other));
}

/// The rate is charged to the client alone: no other address begins to be
/// watched, and the client's own does where nothing else refused or exempted it.
pub proof fn rates_are_charged_to_the_client_alone(
    before: &Limiter,
    after: &Limiter,
    ip: IpAddr,
    other: IpAddr,
)
    requires
        charged_for(before, after, ip),
        unmapped(other) != unmapped(ip),
    ensures
        after.charged().contains(key_of(unmapped(other))) ==> before.charged().contains(
            key_of(unmapped(other)),
        ),
        rate_of(before.limits()) is Some && verdict(before.limits(), before.occupancy(), ip, false)
            == Err::<(), Rejection>(Rejection::RateLimited) ==> after.charged().contains(
            key_of(unmapped(ip)),
        ),
        verdict(before.limits(), before.occupancy(), ip, false) != Err::<(), Rejection>(
            Rejection::RateLimited,
        ) ==> after.charged() == before.charged(),
{
    assert(key_of(unmapped(other)) != key_of(unmapped(ip)));
}

} // verus!
