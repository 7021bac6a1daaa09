//! Admission control.

use mc_gateway::config::duration::HumanDuration;
use mc_gateway::config::model::{Limits, RateLimit};
use mc_gateway::config::net::{IpNet, IpNets};
use mc_gateway::gateway::limits::{quota, retry_hint, Gate, Limiter, Rejection};
use mc_gateway::net::{parse_ip, IpAddr};
use mc_gateway::time::Duration;

fn limits() -> Limits {
    Limits {
        max_connections: 10,
        max_connections_per_ip: 2,
        connection_rate: RateLimit { burst: 3, per: HumanDuration::from_secs(60) },
        max_handshake_bytes: 8192,
        exempt: IpNets::default(),
    }
}

fn unlimited_rate() -> RateLimit {
    RateLimit { burst: 0, per: HumanDuration::from_secs(60) }
}

fn ip(s: &str) -> IpAddr {
    parse_ip(&s.chars().collect::<Vec<char>>()).unwrap()
}

#[test]
fn concurrent_connections_per_ip_are_capped_and_released() {
    let mut limiter = Limiter::new(limits());
    let client = ip("203.0.113.7");

    let first = limiter.admit_connection(client).unwrap();
    let second = limiter.admit_connection(client).unwrap();
    assert_eq!(limiter.admit_connection(client).unwrap_err(), Rejection::PerIpLimit);

    limiter.release(first);
    let third = limiter.admit_connection(client);
    assert!(third.is_ok(), "a closed connection frees the slot");

    limiter.release(second);
    limiter.release(third.unwrap());
    assert_eq!(limiter.active(), 0);
    assert_eq!(limiter.tracked_ips(), 0, "the map shrinks back to live clients");
}

#[test]
fn a_rejected_connection_does_not_leak_a_global_slot() {
    let mut limits = limits();
    // Take the rate limiter out of the picture so the per-IP cap is what
    // rejects.
    limits.connection_rate = unlimited_rate();
    let mut limiter = Limiter::new(limits);
    let client = ip("203.0.113.7");
    let _held: Vec<_> = (0..2).map(|_| limiter.admit_connection(client).unwrap()).collect();

    for _ in 0..50 {
        assert!(limiter.admit_connection(client).is_err());
    }
    assert_eq!(limiter.active(), 2);
}

#[test]
fn the_rate_bucket_empties_and_refills() {
    let mut limits = limits();
    limits.max_connections_per_ip = 0;
    limits.connection_rate = RateLimit { burst: 3, per: HumanDuration::from_millis(300) };
    let mut limiter = Limiter::new(limits);
    let client = ip("203.0.113.7");

    let _burst: Vec<_> = (0..3).map(|_| limiter.admit_connection(client).unwrap()).collect();
    assert_eq!(limiter.admit_connection(client).unwrap_err(), Rejection::RateLimited);

    let started = std::time::Instant::now();
    while started.elapsed() < std::time::Duration::from_millis(150) {
        std::hint::spin_loop();
    }
    assert!(limiter.admit_connection(client).is_ok(), "the bucket refills over time");
}

#[test]
fn different_ips_have_separate_budgets() {
    let mut limiter = Limiter::new(limits());
    let abuser = ip("203.0.113.7");
    let _a: Vec<_> = (0..2).map(|_| limiter.admit_connection(abuser).unwrap()).collect();
    assert!(
        limiter.admit_connection(ip("203.0.113.8")).is_ok(),
        "one abuser must not block others"
    );
}

#[test]
fn v4_mapped_addresses_share_one_budget() {
    let mut limiter = Limiter::new(limits());
    let _a = limiter.admit_connection(ip("203.0.113.7")).unwrap();
    let _b = limiter.admit_connection(ip("::ffff:203.0.113.7")).unwrap();
    assert_eq!(
        limiter.admit_connection(ip("203.0.113.7")).unwrap_err(),
        Rejection::PerIpLimit,
        "the v6-mapped form must not be a second budget"
    );
    assert_eq!(limiter.tracked_ips(), 1);
}

#[test]
fn the_global_limit_applies_across_ips() {
    let mut limits = limits();
    limits.max_connections = 3;
    limits.max_connections_per_ip = 0;
    let mut limiter = Limiter::new(limits);

    let _held: Vec<_> = (0..3)
        .map(|i| limiter.admit_connection(ip(&format!("203.0.113.{i}"))).unwrap())
        .collect();
    assert_eq!(
        limiter.admit_connection(ip("203.0.113.9")).unwrap_err(),
        Rejection::GlobalLimit
    );
}

#[test]
fn exempt_networks_skip_the_per_ip_limits() {
    let mut limits = limits();
    limits.exempt = IpNets(vec![IpNet { addr: ip("10.0.0.0"), prefix: 8 }]);
    // The global limit is about gateway resources and still applies; only
    // the per-IP limits are waived.
    limits.max_connections = 0;
    let mut limiter = Limiter::new(limits);

    let monitor = ip("10.1.2.3");
    let _many: Vec<_> = (0..20).map(|_| limiter.admit_connection(monitor).unwrap()).collect();
    assert_eq!(limiter.tracked_ips(), 0, "exempt IPs are not tracked at all");
}

#[test]
fn a_reload_can_tighten_limits() {
    let mut limiter = Limiter::new(limits());
    let client = ip("203.0.113.7");
    let _first = limiter.admit_connection(client).unwrap();

    let mut tighter = limits();
    tighter.max_connections_per_ip = 1;
    limiter.set_limits(tighter);

    assert_eq!(limiter.admit_connection(client).unwrap_err(), Rejection::PerIpLimit);
}

#[test]
fn a_disabled_rate_limit_admits_freely() {
    let mut limits = limits();
    limits.max_connections = 0;
    limits.max_connections_per_ip = 0;
    limits.connection_rate = unlimited_rate();
    let mut limiter = Limiter::new(limits);

    let client = ip("203.0.113.7");
    let held: Vec<_> = (0..100).map(|_| limiter.admit_connection(client).unwrap()).collect();
    assert_eq!(held.len(), 100);
}

#[test]
fn the_rate_is_asked_last() {
    let mut limiter = Limiter::new(limits());
    let client = ip("203.0.113.7");
    assert_eq!(limiter.gate(client), Gate::AskRate);
    assert_eq!(limiter.enter(client, false).unwrap_err(), Rejection::RateLimited);
    assert_eq!((limiter.active(), limiter.tracked_ips()), (0, 0));
    let permit = limiter.enter(client, true).unwrap();
    let _second = limiter.enter(client, true).unwrap();
    assert_eq!(limiter.gate(client), Gate::Refused(Rejection::PerIpLimit));
    limiter.release(permit);
    assert_eq!((limiter.active(), limiter.tracked_ips()), (1, 1));
    assert_eq!(Rejection::RateLimited.as_str(), "rate_limited");
}

#[test]
fn tokens_come_at_an_even_pace() {
    assert_eq!(quota(&limits()), Some(Duration::from_secs(20)));
    assert_eq!(retry_hint(&limits()), Duration::from_secs(20));
    let mut off = limits();
    off.connection_rate = unlimited_rate();
    assert_eq!(quota(&off), None);
    assert_eq!(retry_hint(&off), Duration::from_secs(60));
    off.connection_rate = RateLimit { burst: 7, per: HumanDuration(Duration { secs: 0, nanos: 6 }) };
    assert_eq!(quota(&off), None, "less than a nanosecond each is no limit");
    assert!(off.refill_fits());
    off.connection_rate.per = HumanDuration::from_secs(u64::MAX);
    assert!(!off.refill_fits());
}
