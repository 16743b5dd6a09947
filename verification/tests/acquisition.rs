//! Acquisition and ban-list behavior: load balancing, health-check driven
//! bans, lazy unbanning, and the self-healing rules.

use pgpool::acquire::{needs_healthcheck, NextStep};
use pgpool::config::{
    Config, DefaultRole, GeneralConfig, LoadBalancingMode, PoolConfig, PoolEntry, PoolMode, Role,
    ServerConfig, ShardConfig, ShardEntry, ShardingFunction, User,
};
use pgpool::pool::{ConnectionPool, Error, State};
use pgpool::registry::Registry;

fn user(name: &str) -> User {
    User { username: name.to_string(), password: "pw".to_string(), pool_size: 8 }
}

fn server(host: &str, port: u16, role: Role) -> ServerConfig {
    ServerConfig { host: host.to_string(), port, role }
}

fn one_shard_config(lbm: LoadBalancingMode) -> Config {
    let servers = vec![
        server("primary.local", 5432, Role::Primary),
        server("replica-a.local", 5432, Role::Replica),
        server("replica-b.local", 5432, Role::Replica),
    ];
    Config {
        pools: vec![PoolEntry {
            name: "main".to_string(),
            config: PoolConfig {
                users: vec![user("alice")],
                shards: vec![ShardEntry {
                    key: 0,
                    shard: ShardConfig { database: "db0".to_string(), servers },
                }],
                connect_timeout: None,
                idle_timeout: None,
                pool_mode: PoolMode::Transaction,
                load_balancing_mode: lbm,
                default_role: DefaultRole::Any,
                query_parser_enabled: false,
                primary_reads_enabled: true,
                sharding_function: ShardingFunction::PgBigintHash,
                automatic_sharding_key: None,
            },
        }],
        general: GeneralConfig {
            connect_timeout: 5000,
            idle_timeout: 30000,
            healthcheck_delay: 30000,
            healthcheck_timeout: 1000,
            ban_time: 60,
        },
    }
}

fn build_pool(lbm: LoadBalancingMode) -> ConnectionPool {
    let mut reg = Registry::new();
    let mut plan = reg.plan_reload(&one_shard_config(lbm));
    let infos: Vec<Vec<Option<Vec<u8>>>> =
        vec![vec![Some(vec![1]), Some(vec![1]), Some(vec![1])]];
    plan.entries[0].entry.pool.validate(&infos).unwrap();
    plan.entries.remove(0).entry.pool
}

/// What the simulated upstream does when a server is tried.
#[derive(Clone, Copy, PartialEq)]
enum Upstream {
    Healthy,
    CheckoutError,
    FailsHealthcheck,
}

/// Run one whole acquisition the way a driver would: try candidates in
/// order, ban on checkout errors and failed health checks, and stop on the
/// first healthy lease. Health checks run when forced by an unban or when
/// the session looks stale (`stale` says which servers do).
fn drive_acquire(
    pool: &mut ConnectionPool,
    role: Role,
    now: i64,
    upstream: &dyn Fn(usize) -> Upstream,
    stale: bool,
) -> Result<usize, Error> {
    let mut acq = pool.begin_acquire(0, role);
    loop {
        match pool.acquire_step(&mut acq, now) {
            NextStep::Exhausted => return Err(Error::AllServersDown),
            NextStep::Skip => continue,
            NextStep::Attempt { server, force_healthcheck } => {
                if upstream(server) == Upstream::CheckoutError {
                    let addr = pool.address(0, server).duplicate();
                    pool.ban(&addr, 1);
                    continue;
                }
                let elapsed: u128 = if stale { 60001 } else { 1 };
                if !needs_healthcheck(force_healthcheck, elapsed, 30000) {
                    return Ok(server);
                }
                if upstream(server) == Upstream::FailsHealthcheck {
                    // the driver marks the session bad and bans the endpoint
                    let addr = pool.address(0, server).duplicate();
                    pool.ban(&addr, 1);
                    continue;
                }
                return Ok(server);
            },
        }
    }
}

#[test]
fn busy_count_clamps_at_zero() {
    let mut pool = build_pool(LoadBalancingMode::Random);
    pool.update_pool_state(0, 1, State { connections: 5, idle_connections: 2 });
    assert_eq!(pool.busy_connection_count(&pool.address(0, 1).duplicate()), 3);
    // transiently more idle than provisioned: clamped, no panic
    pool.update_pool_state(0, 1, State { connections: 2, idle_connections: 5 });
    assert_eq!(pool.busy_connection_count(&pool.address(0, 1).duplicate()), 0);
}

#[test]
fn needs_healthcheck_formula() {
    assert!(needs_healthcheck(true, 0, 30000));
    assert!(!needs_healthcheck(false, 30000, 30000));
    assert!(needs_healthcheck(false, 30001, 30000));
}

#[test]
fn random_balancing_spreads_over_replicas() {
    let mut pool = build_pool(LoadBalancingMode::Random);
    let mut hits = [0usize; 3];
    for _ in 0..1000 {
        let server = drive_acquire(&mut pool, Role::Replica, 0, &|_| Upstream::Healthy, false)
            .unwrap();
        hits[server] += 1;
    }
    assert_eq!(hits[0], 0); // the primary is never a replica candidate
    assert_eq!(hits[1] + hits[2], 1000);
    assert!(hits[1] >= 450 && hits[1] <= 550, "unbalanced: {:?}", hits);
    assert!(hits[2] >= 450 && hits[2] <= 550, "unbalanced: {:?}", hits);
    assert!(!pool.is_banned(&pool.address(0, 1).duplicate()));
    assert!(!pool.is_banned(&pool.address(0, 2).duplicate()));
}

#[test]
fn least_outstanding_prefers_the_idle_replica() {
    let mut pool = build_pool(LoadBalancingMode::LeastOutstandingConnections);
    // replica at index 1 holds 4 leases; replica at index 2 holds none
    pool.update_pool_state(0, 1, State { connections: 4, idle_connections: 0 });
    pool.update_pool_state(0, 2, State { connections: 4, idle_connections: 4 });
    for _ in 0..10 {
        let server = drive_acquire(&mut pool, Role::Replica, 0, &|_| Upstream::Healthy, false)
            .unwrap();
        assert_eq!(server, 2);
    }
}

#[test]
fn failing_replica_is_banned_and_isolated() {
    let mut pool = build_pool(LoadBalancingMode::Random);
    let a = pool.address(0, 1).duplicate();
    // replica at index 1 fails its health check; sessions look stale so the
    // check runs
    let upstream =
        |s: usize| if s == 1 { Upstream::FailsHealthcheck } else { Upstream::Healthy };
    // every acquisition ends on the healthy replica; as soon as the shuffle
    // tries the failing one first, it is health-checked and banned
    let mut banned = false;
    for _ in 0..200 {
        let server = drive_acquire(&mut pool, Role::Replica, 100, &upstream, true).unwrap();
        assert_eq!(server, 2);
        if pool.is_banned(&a) {
            banned = true;
            break;
        }
    }
    assert!(banned);
    // later acquisitions (fresh sessions) skip the banned replica outright
    for _ in 0..20 {
        let server =
            drive_acquire(&mut pool, Role::Replica, 110, &|_| Upstream::Healthy, false).unwrap();
        assert_eq!(server, 2);
    }
    assert!(pool.is_banned(&a));
}

#[test]
fn checkout_error_bans_the_endpoint() {
    let mut pool = build_pool(LoadBalancingMode::Random);
    let upstream = |s: usize| if s == 1 { Upstream::CheckoutError } else { Upstream::Healthy };
    let mut banned = false;
    for _ in 0..200 {
        let server = drive_acquire(&mut pool, Role::Replica, 0, &upstream, false).unwrap();
        assert_eq!(server, 2);
        if pool.is_banned(&pool.address(0, 1).duplicate()) {
            banned = true;
            break;
        }
    }
    assert!(banned);
}

#[test]
fn ban_expires_after_ban_time() {
    let mut pool = build_pool(LoadBalancingMode::Random);
    let a = pool.address(0, 1).duplicate();
    pool.ban_at(&a, 1000);
    assert!(pool.is_banned(&a));
    // exactly ban_time seconds later: not yet expired
    assert!(!pool.try_unban_at(&a, 1060));
    assert!(pool.is_banned(&a));
    // one second past ban_time: expired and removed
    assert!(pool.try_unban_at(&a, 1061));
    assert!(!pool.is_banned(&a));
}

#[test]
fn all_replicas_banned_clears_the_shard() {
    let mut pool = build_pool(LoadBalancingMode::Random);
    let a = pool.address(0, 1).duplicate();
    let b = pool.address(0, 2).duplicate();
    pool.ban_at(&a, 1000);
    pool.ban_at(&b, 1000);
    assert!(pool.is_banned(&a) && pool.is_banned(&b));
    // even a fresh ban is admitted: the whole shard self-heals at once
    assert!(pool.try_unban_at(&a, 1001));
    assert!(!pool.is_banned(&a));
    assert!(!pool.is_banned(&b));
}

#[test]
fn self_heal_forces_a_health_check() {
    let mut pool = build_pool(LoadBalancingMode::Random);
    let a = pool.address(0, 1).duplicate();
    let b = pool.address(0, 2).duplicate();
    pool.ban_at(&a, 1000);
    pool.ban_at(&b, 1000);
    let mut acq = pool.begin_acquire(0, Role::Replica);
    match pool.acquire_step(&mut acq, 1001) {
        NextStep::Attempt { server, force_healthcheck } => {
            assert!(server == 1 || server == 2);
            assert!(force_healthcheck);
        },
        other => panic!("expected an attempt, got {:?}", other),
    }
    assert!(!pool.is_banned(&a));
    assert!(!pool.is_banned(&b));
}

#[test]
fn primary_is_never_banned() {
    let mut pool = build_pool(LoadBalancingMode::Random);
    let primary = pool.address(0, 0).duplicate();
    pool.ban(&primary, 1);
    assert!(!pool.is_banned(&primary));
    pool.ban_at(&primary, 12345);
    assert!(!pool.is_banned(&primary));
}

#[test]
fn failing_primary_surfaces_all_servers_down() {
    let mut pool = build_pool(LoadBalancingMode::Random);
    // the primary fails its health check; it cannot be banned, and it is the
    // only primary candidate, so the acquisition fails
    let upstream =
        |s: usize| if s == 0 { Upstream::FailsHealthcheck } else { Upstream::Healthy };
    let r = drive_acquire(&mut pool, Role::Primary, 0, &upstream, true);
    assert_eq!(r, Err(Error::AllServersDown));
    assert!(!pool.is_banned(&pool.address(0, 0).duplicate()));
    // and the primary is retried on the very next acquisition
    let r2 = drive_acquire(&mut pool, Role::Primary, 0, &|_| Upstream::Healthy, false);
    assert_eq!(r2, Ok(0));
}

#[test]
fn all_endpoints_down_exhausts_the_candidates() {
    let mut pool = build_pool(LoadBalancingMode::Random);
    let r = drive_acquire(&mut pool, Role::Replica, 0, &|_| Upstream::CheckoutError, false);
    assert_eq!(r, Err(Error::AllServersDown));
    assert!(pool.is_banned(&pool.address(0, 1).duplicate()));
    assert!(pool.is_banned(&pool.address(0, 2).duplicate()));
}

#[test]
fn unban_clears_a_single_entry() {
    let mut pool = build_pool(LoadBalancingMode::Random);
    let a = pool.address(0, 1).duplicate();
    pool.ban_at(&a, 7);
    assert!(pool.is_banned(&a));
    pool._unban(&a);
    assert!(!pool.is_banned(&a));
}
