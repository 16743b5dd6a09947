//! Registry reload behavior: building pools from configuration, canonical
//! shard order, replica numbering, publication, and warm-pool reuse.

use pgpool::config::{
    Config, DefaultRole, GeneralConfig, LoadBalancingMode, PoolConfig, PoolEntry, PoolIdentifier,
    PoolMode, Role, ServerConfig, ShardConfig, ShardEntry, ShardingFunction, User,
};
use pgpool::pool::{ConnectionPool, Error, PoolSettings, State};
use pgpool::registry::Registry;

fn user(name: &str) -> User {
    User { username: name.to_string(), password: "pw".to_string(), pool_size: 8 }
}

fn server(host: &str, port: u16, role: Role) -> ServerConfig {
    ServerConfig { host: host.to_string(), port, role }
}

fn shard_entry(key: u64, db: &str, servers: Vec<ServerConfig>) -> ShardEntry {
    ShardEntry { key, shard: ShardConfig { database: db.to_string(), servers } }
}

fn pool_config(
    users: Vec<User>,
    shards: Vec<ShardEntry>,
    load_balancing_mode: LoadBalancingMode,
) -> PoolConfig {
    PoolConfig {
        users,
        shards,
        connect_timeout: None,
        idle_timeout: None,
        pool_mode: PoolMode::Transaction,
        load_balancing_mode,
        default_role: DefaultRole::Any,
        query_parser_enabled: false,
        primary_reads_enabled: true,
        sharding_function: ShardingFunction::PgBigintHash,
        automatic_sharding_key: None,
    }
}

fn general() -> GeneralConfig {
    GeneralConfig {
        connect_timeout: 5000,
        idle_timeout: 30000,
        healthcheck_delay: 30000,
        healthcheck_timeout: 1000,
        ban_time: 60,
    }
}

fn one_shard_config(name: &str, lbm: LoadBalancingMode) -> Config {
    let servers = vec![
        server("primary.local", 5432, Role::Primary),
        server("replica-a.local", 5432, Role::Replica),
        server("replica-b.local", 5432, Role::Replica),
    ];
    Config {
        pools: vec![PoolEntry {
            name: name.to_string(),
            config: pool_config(vec![user("alice")], vec![shard_entry(0, "db0", servers)], lbm),
        }],
        general: general(),
    }
}

/// Probe every endpoint of every fresh pool successfully and commit.
fn reload(reg: &mut Registry, config: &Config) -> Result<(), Error> {
    let mut plan = reg.plan_reload(config);
    for e in plan.entries.iter_mut() {
        if e.fresh {
            let mut infos: Vec<Vec<Option<Vec<u8>>>> = Vec::new();
            for s in 0..e.entry.pool.shards() {
                let mut row: Vec<Option<Vec<u8>>> = Vec::new();
                for _ in 0..e.entry.pool.servers(s) {
                    row.push(Some(vec![0x4b, 0x01, 0x02]));
                }
                infos.push(row);
            }
            e.entry.pool.validate(&infos)?;
        }
    }
    reg.commit(plan);
    Ok(())
}

#[test]
fn replica_numbering_counts_replicas_only() {
    let mut reg = Registry::new();
    let servers = vec![
        server("p", 5432, Role::Primary),
        server("r1", 5432, Role::Replica),
        server("r2", 5432, Role::Replica),
        server("r3", 5432, Role::Replica),
    ];
    let config = Config {
        pools: vec![PoolEntry {
            name: "sharded".to_string(),
            config: pool_config(
                vec![user("alice")],
                vec![shard_entry(0, "db0", servers)],
                LoadBalancingMode::Random,
            ),
        }],
        general: general(),
    };
    reload(&mut reg, &config).unwrap();
    let pool = reg.get_pool("sharded", "alice").unwrap();
    let numbers: Vec<usize> = (0..4).map(|i| pool.address(0, i).replica_number).collect();
    assert_eq!(numbers, vec![0, 0, 1, 2]);
    assert_eq!(pool.address(0, 0).role, Role::Primary);
    for i in 0..4 {
        assert_eq!(pool.address(0, i).address_index, i);
        assert_eq!(pool.address(0, i).shard, 0);
    }
}

#[test]
fn shards_are_laid_out_in_ascending_key_order() {
    let mut reg = Registry::new();
    // configured out of order: keys 2, 0, 1
    let config = Config {
        pools: vec![PoolEntry {
            name: "sharded".to_string(),
            config: pool_config(
                vec![user("alice")],
                vec![
                    shard_entry(2, "db2", vec![server("h2", 5432, Role::Primary)]),
                    shard_entry(0, "db0", vec![server("h0", 5432, Role::Primary)]),
                    shard_entry(1, "db1", vec![server("h1", 5432, Role::Primary)]),
                ],
                LoadBalancingMode::Random,
            ),
        }],
        general: general(),
    };
    reload(&mut reg, &config).unwrap();
    let pool = reg.get_pool("sharded", "alice").unwrap();
    assert_eq!(pool.shards(), 3);
    assert_eq!(pool.address(0, 0).database, "db0");
    assert_eq!(pool.address(1, 0).database, "db1");
    assert_eq!(pool.address(2, 0).database, "db2");
}

#[test]
fn tables_run_in_parallel() {
    let mut reg = Registry::new();
    let config = one_shard_config("main", LoadBalancingMode::Random);
    reload(&mut reg, &config).unwrap();
    let pool = reg.get_pool("main", "alice").unwrap();
    assert_eq!(pool.shards(), 1);
    assert_eq!(pool.servers(0), 3);
    assert_eq!(pool.databases(), 3);
    // every endpoint has a slot pool with the configured bounds and no ban
    for i in 0..3 {
        let slot = pool.slot_pool(0, i);
        assert_eq!(slot.max_size, 8);
        assert_eq!(slot.connect_timeout, 5000);
        assert_eq!(slot.idle_timeout, 30000);
        assert_eq!(slot.state, State { connections: 0, idle_connections: 0 });
        assert!(!pool.is_banned(pool.address(0, i)));
    }
}

#[test]
fn from_config_publishes_exactly_the_configured_pairs() {
    let mut reg = Registry::new();
    let mut config = one_shard_config("main", LoadBalancingMode::Random);
    config.pools.push(PoolEntry {
        name: "other".to_string(),
        config: pool_config(
            vec![user("alice"), user("bob")],
            vec![shard_entry(0, "otherdb", vec![server("h", 5432, Role::Primary)])],
            LoadBalancingMode::Random,
        ),
    });
    reload(&mut reg, &config).unwrap();
    assert!(reg.get_pool("main", "alice").is_some());
    assert!(reg.get_pool("other", "alice").is_some());
    assert!(reg.get_pool("other", "bob").is_some());
    assert!(reg.get_pool("main", "bob").is_none());
    assert!(reg.get_pool("missing", "alice").is_none());
    assert_eq!(reg.get_all_pools().len(), 3);
    assert_eq!(reg.get_number_of_addresses(), 3 + 1 + 1);
}

#[test]
fn validation_failure_aborts_and_keeps_previous_snapshot() {
    let mut reg = Registry::new();
    let config = one_shard_config("main", LoadBalancingMode::Random);
    reload(&mut reg, &config).unwrap();

    // a second pool whose every endpoint is down
    let mut config2 = config.clone();
    config2.pools.push(PoolEntry {
        name: "down".to_string(),
        config: pool_config(
            vec![user("alice")],
            vec![shard_entry(0, "downdb", vec![server("h", 5432, Role::Primary)])],
            LoadBalancingMode::Random,
        ),
    });
    let mut plan = reg.plan_reload(&config2);
    let mut failed = false;
    for e in plan.entries.iter_mut() {
        if e.fresh {
            let infos: Vec<Vec<Option<Vec<u8>>>> = vec![vec![None]];
            if e.entry.pool.validate(&infos) == Err(Error::AllServersDown) {
                failed = true;
                break;
            }
        }
    }
    assert!(failed);
    // the plan is dropped; the previous snapshot stays live
    assert!(reg.get_pool("main", "alice").is_some());
    assert!(reg.get_pool("down", "alice").is_none());
}

#[test]
fn validate_captures_first_reachable_greeting() {
    let mut reg = Registry::new();
    let config = one_shard_config("main", LoadBalancingMode::Random);
    let mut plan = reg.plan_reload(&config);
    let e = &mut plan.entries[0];
    assert!(e.fresh);
    let infos: Vec<Vec<Option<Vec<u8>>>> =
        vec![vec![None, Some(vec![7, 7, 7]), Some(vec![9, 9])]];
    assert_eq!(e.entry.pool.validate(&infos), Ok(()));
    assert_eq!(e.entry.pool.server_info(), &vec![7u8, 7, 7]);
}

#[test]
fn identical_reload_reuses_every_pool() {
    let mut reg = Registry::new();
    let config = one_shard_config("main", LoadBalancingMode::Random);
    reload(&mut reg, &config).unwrap();
    let ids_before: Vec<u64> =
        (0..3).map(|i| reg.get_pool("main", "alice").unwrap().slot_pool(0, i).slot_id).collect();

    // second reload with the letter-identical configuration
    let plan = reg.plan_reload(&config);
    assert_eq!(plan.entries.len(), 1);
    assert!(!plan.entries[0].fresh);
    reg.commit(plan);

    let ids_after: Vec<u64> =
        (0..3).map(|i| reg.get_pool("main", "alice").unwrap().slot_pool(0, i).slot_id).collect();
    assert_eq!(ids_before, ids_after);
}

#[test]
fn hot_reload_keeps_warm_pools_and_adds_the_new_one() {
    let mut reg = Registry::new();
    let config = one_shard_config("main", LoadBalancingMode::Random);
    reload(&mut reg, &config).unwrap();
    let ids_before: Vec<u64> =
        (0..3).map(|i| reg.get_pool("main", "alice").unwrap().slot_pool(0, i).slot_id).collect();

    let mut config2 = config.clone();
    config2.pools.push(PoolEntry {
        name: "extra".to_string(),
        config: pool_config(
            vec![user("bob")],
            vec![shard_entry(0, "extradb", vec![server("h", 5432, Role::Primary)])],
            LoadBalancingMode::Random,
        ),
    });
    let plan = reg.plan_reload(&config2);
    assert_eq!(plan.entries.len(), 2);
    assert!(!plan.entries[0].fresh);
    assert!(plan.entries[1].fresh);
    reload(&mut reg, &config2).unwrap();

    let ids_after: Vec<u64> =
        (0..3).map(|i| reg.get_pool("main", "alice").unwrap().slot_pool(0, i).slot_id).collect();
    assert_eq!(ids_before, ids_after);
    // the fresh pool's slot identifiers are new ones
    let extra = reg.get_pool("extra", "bob").unwrap();
    assert!(!ids_after.contains(&extra.slot_pool(0, 0).slot_id));
}

#[test]
fn changed_config_builds_a_fresh_pool() {
    let mut reg = Registry::new();
    let config = one_shard_config("main", LoadBalancingMode::Random);
    reload(&mut reg, &config).unwrap();
    let id_before = reg.get_pool("main", "alice").unwrap().slot_pool(0, 0).slot_id;

    let mut config2 = one_shard_config("main", LoadBalancingMode::Random);
    config2.pools[0].config.users[0].pool_size = 16;
    let plan = reg.plan_reload(&config2);
    assert!(plan.entries[0].fresh);
    reload(&mut reg, &config2).unwrap();
    let pool = reg.get_pool("main", "alice").unwrap();
    assert_ne!(pool.slot_pool(0, 0).slot_id, id_before);
    assert_eq!(pool.slot_pool(0, 0).max_size, 16);
}

#[test]
fn pool_config_same_as_is_field_by_field() {
    let a = pool_config(
        vec![user("alice")],
        vec![shard_entry(0, "db0", vec![server("h", 5432, Role::Primary)])],
        LoadBalancingMode::Random,
    );
    let b = a.duplicate();
    assert!(a.same_as(&b));
    let mut c = a.duplicate();
    c.shards[0].shard.servers[0].port = 5433;
    assert!(!a.same_as(&c));
    let mut d = a.duplicate();
    d.users[0].username = "bob".to_string();
    assert!(!a.same_as(&d));
}

#[test]
fn pool_identifier_new_keeps_both_fields() {
    let id = PoolIdentifier::new("db", "user");
    assert_eq!(id.db, "db");
    assert_eq!(id.user, "user");
    assert!(id.same_as(&PoolIdentifier::new("db", "user")));
    assert!(!id.same_as(&PoolIdentifier::new("db", "other")));
}

#[test]
fn settings_defaults() {
    let s = PoolSettings::default();
    assert_eq!(s.pool_mode, PoolMode::Transaction);
    assert_eq!(s.load_balancing_mode, LoadBalancingMode::Random);
    assert_eq!(s.shards, 1);
    assert_eq!(s.default_role, None);
    assert!(!s.query_parser_enabled);
    assert!(s.primary_reads_enabled);
    assert_eq!(s.healthcheck_delay, 30000);
    assert_eq!(s.healthcheck_timeout, 1000);
    assert_eq!(s.ban_time, 60);
}

#[test]
fn settings_come_from_config_and_general() {
    let mut reg = Registry::new();
    let mut config = one_shard_config("main", LoadBalancingMode::LeastOutstandingConnections);
    config.pools[0].config.default_role = DefaultRole::Replica;
    config.pools[0].config.connect_timeout = Some(1234);
    reload(&mut reg, &config).unwrap();
    let pool: &ConnectionPool = reg.get_pool("main", "alice").unwrap();
    let s = pool.get_settings();
    assert_eq!(s.load_balancing_mode, LoadBalancingMode::LeastOutstandingConnections);
    assert_eq!(s.default_role, Some(Role::Replica));
    assert_eq!(s.shards, 1);
    assert_eq!(s.ban_time, 60);
    assert_eq!(pool.slot_pool(0, 0).connect_timeout, 1234);
    assert_eq!(pool.slot_pool(0, 0).idle_timeout, 30000);
}

#[test]
fn empty_config_publishes_nothing() {
    let mut reg = Registry::new();
    assert_eq!(reg.get_number_of_addresses(), 0);
    let config = Config { pools: vec![], general: general() };
    reload(&mut reg, &config).unwrap();
    assert!(reg.get_all_pools().is_empty());
    assert_eq!(reg.get_number_of_addresses(), 0);
    assert!(reg.get_pool("main", "alice").is_none());
}

#[test]
fn reload_can_drop_a_pool() {
    let mut reg = Registry::new();
    let config = one_shard_config("main", LoadBalancingMode::Random);
    reload(&mut reg, &config).unwrap();
    assert!(reg.get_pool("main", "alice").is_some());
    let empty = Config { pools: vec![], general: general() };
    reload(&mut reg, &empty).unwrap();
    assert!(reg.get_pool("main", "alice").is_none());
}
