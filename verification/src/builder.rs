//! Building a fresh connection pool from one pool's configuration: shards in
//! ascending key order, addresses with dense identifiers, replica ordinals,
//! and slot-pool descriptors with the configured bounds.

use vstd::prelude::*;

use crate::config::GeneralConfig;
use crate::config::DefaultRole;
use crate::config::PoolConfig;
use crate::config::PoolConfigV;
use crate::config::Role;
use crate::config::ServerConfigV;
use crate::config::ShardConfigV;
use crate::config::User;
use crate::config::UserV;
use crate::pool::addr_view;
use crate::pool::ban_view;
use crate::pool::replicas_before;
use crate::pool::roles_of;
use crate::pool::slot_view;
use crate::pool::total_servers;
use crate::pool::Address;
use crate::pool::AddressV;
use crate::pool::ConnectionPool;
use crate::pool::ConnectionPoolV;
use crate::pool::PoolSettings;
use crate::pool::PoolSettingsV;
use crate::pool::SlotPool;
use crate::pool::State;

verus! {

/// Index of the shard entry carrying key `k`.
pub open spec fn shard_key_index(cfg: PoolConfigV, k: int) -> int {
    choose|j: int| 0 <= j < cfg.shards.len() && cfg.shards[j].key == k
}

/// The configured shard whose numeric key is `k`; canonical shard `k` of the
/// built pool.
pub open spec fn shard_at(cfg: PoolConfigV, k: int) -> ShardConfigV {
    cfg.shards[shard_key_index(cfg, k)].shard
}

/// In a well-formed configuration the entry carrying key `k` is unique, so
/// any found index pins `shard_at` down.
pub proof fn lemma_shard_at_unique(cfg: PoolConfigV, k: int, j: int)
    requires
        cfg.wf(),
        0 <= j < cfg.shards.len(),
        cfg.shards[j].key == k,
    ensures
        shard_key_index(cfg, k) == j,
        shard_at(cfg, k) == cfg.shards[j].shard,
{
    assert(0 <= j < cfg.shards.len() && cfg.shards[j].key == k);
    let jj = shard_key_index(cfg, k);
    assert(0 <= jj < cfg.shards.len() && cfg.shards[jj].key == k);
    if jj != j {
        if jj < j {
            assert(cfg.shards[jj].key != cfg.shards[j].key);
        } else {
            assert(cfg.shards[j].key != cfg.shards[jj].key);
        }
    }
}

/// Total number of configured servers over canonical shards `0..k`.
pub open spec fn total_by_key(cfg: PoolConfigV, k: int) -> int
    decreases k,
{
    if k <= 0 {
        0
    } else {
        total_by_key(cfg, k - 1) + shard_at(cfg, k - 1).servers.len()
    }
}

pub proof fn lemma_total_by_key_monotone(cfg: PoolConfigV, k1: int, k2: int)
    requires
        0 <= k1 <= k2,
    ensures
        total_by_key(cfg, k1) <= total_by_key(cfg, k2),
    decreases k2 - k1,
{
    if k1 < k2 {
        lemma_total_by_key_monotone(cfg, k1, k2 - 1);
    }
}

/// Total number of servers one pool configuration asks for.
pub open spec fn pool_capacity(cfg: PoolConfigV) -> int {
    total_by_key(cfg, cfg.shards.len() as int)
}

pub proof fn lemma_pool_capacity_nonneg(cfg: PoolConfigV)
    ensures
        pool_capacity(cfg) >= 0,
{
    lemma_total_by_key_monotone(cfg, 0, cfg.shards.len() as int);
}

/// Roles of a configured server list, in order.
pub open spec fn server_roles(servers: Seq<ServerConfigV>) -> Seq<Role> {
    servers.map_values(|sc: ServerConfigV| sc.role)
}

/// The pool-level timeout override, or the general default.
pub open spec fn timeout_or(o: Option<u64>, general: u64) -> u64 {
    match o {
        Some(t) => t,
        None => general,
    }
}

/// The concrete role a configured default role denotes, if any.
pub open spec fn role_of_default(d: DefaultRole) -> Option<Role> {
    match d {
        DefaultRole::Any => None,
        DefaultRole::Primary => Some(Role::Primary),
        DefaultRole::Replica => Some(Role::Replica),
    }
}

/// The settings a fresh pool is given.
pub open spec fn settings_of(cfg: PoolConfigV, g: GeneralConfig, u: UserV) -> PoolSettingsV {
    PoolSettingsV {
        pool_mode: cfg.pool_mode,
        load_balancing_mode: cfg.load_balancing_mode,
        shards: cfg.shards.len() as usize,
        user: u,
        default_role: role_of_default(cfg.default_role),
        query_parser_enabled: cfg.query_parser_enabled,
        primary_reads_enabled: cfg.primary_reads_enabled,
        sharding_function: cfg.sharding_function,
        automatic_sharding_key: cfg.automatic_sharding_key,
        healthcheck_timeout: g.healthcheck_timeout,
        healthcheck_delay: g.healthcheck_delay,
        ban_time: g.ban_time,
    }
}

/// The address a fresh pool holds at canonical shard `s`, position `i`.
pub open spec fn addr_matches(
    a: AddressV,
    name: Seq<char>,
    u: UserV,
    cfg: PoolConfigV,
    ab: int,
    s: int,
    i: int,
) -> bool {
    let sh = shard_at(cfg, s);
    &&& a.id as int == ab + total_by_key(cfg, s) + i
    &&& a.pool_name == name
    &&& a.username == u.username
    &&& a.database == sh.database
    &&& a.host == sh.servers[i].host
    &&& a.port == sh.servers[i].port
    &&& a.role == sh.servers[i].role
    &&& a.shard as int == s
    &&& a.address_index as int == i
    &&& a.replica_number as int == replicas_before(server_roles(sh.servers), i)
}

/// The slot-pool descriptor a fresh pool holds at shard `s`, position `i`.
pub open spec fn slot_matches(
    p: SlotPool,
    u: UserV,
    cfg: PoolConfigV,
    g: GeneralConfig,
    sb: int,
    s: int,
    i: int,
) -> bool {
    &&& p.slot_id as int == sb + total_by_key(cfg, s) + i
    &&& p.max_size == u.pool_size
    &&& p.connect_timeout == timeout_or(cfg.connect_timeout, g.connect_timeout)
    &&& p.idle_timeout == timeout_or(cfg.idle_timeout, g.idle_timeout)
    &&& p.state == (State { connections: 0, idle_connections: 0 })
}

/// The first `s` canonical shards of the three tables are built from the
/// configuration: address identifiers run densely from `ab`, slot identifiers
/// from `sb`, and no endpoint is banned.
pub open spec fn rows_built(
    av: Seq<Seq<AddressV>>,
    dv: Seq<Seq<SlotPool>>,
    bv: Seq<Seq<Option<i64>>>,
    name: Seq<char>,
    u: UserV,
    cfg: PoolConfigV,
    g: GeneralConfig,
    ab: int,
    sb: int,
    s: int,
) -> bool {
    &&& av.len() == s
    &&& dv.len() == s
    &&& bv.len() == s
    &&& forall|s2: int|
        0 <= s2 < s ==> (#[trigger] av[s2]).len() == shard_at(cfg, s2).servers.len()
    &&& forall|s2: int|
        0 <= s2 < s ==> (#[trigger] dv[s2]).len() == shard_at(cfg, s2).servers.len()
    &&& forall|s2: int|
        0 <= s2 < s ==> (#[trigger] bv[s2]).len() == shard_at(cfg, s2).servers.len()
    &&& forall|s2: int, i: int|
        0 <= s2 < s && 0 <= i < av[s2].len() ==> addr_matches(
            #[trigger] av[s2][i],
            name,
            u,
            cfg,
            ab,
            s2,
            i,
        )
    &&& forall|s2: int, i: int|
        0 <= s2 < s && 0 <= i < dv[s2].len() ==> slot_matches(
            #[trigger] dv[s2][i],
            u,
            cfg,
            g,
            sb,
            s2,
            i,
        )
    &&& forall|s2: int, i: int|
        0 <= s2 < s && 0 <= i < bv[s2].len() ==> (#[trigger] bv[s2][i]) is None
}

/// A whole pool freshly built from one configuration.
pub open spec fn built_from(
    p: ConnectionPoolV,
    name: Seq<char>,
    u: UserV,
    cfg: PoolConfigV,
    g: GeneralConfig,
    ab: int,
    sb: int,
) -> bool {
    &&& rows_built(
        p.addresses,
        p.databases,
        p.banlist,
        name,
        u,
        cfg,
        g,
        ab,
        sb,
        cfg.shards.len() as int,
    )
    &&& p.server_info == Seq::<u8>::empty()
    &&& p.settings == settings_of(cfg, g, u)
}

proof fn lemma_totals_eq(av: Seq<Seq<AddressV>>, cfg: PoolConfigV, s: int)
    requires
        0 <= s <= av.len(),
        forall|s2: int|
            0 <= s2 < av.len() ==> (#[trigger] av[s2]).len() == shard_at(cfg, s2).servers.len(),
    ensures
        total_servers(av, s) == total_by_key(cfg, s),
    decreases s,
{
    if s > 0 {
        lemma_totals_eq(av, cfg, s - 1);
    }
}

/// A pool built from a well-formed configuration satisfies the pool
/// invariant.
pub proof fn lemma_built_wf(
    p: ConnectionPoolV,
    name: Seq<char>,
    u: UserV,
    cfg: PoolConfigV,
    g: GeneralConfig,
    ab: int,
    sb: int,
)
    requires
        cfg.wf(),
        built_from(p, name, u, cfg, g, ab, sb),
        0 <= ab,
        cfg.shards.len() <= usize::MAX,
        ab + total_by_key(cfg, cfg.shards.len() as int) <= usize::MAX,
    ensures
        p.wf(),
{
    let n = cfg.shards.len() as int;
    lemma_totals_eq(p.addresses, cfg, n);
    assert(p.settings.shards as int == p.addresses.len());
    assert forall|s: int, i: int|
        0 <= s < p.addresses.len() && 0 <= i < p.addresses[s].len() implies {
        let a = #[trigger] p.addresses[s][i];
        &&& a.shard == s
        &&& a.address_index == i
        &&& a.replica_number == replicas_before(roles_of(p.addresses[s]), i)
    } by {
        let a = p.addresses[s][i];
        assert(addr_matches(a, name, u, cfg, ab, s, i));
        assert(roles_of(p.addresses[s]) =~= server_roles(shard_at(cfg, s).servers)) by {
            assert forall|k: int| 0 <= k < p.addresses[s].len() implies roles_of(p.addresses[s])[k]
                == server_roles(shard_at(cfg, s).servers)[k] by {
                assert(addr_matches(p.addresses[s][k], name, u, cfg, ab, s, k));
            }
        }
    }
}

/// Find the shard entry carrying a numeric key.
fn find_shard(cfg: &PoolConfig, key: usize) -> (j: usize)
    requires
        cfg@.wf(),
        (key as int) < cfg@.shards.len(),
    ensures
        (j as int) < cfg@.shards.len(),
        cfg@.shards[j as int].key == key as u64,
{
    let n = cfg.shards.len();
    let mut j: usize = 0;
    while j < n
        invariant
            cfg@.wf(),
            n == cfg@.shards.len(),
            (key as int) < n,
            0 <= j <= n,
            forall|k: int| 0 <= k < j ==> (#[trigger] cfg@.shards[k]).key != key as u64,
        decreases n - j,
    {
        if cfg.shards[j].key == key as u64 {
            return j;
        }
        j += 1;
    }
    proof {
        assert(cfg@.has_shard_key(key as int));
        let jj = choose|jj: int|
            0 <= jj < cfg@.shards.len() && (#[trigger] cfg@.shards[jj]).key == key as int;
        assert(cfg@.shards[jj].key == key as u64);
        assert(false);
    }
    unreached()
}

fn copy_option_string(o: &Option<String>) -> (r: Option<String>)
    ensures
        (match (o, &r) {
            (Some(a), Some(b)) => a@ == b@,
            (None, None) => true,
            _ => false,
        }),
{
    match o {
        Some(s) => Some(s.clone()),
        None => None,
    }
}

/// Build a fresh connection pool for one `(pool name, user)` pair.
///
/// Shards are laid out in ascending order of their configured numeric keys;
/// within a shard, servers keep their configured order. Address identifiers
/// are drawn densely from `address_id`, slot identifiers from `next_slot_id`.
/// The pool starts with nobody banned, zeroed slot counters, and an empty
/// server greeting; `validate` fills the greeting in.
pub fn build_pool(
    pool_name: &String,
    user: &User,
    cfg: &PoolConfig,
    general: &GeneralConfig,
    address_id: &mut usize,
    next_slot_id: &mut u64,
) -> (p: ConnectionPool)
    requires
        cfg@.wf(),
        *old(address_id) + total_by_key(cfg@, cfg@.shards.len() as int) <= usize::MAX,
        *old(next_slot_id) + total_by_key(cfg@, cfg@.shards.len() as int) <= u64::MAX,
    ensures
        p@.wf(),
        built_from(
            p@,
            pool_name@,
            user@,
            cfg@,
            *general,
            *old(address_id) as int,
            *old(next_slot_id) as int,
        ),
        *final(address_id) == *old(address_id) + total_by_key(cfg@, cfg@.shards.len() as int),
        *final(next_slot_id) == *old(next_slot_id) + total_by_key(cfg@, cfg@.shards.len() as int),
{
    let ghost ab = *address_id as int;
    let ghost sb = *next_slot_id as int;
    let n = cfg.shards.len();
    let connect_timeout: u64 = match cfg.connect_timeout {
        Some(t) => t,
        None => general.connect_timeout,
    };
    let idle_timeout: u64 = match cfg.idle_timeout {
        Some(t) => t,
        None => general.idle_timeout,
    };
    let mut databases: Vec<Vec<SlotPool>> = Vec::new();
    let mut addresses: Vec<Vec<Address>> = Vec::new();
    let mut banlist: Vec<Vec<Option<i64>>> = Vec::new();
    let mut s: usize = 0;
    while s < n
        invariant
            cfg@.wf(),
            n == cfg@.shards.len(),
            0 <= s <= n,
            ab + total_by_key(cfg@, n as int) <= usize::MAX,
            sb + total_by_key(cfg@, n as int) <= u64::MAX,
            0 <= ab,
            0 <= sb,
            *address_id == ab + total_by_key(cfg@, s as int),
            *next_slot_id == sb + total_by_key(cfg@, s as int),
            connect_timeout == timeout_or(cfg@.connect_timeout, general.connect_timeout),
            idle_timeout == timeout_or(cfg@.idle_timeout, general.idle_timeout),
            rows_built(
                addr_view(addresses@),
                slot_view(databases@),
                ban_view(banlist@),
                pool_name@,
                user@,
                cfg@,
                *general,
                ab,
                sb,
                s as int,
            ),
        decreases n - s,
    {
        proof {
            lemma_total_by_key_monotone(cfg@, s as int + 1, n as int);
        }
        let j = find_shard(cfg, s);
        proof {
            lemma_shard_at_unique(cfg@, s as int, j as int);
        }
        let m = cfg.shards[j].shard.servers.len();
        proof {
            assert(cfg@.shards[j as int].shard == cfg.shards@[j as int].shard@);
            assert(m == shard_at(cfg@, s as int).servers.len());
        }
        let mut pools: Vec<SlotPool> = Vec::new();
        let mut servers: Vec<Address> = Vec::new();
        let mut brow: Vec<Option<i64>> = Vec::new();
        let mut replica_number: usize = 0;
        let mut i: usize = 0;
        while i < m
            invariant
                cfg@.wf(),
                n == cfg@.shards.len(),
                0 <= s < n,
                (j as int) < cfg@.shards.len(),
                cfg@.shards[j as int].shard == shard_at(cfg@, s as int),
                m == shard_at(cfg@, s as int).servers.len(),
                total_by_key(cfg@, s as int) + m == total_by_key(cfg@, s as int + 1),
                total_by_key(cfg@, s as int + 1) <= total_by_key(cfg@, n as int),
                ab + total_by_key(cfg@, n as int) <= usize::MAX,
                sb + total_by_key(cfg@, n as int) <= u64::MAX,
                0 <= ab,
                0 <= sb,
                0 <= i <= m,
                *address_id == ab + total_by_key(cfg@, s as int) + i,
                *next_slot_id == sb + total_by_key(cfg@, s as int) + i,
                connect_timeout == timeout_or(cfg@.connect_timeout, general.connect_timeout),
                idle_timeout == timeout_or(cfg@.idle_timeout, general.idle_timeout),
                pools@.len() == i,
                servers@.len() == i,
                brow@.len() == i,
                replica_number <= i,
                replica_number as int == replicas_before(
                    server_roles(shard_at(cfg@, s as int).servers),
                    i as int,
                ),
                forall|k: int|
                    0 <= k < i ==> addr_matches(
                        #[trigger] servers@[k]@,
                        pool_name@,
                        user@,
                        cfg@,
                        ab,
                        s as int,
                        k,
                    ),
                forall|k: int|
                    0 <= k < i ==> slot_matches(
                        #[trigger] pools@[k],
                        user@,
                        cfg@,
                        *general,
                        sb,
                        s as int,
                        k,
                    ),
                forall|k: int| 0 <= k < i ==> (#[trigger] brow@[k]) is None,
            decreases m - i,
        {
            let sc = &cfg.shards[j].shard.servers[i];
            proof {
                assert(sc@ == shard_at(cfg@, s as int).servers[i as int]);
            }
            let address = Address {
                id: *address_id,
                pool_name: pool_name.clone(),
                username: user.username.clone(),
                database: cfg.shards[j].shard.database.clone(),
                host: sc.host.clone(),
                port: sc.port,
                role: sc.role,
                shard: s,
                address_index: i,
                replica_number,
            };
            let slot = SlotPool {
                slot_id: *next_slot_id,
                max_size: user.pool_size,
                connect_timeout,
                idle_timeout,
                state: State { connections: 0, idle_connections: 0 },
            };
            *address_id += 1;
            *next_slot_id += 1;
            if sc.role == Role::Replica {
                replica_number += 1;
            }
            servers.push(address);
            pools.push(slot);
            brow.push(None);
            i += 1;
        }
        let ghost av_pre = addr_view(addresses@);
        let ghost dv_pre = slot_view(databases@);
        let ghost bv_pre = ban_view(banlist@);
        let ghost row_av = servers@.map_values(|a: Address| a@);
        addresses.push(servers);
        databases.push(pools);
        banlist.push(brow);
        proof {
            assert(addr_view(addresses@) =~= av_pre.push(row_av));
            assert(slot_view(databases@) =~= dv_pre.push(pools@));
            assert(ban_view(banlist@) =~= bv_pre.push(brow@));
            assert forall|k: int| 0 <= k < row_av.len() implies addr_matches(
                #[trigger] row_av[k],
                pool_name@,
                user@,
                cfg@,
                ab,
                s as int,
                k,
            ) by {
                assert(row_av[k] == servers@[k]@);
            }
        }
        s += 1;
    }
    let settings = PoolSettings {
        pool_mode: cfg.pool_mode,
        load_balancing_mode: cfg.load_balancing_mode,
        shards: n,
        user: user.duplicate(),
        default_role: match cfg.default_role {
            DefaultRole::Any => None,
            DefaultRole::Primary => Some(Role::Primary),
            DefaultRole::Replica => Some(Role::Replica),
        },
        query_parser_enabled: cfg.query_parser_enabled,
        primary_reads_enabled: cfg.primary_reads_enabled,
        sharding_function: cfg.sharding_function,
        automatic_sharding_key: copy_option_string(&cfg.automatic_sharding_key),
        healthcheck_timeout: general.healthcheck_timeout,
        healthcheck_delay: general.healthcheck_delay,
        ban_time: general.ban_time,
    };
    proof {
        assert(settings@ == settings_of(cfg@, *general, user@));
    }
    let pool = ConnectionPool::assemble(databases, addresses, banlist, Vec::new(), settings);
    proof {
        assert(pool@.server_info =~= Seq::<u8>::empty());
        lemma_built_wf(pool@, pool_name@, user@, cfg@, *general, ab, sb);
    }
    pool
}

} // verus!
