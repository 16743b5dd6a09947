//! The connection pool proper: addresses, per-endpoint slot pools, the
//! replica ban list and its lazy-unban rules, and the validation step that
//! captures the canonical server greeting.

use vstd::prelude::*;

use crate::config::LoadBalancingMode;
use crate::config::PoolMode;
use crate::config::Role;
use crate::config::ShardingFunction;
use crate::config::User;
use crate::config::UserV;
use crate::outside::now_utc_timestamp;

verus! {

/// Errors surfaced by the pool core.
#[derive(Clone, Copy, Debug, PartialEq, Eq, Structural)]
pub enum Error {
    /// No candidate yielded a usable session, or validation reached nobody.
    AllServersDown,
}

/// Identity of one upstream endpoint within a pool snapshot.
#[derive(Clone, Debug)]
pub struct Address {
    /// Dense integer, unique within the fresh pools of one registry build.
    pub id: usize,
    pub pool_name: String,
    pub username: String,
    pub database: String,
    pub host: String,
    pub port: u16,
    pub role: Role,
    /// Index of the shard this endpoint belongs to.
    pub shard: usize,
    /// Position within the shard's configured server list.
    pub address_index: usize,
    /// Ordinal among the shard's replicas; 0 for the primary.
    pub replica_number: usize,
}

pub ghost struct AddressV {
    pub id: usize,
    pub pool_name: Seq<char>,
    pub username: Seq<char>,
    pub database: Seq<char>,
    pub host: Seq<char>,
    pub port: u16,
    pub role: Role,
    pub shard: usize,
    pub address_index: usize,
    pub replica_number: usize,
}

impl View for Address {
    type V = AddressV;

    open spec fn view(&self) -> AddressV {
        AddressV {
            id: self.id,
            pool_name: self.pool_name@,
            username: self.username@,
            database: self.database@,
            host: self.host@,
            port: self.port,
            role: self.role,
            shard: self.shard,
            address_index: self.address_index,
            replica_number: self.replica_number,
        }
    }
}

/// Snapshot of one slot pool's counters, as last observed.
#[derive(Clone, Copy, Debug, PartialEq, Eq, Structural)]
pub struct State {
    pub connections: u32,
    pub idle_connections: u32,
}

/// Descriptor and observed state of the bounded set of server slots kept for
/// one endpoint. The sessions themselves live outside the core; the driver
/// that owns them reports their counters back through `update_pool_state`.
#[derive(Clone, Copy, Debug, PartialEq, Eq, Structural)]
pub struct SlotPool {
    /// Identity of the underlying warm pool; reused pools keep theirs.
    pub slot_id: u64,
    pub max_size: u32,
    pub connect_timeout: u64,
    pub idle_timeout: u64,
    pub state: State,
}

/// Settings fixed for the lifetime of one pool instance.
#[derive(Clone, Debug)]
pub struct PoolSettings {
    pub pool_mode: PoolMode,
    pub load_balancing_mode: LoadBalancingMode,
    pub shards: usize,
    pub user: User,
    pub default_role: Option<Role>,
    pub query_parser_enabled: bool,
    pub primary_reads_enabled: bool,
    pub sharding_function: ShardingFunction,
    pub automatic_sharding_key: Option<String>,
    pub healthcheck_timeout: u64,
    pub healthcheck_delay: u64,
    pub ban_time: i64,
}

pub ghost struct PoolSettingsV {
    pub pool_mode: PoolMode,
    pub load_balancing_mode: LoadBalancingMode,
    pub shards: usize,
    pub user: UserV,
    pub default_role: Option<Role>,
    pub query_parser_enabled: bool,
    pub primary_reads_enabled: bool,
    pub sharding_function: ShardingFunction,
    pub automatic_sharding_key: Option<Seq<char>>,
    pub healthcheck_timeout: u64,
    pub healthcheck_delay: u64,
    pub ban_time: i64,
}

impl View for PoolSettings {
    type V = PoolSettingsV;

    open spec fn view(&self) -> PoolSettingsV {
        PoolSettingsV {
            pool_mode: self.pool_mode,
            load_balancing_mode: self.load_balancing_mode,
            shards: self.shards,
            user: self.user@,
            default_role: self.default_role,
            query_parser_enabled: self.query_parser_enabled,
            primary_reads_enabled: self.primary_reads_enabled,
            sharding_function: self.sharding_function,
            automatic_sharding_key: match self.automatic_sharding_key {
                Some(ref k) => Some(k@),
                None => None,
            },
            healthcheck_timeout: self.healthcheck_timeout,
            healthcheck_delay: self.healthcheck_delay,
            ban_time: self.ban_time,
        }
    }
}

impl Default for PoolSettings {
    /// Stock settings: one shard, transaction mode, random balancing.
    fn default() -> (r: PoolSettings)
        ensures
            r@.pool_mode == PoolMode::Transaction,
            r@.load_balancing_mode == LoadBalancingMode::Random,
            r@.shards == 1,
            r@.default_role is None,
            !r@.query_parser_enabled,
            r@.primary_reads_enabled,
            r@.sharding_function == ShardingFunction::PgBigintHash,
            r@.automatic_sharding_key is None,
            r@.healthcheck_delay == 30000,
            r@.healthcheck_timeout == 1000,
            r@.ban_time == 60,
    {
        PoolSettings {
            pool_mode: PoolMode::Transaction,
            load_balancing_mode: LoadBalancingMode::Random,
            shards: 1,
            user: User::default(),
            default_role: None,
            query_parser_enabled: false,
            primary_reads_enabled: true,
            sharding_function: ShardingFunction::PgBigintHash,
            automatic_sharding_key: None,
            healthcheck_delay: 30000,
            healthcheck_timeout: 1000,
            ban_time: 60,
        }
    }
}

/// Roles of a row of addresses, in order.
pub open spec fn roles_of(s: Seq<AddressV>) -> Seq<Role> {
    s.map_values(|a: AddressV| a.role)
}

/// Number of replicas among the first `i` roles.
pub open spec fn replicas_before(roles: Seq<Role>, i: int) -> int
    decreases i,
{
    if i <= 0 {
        0
    } else {
        replicas_before(roles, i - 1) + if roles[i - 1] == Role::Replica {
            1int
        } else {
            0int
        }
    }
}

/// Number of ban entries among the first `i` cells of a ban row.
pub open spec fn count_banned(row: Seq<Option<i64>>, i: int) -> int
    decreases i,
{
    if i <= 0 {
        0
    } else {
        count_banned(row, i - 1) + if row[i - 1] is Some {
            1int
        } else {
            0int
        }
    }
}

/// Total number of endpoints over the first `s` shards.
pub open spec fn total_servers(a: Seq<Seq<AddressV>>, s: int) -> int
    decreases s,
{
    if s <= 0 {
        0
    } else {
        total_servers(a, s - 1) + a[s - 1].len()
    }
}

pub proof fn lemma_total_servers_monotone(a: Seq<Seq<AddressV>>, s1: int, s2: int)
    requires
        0 <= s1 <= s2,
    ensures
        total_servers(a, s1) <= total_servers(a, s2),
    decreases s2 - s1,
{
    if s1 < s2 {
        lemma_total_servers_monotone(a, s1, s2 - 1);
    }
}

pub proof fn lemma_count_banned_all_none(row: Seq<Option<i64>>, i: int)
    requires
        0 <= i <= row.len(),
        forall|k: int| 0 <= k < row.len() ==> (#[trigger] row[k]) is None,
    ensures
        count_banned(row, i) == 0,
    decreases i,
{
    if i > 0 {
        lemma_count_banned_all_none(row, i - 1);
    }
}

/// When ban entries stand exactly at the replica positions, the banned count
/// equals the replica count.
pub proof fn lemma_counts_match(row: Seq<Option<i64>>, roles: Seq<Role>, i: int)
    requires
        row.len() == roles.len(),
        0 <= i <= row.len(),
        forall|k: int|
            0 <= k < row.len() ==> ((#[trigger] row[k]) is Some <==> roles[k] == Role::Replica),
    ensures
        count_banned(row, i) == replicas_before(roles, i),
    decreases i,
{
    if i > 0 {
        lemma_counts_match(row, roles, i - 1);
    }
}

/// Mathematical model of one connection pool.
pub ghost struct ConnectionPoolV {
    pub databases: Seq<Seq<SlotPool>>,
    pub addresses: Seq<Seq<AddressV>>,
    pub banlist: Seq<Seq<Option<i64>>>,
    pub server_info: Seq<u8>,
    pub settings: PoolSettingsV,
}

impl ConnectionPoolV {
    /// Structural invariant of every pool snapshot: the three per-shard
    /// tables run in parallel, addresses sit where their fields say, replica
    /// ordinals count the replicas before them, and only replicas carry ban
    /// entries.
    pub open spec fn wf(self) -> bool {
        &&& self.databases.len() == self.addresses.len()
        &&& self.banlist.len() == self.addresses.len()
        &&& self.settings.shards == self.addresses.len()
        &&& total_servers(self.addresses, self.addresses.len() as int) <= usize::MAX
        &&& forall|s: int|
            0 <= s < self.addresses.len() ==> (#[trigger] self.databases[s]).len()
                == self.addresses[s].len()
        &&& forall|s: int|
            0 <= s < self.addresses.len() ==> (#[trigger] self.banlist[s]).len()
                == self.addresses[s].len()
        &&& forall|s: int, i: int|
            0 <= s < self.addresses.len() && 0 <= i < self.addresses[s].len() ==> {
                let a = #[trigger] self.addresses[s][i];
                &&& a.shard == s
                &&& a.address_index == i
                &&& a.replica_number == replicas_before(roles_of(self.addresses[s]), i)
            }
        &&& forall|s: int, i: int|
            0 <= s < self.banlist.len() && 0 <= i < self.banlist[s].len() && (
            #[trigger] self.banlist[s][i]) is Some ==> self.addresses[s][i].role == Role::Replica
    }

    /// The address is one of this pool's endpoints, at its own coordinates.
    pub open spec fn has_address(self, a: AddressV) -> bool {
        &&& (a.shard as int) < self.addresses.len()
        &&& (a.address_index as int) < self.addresses[a.shard as int].len()
        &&& self.addresses[a.shard as int][a.address_index as int] == a
    }

    pub open spec fn banned_spec(self, a: AddressV) -> bool {
        self.banlist[a.shard as int][a.address_index as int] is Some
    }

    pub open spec fn replica_count(self, s: int) -> int {
        replicas_before(roles_of(self.addresses[s]), self.addresses[s].len() as int)
    }

    pub open spec fn banned_count(self, s: int) -> int {
        count_banned(self.banlist[s], self.banlist[s].len() as int)
    }

    pub open spec fn all_replicas_banned(self, s: int) -> bool {
        self.banned_count(s) == self.replica_count(s)
    }

    pub open spec fn with_banlist_row(self, s: int, row: Seq<Option<i64>>) -> ConnectionPoolV {
        ConnectionPoolV {
            databases: self.databases,
            addresses: self.addresses,
            banlist: self.banlist.update(s, row),
            server_info: self.server_info,
            settings: self.settings,
        }
    }

    /// The pool with one ban entry set at time `t`.
    pub open spec fn with_ban(self, s: int, i: int, t: i64) -> ConnectionPoolV {
        self.with_banlist_row(s, self.banlist[s].update(i, Some(t)))
    }

    /// The pool with one ban entry removed.
    pub open spec fn with_unban(self, s: int, i: int) -> ConnectionPoolV {
        self.with_banlist_row(s, self.banlist[s].update(i, None))
    }

    /// The pool with a whole shard's ban list cleared.
    pub open spec fn with_cleared(self, s: int) -> ConnectionPoolV {
        self.with_banlist_row(s, Seq::new(self.banlist[s].len(), |k: int| None))
    }

    /// The pool with one slot pool's observed counters replaced.
    pub open spec fn with_state(self, s: int, i: int, st: State) -> ConnectionPoolV {
        ConnectionPoolV {
            databases: self.databases.update(
                s,
                self.databases[s].update(i, SlotPool { state: st, ..self.databases[s][i] }),
            ),
            addresses: self.addresses,
            banlist: self.banlist,
            server_info: self.server_info,
            settings: self.settings,
        }
    }
}


/// View of a table of address rows.
pub open spec fn addr_view(v: Seq<Vec<Address>>) -> Seq<Seq<AddressV>> {
    v.map_values(|row: Vec<Address>| row@.map_values(|a: Address| a@))
}

/// View of a table of slot-pool rows.
pub open spec fn slot_view(v: Seq<Vec<SlotPool>>) -> Seq<Seq<SlotPool>> {
    v.map_values(|row: Vec<SlotPool>| row@)
}

/// View of a table of ban rows.
pub open spec fn ban_view(v: Seq<Vec<Option<i64>>>) -> Seq<Seq<Option<i64>>> {
    v.map_values(|row: Vec<Option<i64>>| row@)
}

/// A pool of server slots for one (database, user) pair, organized by shard
/// and, inside a shard, by the configured server order.
#[derive(Debug)]
pub struct ConnectionPool {
    databases: Vec<Vec<SlotPool>>,
    addresses: Vec<Vec<Address>>,
    banlist: Vec<Vec<Option<i64>>>,
    server_info: Vec<u8>,
    pub settings: PoolSettings,
}

impl View for ConnectionPool {
    type V = ConnectionPoolV;

    closed spec fn view(&self) -> ConnectionPoolV {
        ConnectionPoolV {
            databases: slot_view(self.databases@),
            addresses: addr_view(self.addresses@),
            banlist: ban_view(self.banlist@),
            server_info: self.server_info@,
            settings: self.settings@,
        }
    }
}

impl ConnectionPool {
    /// Assemble a pool from its parts; the builder calls this.
    pub fn assemble(
        databases: Vec<Vec<SlotPool>>,
        addresses: Vec<Vec<Address>>,
        banlist: Vec<Vec<Option<i64>>>,
        server_info: Vec<u8>,
        settings: PoolSettings,
    ) -> (r: ConnectionPool)
        ensures
            r@ == (ConnectionPoolV {
                databases: slot_view(databases@),
                addresses: addr_view(addresses@),
                banlist: ban_view(banlist@),
                server_info: server_info@,
                settings: settings@,
            }),
    {
        ConnectionPool { databases, addresses, banlist, server_info, settings }
    }

    /// Number of configured shards.
    pub fn shards(&self) -> (r: usize)
        ensures
            r == self@.databases.len(),
    {
        self.databases.len()
    }

    /// Number of servers (primary and replicas) configured for a shard.
    pub fn servers(&self, shard: usize) -> (r: usize)
        requires
            (shard as int) < self@.addresses.len(),
        ensures
            r == self@.addresses[shard as int].len(),
    {
        self.addresses[shard].len()
    }

    /// Total number of servers across all shards.
    pub fn databases(&self) -> (r: usize)
        requires
            self@.wf(),
        ensures
            r == total_servers(self@.addresses, self@.addresses.len() as int),
    {
        let mut total: usize = 0;
        let n = self.shards();
        let mut s: usize = 0;
        while s < n
            invariant
                self@.wf(),
                n == self@.addresses.len(),
                0 <= s <= n,
                total == total_servers(self@.addresses, s as int),
            decreases n - s,
        {
            proof {
                lemma_total_servers_monotone(self@.addresses, s as int + 1, n as int);
            }
            total = total + self.servers(s);
            s += 1;
        }
        total
    }

    /// Observed state of one shard server's slot pool.
    pub fn pool_state(&self, shard: usize, server: usize) -> (r: State)
        requires
            self@.wf(),
            (shard as int) < self@.databases.len(),
            (server as int) < self@.databases[shard as int].len(),
        ensures
            r == self@.databases[shard as int][server as int].state,
    {
        self.databases[shard][server].state
    }

    /// The slot-pool descriptor for one shard server.
    pub fn slot_pool(&self, shard: usize, server: usize) -> (r: SlotPool)
        requires
            self@.wf(),
            (shard as int) < self@.databases.len(),
            (server as int) < self@.databases[shard as int].len(),
        ensures
            r == self@.databases[shard as int][server as int],
    {
        self.databases[shard][server]
    }

    /// Record the counters the driver observed on one slot pool.
    pub fn update_pool_state(&mut self, shard: usize, server: usize, state: State)
        requires
            old(self)@.wf(),
            (shard as int) < old(self)@.databases.len(),
            (server as int) < old(self)@.databases[shard as int].len(),
        ensures
            final(self)@.wf(),
            final(self)@ == old(self)@.with_state(shard as int, server as int, state),
    {
        let slot = self.databases[shard][server];
        self.databases[shard][server] = SlotPool { state, ..slot };
        proof {
            assert(self@.databases =~~= old(self)@.with_state(
                shard as int,
                server as int,
                state,
            ).databases);
            assert(self@ == old(self)@.with_state(shard as int, server as int, state));
        }
    }

    /// Address of one shard server.
    pub fn address(&self, shard: usize, server: usize) -> (r: &Address)
        requires
            (shard as int) < self@.addresses.len(),
            (server as int) < self@.addresses[shard as int].len(),
        ensures
            r@ == self@.addresses[shard as int][server as int],
    {
        &self.addresses[shard][server]
    }

    /// The pool's settings.
    pub fn get_settings(&self) -> (r: &PoolSettings)
        ensures
            r@ == self@.settings,
    {
        &self.settings
    }

    /// The server greeting captured at validation.
    pub fn server_info(&self) -> (r: &Vec<u8>)
        ensures
            r@ == self@.server_info,
    {
        &self.server_info
    }

    /// Busy slots of the endpoint: connections not idle, clamped at zero.
    pub fn busy_connection_count(&self, address: &Address) -> (r: u32)
        requires
            self@.wf(),
            self@.has_address(address@),
        ensures
            ({
                let st =
                    self@.databases[address@.shard as int][address@.address_index as int].state;
                r == if st.idle_connections > st.connections {
                    0u32
                } else {
                    (st.connections - st.idle_connections) as u32
                }
            }),
    {
        let state = self.pool_state(address.shard, address.address_index);
        let idle = state.idle_connections;
        let provisioned = state.connections;
        if idle > provisioned {
            return 0;
        }
        provisioned - idle
    }

    /// Whether the address currently carries a ban entry.
    pub fn is_banned(&self, address: &Address) -> (r: bool)
        requires
            self@.wf(),
            self@.has_address(address@),
        ensures
            r == self@.banned_spec(address@),
    {
        proof {
            assert(self.banlist@.len() == self@.banlist.len());
            assert(self.banlist@[address@.shard as int]@ == self@.banlist[address@.shard as int]);
        }
        self.banlist[address.shard][address.address_index].is_some()
    }

    /// Ban an address at a given timestamp. A primary is never banned: the
    /// call is then a no-op.
    pub fn ban_at(&mut self, address: &Address, now: i64)
        requires
            old(self)@.wf(),
            old(self)@.has_address(address@),
        ensures
            final(self)@.wf(),
            address@.role == Role::Primary ==> final(self)@ == old(self)@,
            address@.role == Role::Replica ==> final(self)@ == old(self)@.with_ban(
                address@.shard as int,
                address@.address_index as int,
                now,
            ),
    {
        if address.role == Role::Primary {
            return ;
        }
        let s = address.shard;
        let i = address.address_index;
        self.banlist[s][i] = Some(now);
        proof {
            let target = old(self)@.with_ban(s as int, i as int, now);
            assert(self@.banlist =~~= target.banlist);
            assert(self@ == target);
        }
    }

    /// Ban an address now. The entry's timestamp is the wall clock at the
    /// time of the call.
    pub fn ban(&mut self, address: &Address, _client_id: i32)
        requires
            old(self)@.wf(),
            old(self)@.has_address(address@),
        ensures
            final(self)@.wf(),
            address@.role == Role::Primary ==> final(self)@ == old(self)@,
            address@.role == Role::Replica ==> exists|t: i64|
                final(self)@ == old(self)@.with_ban(
                    address@.shard as int,
                    address@.address_index as int,
                    t,
                ),
            address@.role == Role::Replica ==> final(self)@.banned_spec(address@),
    {
        let now = now_utc_timestamp();
        self.ban_at(address, now);
        proof {
            if address@.role == Role::Replica {
                assert(self@ == old(self)@.with_ban(
                    address@.shard as int,
                    address@.address_index as int,
                    now,
                ));
            }
        }
    }

    /// Clear one address's ban entry unconditionally.
    pub fn _unban(&mut self, address: &Address)
        requires
            old(self)@.wf(),
            old(self)@.has_address(address@),
        ensures
            final(self)@.wf(),
            final(self)@ == old(self)@.with_unban(address@.shard as int, address@.address_index as int),
    {
        let s = address.shard;
        let i = address.address_index;
        self.banlist[s][i] = None;
        proof {
            let target = old(self)@.with_unban(s as int, i as int);
            assert(self@.banlist =~~= target.banlist);
            assert(self@ == target);
        }
    }

    /// Number of replicas configured in a shard.
    fn count_replicas(&self, shard: usize) -> (r: usize)
        requires
            self@.wf(),
            (shard as int) < self@.addresses.len(),
        ensures
            r == replicas_before(
                roles_of(self@.addresses[shard as int]),
                self@.addresses[shard as int].len() as int,
            ),
    {
        let n = self.addresses[shard].len();
        let mut count: usize = 0;
        let mut i: usize = 0;
        while i < n
            invariant
                self@.wf(),
                (shard as int) < self@.addresses.len(),
                n == self@.addresses[shard as int].len(),
                0 <= i <= n,
                count <= i,
                count == replicas_before(roles_of(self@.addresses[shard as int]), i as int),
            decreases n - i,
        {
            if self.addresses[shard][i].role == Role::Replica {
                count += 1;
            }
            i += 1;
        }
        count
    }

    /// Number of ban entries in a shard's ban list.
    fn count_banned_entries(&self, shard: usize) -> (r: usize)
        requires
            self@.wf(),
            (shard as int) < self@.banlist.len(),
        ensures
            r == self@.banned_count(shard as int),
    {
        let n = self.banlist[shard].len();
        let mut count: usize = 0;
        let mut i: usize = 0;
        while i < n
            invariant
                self@.wf(),
                (shard as int) < self@.banlist.len(),
                n == self@.banlist[shard as int].len(),
                0 <= i <= n,
                count <= i,
                count == count_banned(self@.banlist[shard as int], i as int),
            decreases n - i,
        {
            if self.banlist[shard][i].is_some() {
                count += 1;
            }
            i += 1;
        }
        count
    }

    /// Decide at time `now` whether a banned address may serve again.
    ///
    /// A primary is always admitted. When every replica of the shard is
    /// banned, the whole shard's ban list is cleared and the address is
    /// admitted (bulk self-heal). An address without an entry is admitted. An
    /// entry older than `ban_time` seconds is removed and the address
    /// admitted; a younger entry keeps the address out.
    pub fn try_unban_at(&mut self, address: &Address, now: i64) -> (r: bool)
        requires
            old(self)@.wf(),
            old(self)@.has_address(address@),
        ensures
            final(self)@.wf(),
            address@.role == Role::Primary ==> r && final(self)@ == old(self)@,
            address@.role == Role::Replica && old(self)@.all_replicas_banned(
                address@.shard as int,
            ) ==> r && final(self)@ == old(self)@.with_cleared(address@.shard as int),
            address@.role == Role::Replica && !old(self)@.all_replicas_banned(
                address@.shard as int,
            ) && !old(self)@.banned_spec(address@) ==> r && final(self)@ == old(self)@,
            address@.role == Role::Replica && !old(self)@.all_replicas_banned(
                address@.shard as int,
            ) && old(self)@.banned_spec(address@) ==> {
                let t0 = old(self)@.banlist[address@.shard as int][address@.address_index as int]
                    ->0;
                &&& r == (now - t0 > old(self)@.settings.ban_time)
                &&& (r ==> final(self)@ == old(self)@.with_unban(
                    address@.shard as int,
                    address@.address_index as int,
                ))
                &&& (!r ==> final(self)@ == old(self)@)
            },
    {
        if address.role == Role::Primary {
            return true;
        }
        let shard = address.shard;
        let replicas_available = self.count_replicas(shard);
        let banned = self.count_banned_entries(shard);

        if banned == replicas_available {
            let n = self.banlist[shard].len();
            let mut row: Vec<Option<i64>> = Vec::new();
            let mut k: usize = 0;
            while k < n
                invariant
                    0 <= k <= n,
                    row@.len() == k as int,
                    forall|j: int| 0 <= j < k ==> (#[trigger] row@[j]) is None,
                decreases n - k,
            {
                row.push(None);
                k += 1;
            }
            self.banlist[shard] = row;
            proof {
                let target = old(self)@.with_cleared(shard as int);
                assert(row@ =~= Seq::new(
                    old(self)@.banlist[shard as int].len(),
                    |j: int| None::<i64>,
                ));
                assert(self@.banlist =~~= target.banlist);
                assert(self@ == target);
            }
            return true;
        }

        let idx = address.address_index;
        let expired: bool = match self.banlist[shard][idx] {
            Some(timestamp) => (now as i128) - (timestamp as i128) > (self.settings.ban_time
                as i128),
            None => {
                return true;
            },
        };

        if expired {
            self.banlist[shard][idx] = None;
            proof {
                let target = old(self)@.with_unban(shard as int, idx as int);
                assert(self@.banlist =~~= target.banlist);
                assert(self@ == target);
            }
            true
        } else {
            false
        }
    }

    /// Decide now whether a banned address may serve again; the ban-age test
    /// uses the wall clock at the time of the call.
    pub fn try_unban(&mut self, address: &Address) -> (r: bool)
        requires
            old(self)@.wf(),
            old(self)@.has_address(address@),
        ensures
            final(self)@.wf(),
            address@.role == Role::Primary ==> r && final(self)@ == old(self)@,
            address@.role == Role::Replica && old(self)@.all_replicas_banned(
                address@.shard as int,
            ) ==> r && final(self)@ == old(self)@.with_cleared(address@.shard as int),
            address@.role == Role::Replica && !old(self)@.all_replicas_banned(
                address@.shard as int,
            ) && !old(self)@.banned_spec(address@) ==> r && final(self)@ == old(self)@,
            address@.role == Role::Replica && !old(self)@.all_replicas_banned(
                address@.shard as int,
            ) && old(self)@.banned_spec(address@) ==> {
                &&& (r ==> final(self)@ == old(self)@.with_unban(
                    address@.shard as int,
                    address@.address_index as int,
                ))
                &&& (!r ==> final(self)@ == old(self)@)
            },
            r ==> !final(self)@.banned_spec(address@) || old(self)@.all_replicas_banned(
                address@.shard as int,
            ),
    {
        let now = now_utc_timestamp();
        let r = self.try_unban_at(address, now);
        proof {
            if r && address@.role == Role::Replica {
                if old(self)@.all_replicas_banned(address@.shard as int) {
                } else if old(self)@.banned_spec(address@) {
                    assert(self@ == old(self)@.with_unban(
                        address@.shard as int,
                        address@.address_index as int,
                    ));
                }
            }
        }
        r
    }

    /// Capture the canonical server greeting from per-endpoint probe results,
    /// in shard-then-server order. Succeeds on the first reachable endpoint;
    /// with every endpoint unreachable the pool is left unchanged and
    /// `AllServersDown` comes back.
    pub fn validate(&mut self, infos: &Vec<Vec<Option<Vec<u8>>>>) -> (r: Result<(), Error>)
        requires
            old(self)@.wf(),
            infos.deep_view().len() == old(self)@.addresses.len(),
            forall|s: int|
                0 <= s < old(self)@.addresses.len() ==> (#[trigger] infos.deep_view()[s]).len()
                    == old(self)@.addresses[s].len(),
        ensures
            final(self)@.wf(),
            final(self)@.databases == old(self)@.databases,
            final(self)@.addresses == old(self)@.addresses,
            final(self)@.banlist == old(self)@.banlist,
            final(self)@.settings == old(self)@.settings,
            r is Ok <==> first_info(infos.deep_view(), 0) is Some,
            r is Ok ==> Some(final(self)@.server_info) == first_info(infos.deep_view(), 0),
            r is Err ==> final(self)@ == old(self)@ && r == Result::<(), Error>::Err(
                Error::AllServersDown,
            ),
    {
        let ghost iv = infos.deep_view();
        let shard_count = infos.len();
        let mut s: usize = 0;
        while s < shard_count
            invariant
                old(self)@.wf(),
                self == old(self),
                iv == infos.deep_view(),
                shard_count == iv.len(),
                iv.len() == old(self)@.addresses.len(),
                0 <= s <= shard_count,
                forall|s2: int| 0 <= s2 < s ==> first_in_row(#[trigger] iv[s2], 0) is None,
                first_info(iv, 0) == first_info(iv, s as int),
            decreases shard_count - s,
        {
            let row_len = infos[s].len();
            proof {
                assert(iv[s as int] =~= infos@[s as int].deep_view());
            }
            let mut i: usize = 0;
            while i < row_len
                invariant
                    old(self)@.wf(),
                    self == old(self),
                    iv == infos.deep_view(),
                    (s as int) < iv.len(),
                    shard_count == iv.len(),
                    row_len == iv[s as int].len(),
                    row_len == infos@[s as int]@.len(),
                    iv[s as int] =~= infos@[s as int].deep_view(),
                    first_info(iv, 0) == first_info(iv, s as int),
                    0 <= i <= row_len,
                    forall|k: int| 0 <= k < i ==> (#[trigger] iv[s as int][k]) is None,
                decreases row_len - i,
            {
                proof {
                    assert(iv[s as int][i as int] == (match infos@[s as int]@[i as int] {
                        Some(v) => Some(v.deep_view()),
                        None => None,
                    }));
                }
                match &infos[s][i] {
                    Some(payload) => {
                        let copied = copy_bytes(payload);
                        self.server_info = copied;
                        proof {
                            assert(iv[s as int][i as int] == Some(payload.deep_view()));
                            assert(first_in_row(iv[s as int], i as int) == Some(
                                payload.deep_view(),
                            ));
                            lemma_first_in_row_skip(iv[s as int], i as int);
                            assert(first_info(iv, s as int) == Some(payload.deep_view()));
                            assert(payload.deep_view() =~= payload@);
                            assert(self@.server_info == payload@);
                            assert(self@.databases =~~= old(self)@.databases);
                            assert(self@.addresses =~~= old(self)@.addresses);
                            assert(self@.banlist =~~= old(self)@.banlist);
                        }
                        return Ok(());
                    },
                    None => {},
                }
                i += 1;
            }
            proof {
                lemma_first_in_row_skip(iv[s as int], row_len as int);
                lemma_first_info_skip(iv, s as int);
            }
            s += 1;
        }
        Err(Error::AllServersDown)
    }
}

/// First probe payload in one shard's row, scanning from `i`.
pub open spec fn first_in_row(row: Seq<Option<Seq<u8>>>, i: int) -> Option<Seq<u8>>
    decreases row.len() - i,
{
    if i < 0 || i >= row.len() {
        None
    } else if row[i] is Some {
        row[i]
    } else {
        first_in_row(row, i + 1)
    }
}

/// First probe payload over all shards, scanning from shard `s` onward.
pub open spec fn first_info(iv: Seq<Seq<Option<Seq<u8>>>>, s: int) -> Option<Seq<u8>>
    decreases iv.len() - s,
{
    if s < 0 || s >= iv.len() {
        None
    } else {
        match first_in_row(iv[s], 0) {
            Some(x) => Some(x),
            None => first_info(iv, s + 1),
        }
    }
}

proof fn lemma_first_in_row_skip(row: Seq<Option<Seq<u8>>>, i: int)
    requires
        0 <= i <= row.len(),
        forall|k: int| 0 <= k < i ==> (#[trigger] row[k]) is None,
    ensures
        first_in_row(row, 0) == first_in_row(row, i),
    decreases i,
{
    if i > 0 {
        lemma_first_in_row_skip_step(row, 0, i);
    }
}

proof fn lemma_first_in_row_skip_step(row: Seq<Option<Seq<u8>>>, j: int, i: int)
    requires
        0 <= j <= i <= row.len(),
        forall|k: int| 0 <= k < i ==> (#[trigger] row[k]) is None,
    ensures
        first_in_row(row, j) == first_in_row(row, i),
    decreases i - j,
{
    if j < i {
        lemma_first_in_row_skip_step(row, j + 1, i);
    }
}

proof fn lemma_first_info_skip(iv: Seq<Seq<Option<Seq<u8>>>>, s: int)
    requires
        0 <= s < iv.len(),
        first_in_row(iv[s], 0) is None,
    ensures
        first_info(iv, s) == first_info(iv, s + 1),
{
}

/// Copy a byte payload.
pub fn copy_bytes(src: &Vec<u8>) -> (r: Vec<u8>)
    ensures
        r@ == src@,
{
    let mut out: Vec<u8> = Vec::new();
    let n = src.len();
    let mut i: usize = 0;
    while i < n
        invariant
            n == src@.len(),
            0 <= i <= n,
            out@ =~= src@.take(i as int),
        decreases n - i,
    {
        out.push(src[i]);
        i += 1;
    }
    proof {
        assert(out@ =~= src@);
    }
    out
}

/// A primary endpoint is never banned: under the pool invariant its ban cell
/// is empty at all times.
pub proof fn lemma_primary_never_banned(p: ConnectionPoolV, a: AddressV)
    requires
        p.wf(),
        p.has_address(a),
        a.role == Role::Primary,
    ensures
        !p.banned_spec(a),
{
}

/// The per-shard tables of a well-formed pool run in parallel: as many slot
/// pools as addresses in every shard, and one ban row per shard.
pub proof fn lemma_pool_shapes(p: ConnectionPoolV)
    requires
        p.wf(),
    ensures
        p.databases.len() == p.addresses.len(),
        p.banlist.len() == p.databases.len(),
        forall|s: int|
            0 <= s < p.addresses.len() ==> (#[trigger] p.databases[s]).len()
                == p.addresses[s].len(),
{
}


impl Address {
    /// Field-by-field copy.
    pub fn duplicate(&self) -> (r: Address)
        ensures
            r@ == self@,
    {
        Address {
            id: self.id,
            pool_name: self.pool_name.clone(),
            username: self.username.clone(),
            database: self.database.clone(),
            host: self.host.clone(),
            port: self.port,
            role: self.role,
            shard: self.shard,
            address_index: self.address_index,
            replica_number: self.replica_number,
        }
    }
}

impl PoolSettings {
    /// Field-by-field copy.
    pub fn duplicate(&self) -> (r: PoolSettings)
        ensures
            r@ == self@,
    {
        PoolSettings {
            pool_mode: self.pool_mode,
            load_balancing_mode: self.load_balancing_mode,
            shards: self.shards,
            user: self.user.duplicate(),
            default_role: self.default_role,
            query_parser_enabled: self.query_parser_enabled,
            primary_reads_enabled: self.primary_reads_enabled,
            sharding_function: self.sharding_function,
            automatic_sharding_key: match &self.automatic_sharding_key {
                Some(k) => Some(k.clone()),
                None => None,
            },
            healthcheck_timeout: self.healthcheck_timeout,
            healthcheck_delay: self.healthcheck_delay,
            ban_time: self.ban_time,
        }
    }
}

fn copy_slot_row(src: &Vec<SlotPool>) -> (r: Vec<SlotPool>)
    ensures
        r@ == src@,
{
    let mut out: Vec<SlotPool> = Vec::new();
    let n = src.len();
    let mut i: usize = 0;
    while i < n
        invariant
            n == src@.len(),
            0 <= i <= n,
            out@ =~= src@.take(i as int),
        decreases n - i,
    {
        out.push(src[i]);
        i += 1;
    }
    proof {
        assert(out@ =~= src@);
    }
    out
}

fn copy_ban_row(src: &Vec<Option<i64>>) -> (r: Vec<Option<i64>>)
    ensures
        r@ == src@,
{
    let mut out: Vec<Option<i64>> = Vec::new();
    let n = src.len();
    let mut i: usize = 0;
    while i < n
        invariant
            n == src@.len(),
            0 <= i <= n,
            out@ =~= src@.take(i as int),
        decreases n - i,
    {
        out.push(src[i]);
        i += 1;
    }
    proof {
        assert(out@ =~= src@);
    }
    out
}

fn copy_addr_row(src: &Vec<Address>) -> (r: Vec<Address>)
    ensures
        r@.map_values(|a: Address| a@) == src@.map_values(|a: Address| a@),
{
    let mut out: Vec<Address> = Vec::new();
    let n = src.len();
    let mut i: usize = 0;
    while i < n
        invariant
            n == src@.len(),
            0 <= i <= n,
            out@.len() == i,
            forall|k: int| 0 <= k < i ==> (#[trigger] out@[k])@ == src@[k]@,
        decreases n - i,
    {
        out.push(src[i].duplicate());
        i += 1;
    }
    proof {
        assert(out@.map_values(|a: Address| a@) =~= src@.map_values(|a: Address| a@));
    }
    out
}

impl ConnectionPool {
    /// Copy of the pool with the same mathematical content; reloads use it to
    /// carry an unchanged pool into the next snapshot.
    pub fn duplicate(&self) -> (r: ConnectionPool)
        ensures
            r@ == self@,
    {
        let mut databases: Vec<Vec<SlotPool>> = Vec::new();
        let nd = self.databases.len();
        let mut s: usize = 0;
        while s < nd
            invariant
                nd == self.databases@.len(),
                0 <= s <= nd,
                databases@.len() == s,
                forall|k: int| 0 <= k < s ==> (#[trigger] databases@[k])@ == self.databases@[k]@,
            decreases nd - s,
        {
            databases.push(copy_slot_row(&self.databases[s]));
            s += 1;
        }
        let mut addresses: Vec<Vec<Address>> = Vec::new();
        let na = self.addresses.len();
        let mut s2: usize = 0;
        while s2 < na
            invariant
                na == self.addresses@.len(),
                0 <= s2 <= na,
                addresses@.len() == s2,
                forall|k: int|
                    0 <= k < s2 ==> (#[trigger] addresses@[k])@.map_values(|a: Address| a@)
                        == self.addresses@[k]@.map_values(|a: Address| a@),
            decreases na - s2,
        {
            addresses.push(copy_addr_row(&self.addresses[s2]));
            s2 += 1;
        }
        let mut banlist: Vec<Vec<Option<i64>>> = Vec::new();
        let nb = self.banlist.len();
        let mut s3: usize = 0;
        while s3 < nb
            invariant
                nb == self.banlist@.len(),
                0 <= s3 <= nb,
                banlist@.len() == s3,
                forall|k: int| 0 <= k < s3 ==> (#[trigger] banlist@[k])@ == self.banlist@[k]@,
            decreases nb - s3,
        {
            banlist.push(copy_ban_row(&self.banlist[s3]));
            s3 += 1;
        }
        let r = ConnectionPool {
            databases,
            addresses,
            banlist,
            server_info: copy_bytes(&self.server_info),
            settings: self.settings.duplicate(),
        };
        proof {
            assert(r@.databases =~~= self@.databases);
            assert(r@.addresses =~~= self@.addresses);
            assert(r@.banlist =~~= self@.banlist);
        }
        r
    }
}


/// When every replica of a shard carries a ban entry, the shard counts as
/// fully banned; `try_unban_at` then clears the whole shard's ban list and
/// admits the address, whatever the clock says.
pub proof fn lemma_bulk_unban(p: ConnectionPoolV, s: int)
    requires
        p.wf(),
        0 <= s < p.addresses.len(),
        forall|i: int|
            0 <= i < p.addresses[s].len() && (#[trigger] p.addresses[s][i]).role == Role::Replica
                ==> p.banlist[s][i] is Some,
    ensures
        p.all_replicas_banned(s),
        p.with_cleared(s).banned_count(s) == 0,
{
    assert forall|k: int| 0 <= k < p.banlist[s].len() implies ((#[trigger] p.banlist[s][k]) is Some
        <==> roles_of(p.addresses[s])[k] == Role::Replica) by {
        assert(roles_of(p.addresses[s])[k] == p.addresses[s][k].role);
    }
    lemma_counts_match(p.banlist[s], roles_of(p.addresses[s]), p.banlist[s].len() as int);
    let cleared = p.with_cleared(s);
    lemma_count_banned_all_none(cleared.banlist[s], cleared.banlist[s].len() as int);
}

/// A ban entry stamped `t0` is expired at every instant from
/// `t0 + ban_time + 1` on, so `try_unban_at` then removes it and admits the
/// address.
pub proof fn lemma_ban_expiry(t0: i64, now: i64, ban_time: i64)
    requires
        now >= t0 + ban_time + 1,
    ensures
        now - t0 > ban_time,
{
}

} // verus!


