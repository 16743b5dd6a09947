//! Typed configuration tree consumed by the pool builder, and the identity
//! types shared by every layer: server roles, pool settings, and the
//! `(database, user)` pool identifier.

use vstd::prelude::*;

verus! {

/// Role of one upstream server: the writable primary or a read-only replica.
#[derive(Clone, Copy, Debug, PartialEq, Eq, Structural)]
pub enum Role {
    Primary,
    Replica,
}

/// Pooling mode: release a server per transaction or per session.
#[derive(Clone, Copy, Debug, PartialEq, Eq, Structural)]
pub enum PoolMode {
    Transaction,
    Session,
}

/// How candidates are ordered during acquisition.
#[derive(Clone, Copy, Debug, PartialEq, Eq, Structural)]
pub enum LoadBalancingMode {
    Random,
    LeastOutstandingConnections,
}

/// Tag for the sharding hash function; consumed by the router, carried here.
#[derive(Clone, Copy, Debug, PartialEq, Eq, Structural)]
pub enum ShardingFunction {
    PgBigintHash,
    Sha1,
}

/// Default role a client is routed to when it names none.
#[derive(Clone, Copy, Debug, PartialEq, Eq, Structural)]
pub enum DefaultRole {
    Any,
    Primary,
    Replica,
}

/// Connecting user: credentials plus the per-endpoint slot-pool bound.
#[derive(Clone, Debug)]
pub struct User {
    pub username: String,
    pub password: String,
    pub pool_size: u32,
}

pub ghost struct UserV {
    pub username: Seq<char>,
    pub password: Seq<char>,
    pub pool_size: u32,
}

impl View for User {
    type V = UserV;

    open spec fn view(&self) -> UserV {
        UserV { username: self.username@, password: self.password@, pool_size: self.pool_size }
    }
}

impl User {
    /// Compare two users field by field.
    pub fn same_as(&self, other: &User) -> (r: bool)
        ensures
            r == (self@ == other@),
    {
        self.username == other.username && self.password == other.password && self.pool_size
            == other.pool_size
    }
}

impl Default for User {
    /// Empty credentials and the stock slot-pool bound.
    fn default() -> (r: User)
        ensures
            r@.username.len() == 0,
            r@.password.len() == 0,
            r@.pool_size == 15,
    {
        User { username: String::new(), password: String::new(), pool_size: 15 }
    }
}

/// One configured upstream server inside a shard.
#[derive(Clone, Debug)]
pub struct ServerConfig {
    pub host: String,
    pub port: u16,
    pub role: Role,
}

pub ghost struct ServerConfigV {
    pub host: Seq<char>,
    pub port: u16,
    pub role: Role,
}

impl View for ServerConfig {
    type V = ServerConfigV;

    open spec fn view(&self) -> ServerConfigV {
        ServerConfigV { host: self.host@, port: self.port, role: self.role }
    }
}

impl ServerConfig {
    pub fn same_as(&self, other: &ServerConfig) -> (r: bool)
        ensures
            r == (self@ == other@),
    {
        self.host == other.host && self.port == other.port && self.role == other.role
    }
}

/// One configured shard: its database name and its ordered server list.
#[derive(Clone, Debug)]
pub struct ShardConfig {
    pub database: String,
    pub servers: Vec<ServerConfig>,
}

pub ghost struct ShardConfigV {
    pub database: Seq<char>,
    pub servers: Seq<ServerConfigV>,
}

impl View for ShardConfig {
    type V = ShardConfigV;

    open spec fn view(&self) -> ShardConfigV {
        ShardConfigV {
            database: self.database@,
            servers: self.servers@.map_values(|s: ServerConfig| s@),
        }
    }
}

impl ShardConfig {
    pub fn same_as(&self, other: &ShardConfig) -> (r: bool)
        ensures
            r == (self@ == other@),
    {
        if !(self.database == other.database) {
            return false;
        }
        if self.servers.len() != other.servers.len() {
            assert(self@.servers.len() != other@.servers.len());
            return false;
        }
        let n = self.servers.len();
        let mut i: usize = 0;
        while i < n
            invariant
                n == self.servers.len() == other.servers.len(),
                0 <= i <= n,
                forall|k: int| 0 <= k < i ==> self@.servers[k] == other@.servers[k],
                self@.database == other@.database,
            decreases n - i,
        {
            if !self.servers[i].same_as(&other.servers[i]) {
                assert(self@.servers[i as int] != other@.servers[i as int]);
                return false;
            }
            i += 1;
        }
        assert(self@.servers =~= other@.servers);
        true
    }
}

/// A shard entry as configured: a numeric key and the shard's contents.
#[derive(Clone, Debug)]
pub struct ShardEntry {
    pub key: u64,
    pub shard: ShardConfig,
}

pub ghost struct ShardEntryV {
    pub key: u64,
    pub shard: ShardConfigV,
}

impl View for ShardEntry {
    type V = ShardEntryV;

    open spec fn view(&self) -> ShardEntryV {
        ShardEntryV { key: self.key, shard: self.shard@ }
    }
}

/// Configuration of one client-visible pool: its users, shards and knobs.
#[derive(Clone, Debug)]
pub struct PoolConfig {
    pub users: Vec<User>,
    pub shards: Vec<ShardEntry>,
    pub connect_timeout: Option<u64>,
    pub idle_timeout: Option<u64>,
    pub pool_mode: PoolMode,
    pub load_balancing_mode: LoadBalancingMode,
    pub default_role: DefaultRole,
    pub query_parser_enabled: bool,
    pub primary_reads_enabled: bool,
    pub sharding_function: ShardingFunction,
    pub automatic_sharding_key: Option<String>,
}

pub ghost struct PoolConfigV {
    pub users: Seq<UserV>,
    pub shards: Seq<ShardEntryV>,
    pub connect_timeout: Option<u64>,
    pub idle_timeout: Option<u64>,
    pub pool_mode: PoolMode,
    pub load_balancing_mode: LoadBalancingMode,
    pub default_role: DefaultRole,
    pub query_parser_enabled: bool,
    pub primary_reads_enabled: bool,
    pub sharding_function: ShardingFunction,
    pub automatic_sharding_key: Option<Seq<char>>,
}

impl View for PoolConfig {
    type V = PoolConfigV;

    open spec fn view(&self) -> PoolConfigV {
        PoolConfigV {
            users: self.users@.map_values(|u: User| u@),
            shards: self.shards@.map_values(|s: ShardEntry| s@),
            connect_timeout: self.connect_timeout,
            idle_timeout: self.idle_timeout,
            pool_mode: self.pool_mode,
            load_balancing_mode: self.load_balancing_mode,
            default_role: self.default_role,
            query_parser_enabled: self.query_parser_enabled,
            primary_reads_enabled: self.primary_reads_enabled,
            sharding_function: self.sharding_function,
            automatic_sharding_key: match self.automatic_sharding_key {
                Some(ref k) => Some(k@),
                None => None,
            },
        }
    }
}

fn option_u64_eq(a: &Option<u64>, b: &Option<u64>) -> (r: bool)
    ensures
        r == (*a == *b),
{
    match (a, b) {
        (Some(x), Some(y)) => *x == *y,
        (None, None) => true,
        _ => false,
    }
}

fn option_string_eq(a: &Option<String>, b: &Option<String>) -> (r: bool)
    ensures
        r == (match (a, b) {
            (Some(x), Some(y)) => x@ == y@,
            (None, None) => true,
            _ => false,
        }),
{
    match (a, b) {
        (Some(x), Some(y)) => *x == *y,
        (None, None) => true,
        _ => false,
    }
}

impl PoolConfig {
    /// Compare two pool configurations field by field; this decides whether a
    /// reloaded pool can reuse its previous incarnation.
    pub fn same_as(&self, other: &PoolConfig) -> (r: bool)
        ensures
            r == (self@ == other@),
    {
        if !(self.pool_mode == other.pool_mode && self.load_balancing_mode
            == other.load_balancing_mode && self.default_role == other.default_role
            && self.query_parser_enabled == other.query_parser_enabled
            && self.primary_reads_enabled == other.primary_reads_enabled
            && self.sharding_function == other.sharding_function) {
            return false;
        }
        if !option_u64_eq(&self.connect_timeout, &other.connect_timeout) {
            return false;
        }
        if !option_u64_eq(&self.idle_timeout, &other.idle_timeout) {
            return false;
        }
        if !option_string_eq(&self.automatic_sharding_key, &other.automatic_sharding_key) {
            assert(self@.automatic_sharding_key != other@.automatic_sharding_key);
            return false;
        }
        assert(self@.automatic_sharding_key == other@.automatic_sharding_key);
        if self.users.len() != other.users.len() {
            assert(self@.users.len() != other@.users.len());
            return false;
        }
        let nu = self.users.len();
        let mut i: usize = 0;
        while i < nu
            invariant
                nu == self.users.len() == other.users.len(),
                0 <= i <= nu,
                forall|k: int| 0 <= k < i ==> self@.users[k] == other@.users[k],
            decreases nu - i,
        {
            if !self.users[i].same_as(&other.users[i]) {
                assert(self@.users[i as int] != other@.users[i as int]);
                return false;
            }
            i += 1;
        }
        assert(self@.users =~= other@.users);
        if self.shards.len() != other.shards.len() {
            assert(self@.shards.len() != other@.shards.len());
            return false;
        }
        let ns = self.shards.len();
        let mut j: usize = 0;
        while j < ns
            invariant
                ns == self.shards.len() == other.shards.len(),
                0 <= j <= ns,
                forall|k: int| 0 <= k < j ==> self@.shards[k] == other@.shards[k],
                self@.users == other@.users,
            decreases ns - j,
        {
            if self.shards[j].key != other.shards[j].key {
                assert(self@.shards[j as int] != other@.shards[j as int]);
                return false;
            }
            if !self.shards[j].shard.same_as(&other.shards[j].shard) {
                assert(self@.shards[j as int] != other@.shards[j as int]);
                return false;
            }
            assert(self@.shards[j as int] == other@.shards[j as int]);
            j += 1;
        }
        assert(self@.shards =~= other@.shards);
        true
    }
}

impl PoolConfigV {
    /// Some configured shard carries the numeric key `k`.
    pub open spec fn has_shard_key(self, k: int) -> bool {
        exists|j: int| 0 <= j < self.shards.len() && (#[trigger] self.shards[j]).key == k
    }

    /// Well-formed pool configuration: shard keys are exactly `0..shards.len()`
    /// (so the canonical ascending order is an indexing), and usernames are
    /// distinct (one pool per `(database, user)` pair).
    pub open spec fn wf(self) -> bool {
        &&& forall|j: int| 0 <= j < self.shards.len() ==> (#[trigger] self.shards[j].key)
            < self.shards.len()
        &&& forall|j1: int, j2: int|
            0 <= j1 < j2 < self.shards.len() ==> self.shards[j1].key != self.shards[j2].key
        &&& forall|k: int| 0 <= k < self.shards.len() ==> #[trigger] self.has_shard_key(k)
        &&& forall|j1: int, j2: int|
            0 <= j1 < j2 < self.users.len() ==> self.users[j1].username != self.users[j2].username
    }
}

/// Process-level defaults that a pool configuration may override.
#[derive(Clone, Copy, Debug)]
pub struct GeneralConfig {
    pub connect_timeout: u64,
    pub idle_timeout: u64,
    pub healthcheck_delay: u64,
    pub healthcheck_timeout: u64,
    pub ban_time: i64,
}

/// One named pool in the configuration.
#[derive(Clone, Debug)]
pub struct PoolEntry {
    pub name: String,
    pub config: PoolConfig,
}

pub ghost struct PoolEntryV {
    pub name: Seq<char>,
    pub config: PoolConfigV,
}

impl View for PoolEntry {
    type V = PoolEntryV;

    open spec fn view(&self) -> PoolEntryV {
        PoolEntryV { name: self.name@, config: self.config@ }
    }
}

/// The whole configuration tree handed to a reload.
#[derive(Clone, Debug)]
pub struct Config {
    pub pools: Vec<PoolEntry>,
    pub general: GeneralConfig,
}

pub ghost struct ConfigV {
    pub pools: Seq<PoolEntryV>,
    pub general: GeneralConfig,
}

impl View for Config {
    type V = ConfigV;

    open spec fn view(&self) -> ConfigV {
        ConfigV { pools: self.pools@.map_values(|p: PoolEntry| p@), general: self.general }
    }
}

impl ConfigV {
    /// Well-formed configuration: pool names are distinct and every pool
    /// configuration is itself well formed.
    pub open spec fn wf(self) -> bool {
        &&& forall|i1: int, i2: int|
            0 <= i1 < i2 < self.pools.len() ==> self.pools[i1].name != self.pools[i2].name
        &&& forall|i: int| 0 <= i < self.pools.len() ==> (#[trigger] self.pools[i]).config.wf()
    }
}

/// Identifier of one client-visible pool: the database name a client asks for
/// and the user it connects as.
#[derive(Clone, Debug)]
pub struct PoolIdentifier {
    pub db: String,
    pub user: String,
}

pub ghost struct PoolIdentifierV {
    pub db: Seq<char>,
    pub user: Seq<char>,
}

impl View for PoolIdentifier {
    type V = PoolIdentifierV;

    open spec fn view(&self) -> PoolIdentifierV {
        PoolIdentifierV { db: self.db@, user: self.user@ }
    }
}

impl PoolIdentifier {
    /// Create a new database/user pool identifier.
    pub fn new(db: &str, user: &str) -> (r: PoolIdentifier)
        ensures
            r@.db == db@,
            r@.user == user@,
    {
        PoolIdentifier { db: db.to_owned(), user: user.to_owned() }
    }

    pub fn same_as(&self, other: &PoolIdentifier) -> (r: bool)
        ensures
            r == (self@ == other@),
    {
        self.db == other.db && self.user == other.user
    }
}


impl ServerConfig {
    /// Field-by-field copy.
    pub fn duplicate(&self) -> (r: ServerConfig)
        ensures
            r@ == self@,
    {
        ServerConfig { host: self.host.clone(), port: self.port, role: self.role }
    }
}

impl ShardConfig {
    /// Field-by-field copy.
    pub fn duplicate(&self) -> (r: ShardConfig)
        ensures
            r@ == self@,
    {
        let mut servers: Vec<ServerConfig> = Vec::new();
        let n = self.servers.len();
        let mut i: usize = 0;
        while i < n
            invariant
                n == self.servers@.len(),
                0 <= i <= n,
                servers@.len() == i,
                forall|k: int| 0 <= k < i ==> (#[trigger] servers@[k])@ == self.servers@[k]@,
            decreases n - i,
        {
            servers.push(self.servers[i].duplicate());
            i += 1;
        }
        let r = ShardConfig { database: self.database.clone(), servers };
        proof {
            assert(r@.servers =~= self@.servers);
        }
        r
    }
}

impl ShardEntry {
    /// Field-by-field copy.
    pub fn duplicate(&self) -> (r: ShardEntry)
        ensures
            r@ == self@,
    {
        ShardEntry { key: self.key, shard: self.shard.duplicate() }
    }
}

fn duplicate_option_string(o: &Option<String>) -> (r: Option<String>)
    ensures
        (match (o, &r) {
            (Some(a), Some(b)) => a@ == b@,
            (None, None) => true,
            _ => false,
        }),
{
    match o {
        Some(s) => Some(s.clone()),
        None => None,
    }
}

impl PoolConfig {
    /// Field-by-field copy.
    pub fn duplicate(&self) -> (r: PoolConfig)
        ensures
            r@ == self@,
    {
        let mut users: Vec<User> = Vec::new();
        let nu = self.users.len();
        let mut i: usize = 0;
        while i < nu
            invariant
                nu == self.users@.len(),
                0 <= i <= nu,
                users@.len() == i,
                forall|k: int| 0 <= k < i ==> (#[trigger] users@[k])@ == self.users@[k]@,
            decreases nu - i,
        {
            users.push(self.users[i].duplicate());
            i += 1;
        }
        let mut shards: Vec<ShardEntry> = Vec::new();
        let ns = self.shards.len();
        let mut j: usize = 0;
        while j < ns
            invariant
                ns == self.shards@.len(),
                0 <= j <= ns,
                shards@.len() == j,
                forall|k: int| 0 <= k < j ==> (#[trigger] shards@[k])@ == self.shards@[k]@,
            decreases ns - j,
        {
            shards.push(self.shards[j].duplicate());
            j += 1;
        }
        let r = PoolConfig {
            users,
            shards,
            connect_timeout: self.connect_timeout,
            idle_timeout: self.idle_timeout,
            pool_mode: self.pool_mode,
            load_balancing_mode: self.load_balancing_mode,
            default_role: self.default_role,
            query_parser_enabled: self.query_parser_enabled,
            primary_reads_enabled: self.primary_reads_enabled,
            sharding_function: self.sharding_function,
            automatic_sharding_key: duplicate_option_string(&self.automatic_sharding_key),
        };
        proof {
            assert(r@.users =~= self@.users);
            assert(r@.shards =~= self@.shards);
        }
        r
    }
}

impl User {
    /// Field-by-field copy.
    pub fn duplicate(&self) -> (r: User)
        ensures
            r@ == self@,
    {
        User {
            username: self.username.clone(),
            password: self.password.clone(),
            pool_size: self.pool_size,
        }
    }
}

} // verus!

