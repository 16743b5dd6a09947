//! The registry snapshot: the map from pool identifier to connection pool
//! that a reload rebuilds and publishes as a whole. Unchanged pools are
//! reused by copy of their warm descriptors; changed or new pools are built
//! fresh and must be validated before the snapshot is committed.

use vstd::prelude::*;

use crate::builder::build_pool;
use crate::builder::built_from;
use crate::builder::pool_capacity;
use crate::builder::total_by_key;
use crate::config::Config;
use crate::config::ConfigV;
use crate::config::PoolConfig;
use crate::config::PoolConfigV;
use crate::config::PoolEntryV;
use crate::config::PoolIdentifier;
use crate::config::PoolIdentifierV;
use crate::pool::total_servers;
use crate::pool::ConnectionPool;
use crate::pool::ConnectionPoolV;

verus! {

/// One published pool: its identifier and its contents.
#[derive(Debug)]
pub struct RegistryEntry {
    pub id: PoolIdentifier,
    pub pool: ConnectionPool,
}

pub ghost struct RegistryEntryV {
    pub id: PoolIdentifierV,
    pub pool: ConnectionPoolV,
}

impl View for RegistryEntry {
    type V = RegistryEntryV;

    open spec fn view(&self) -> RegistryEntryV {
        RegistryEntryV { id: self.id@, pool: self.pool@ }
    }
}

/// One planned pool: where it will be published, its contents, and whether
/// it was built fresh by this reload (fresh pools need validation).
#[derive(Debug)]
pub struct PlanEntry {
    pub entry: RegistryEntry,
    pub fresh: bool,
}

pub ghost struct PlanEntryV {
    pub entry: RegistryEntryV,
    pub fresh: bool,
}

impl View for PlanEntry {
    type V = PlanEntryV;

    open spec fn view(&self) -> PlanEntryV {
        PlanEntryV { entry: self.entry@, fresh: self.fresh }
    }
}

pub open spec fn entries_view(v: Seq<RegistryEntry>) -> Seq<RegistryEntryV> {
    v.map_values(|e: RegistryEntry| e@)
}

pub open spec fn pentries_view(v: Seq<PlanEntry>) -> Seq<PlanEntryV> {
    v.map_values(|e: PlanEntry| e@)
}

pub open spec fn configs_view(v: Seq<PoolConfig>) -> Seq<PoolConfigV> {
    v.map_values(|p: PoolConfig| p@)
}

/// The registry entries a plan publishes.
pub open spec fn plan_pools(entries: Seq<PlanEntryV>) -> Seq<RegistryEntryV> {
    entries.map_values(|e: PlanEntryV| e.entry)
}

/// Membership in a configuration set.
pub open spec fn cs_contains(s: Seq<PoolConfigV>, c: PoolConfigV) -> bool {
    exists|k: int| 0 <= k < s.len() && s[k] == c
}

proof fn lemma_cs_push(s: Seq<PoolConfigV>, x: PoolConfigV, c2: PoolConfigV)
    ensures
        cs_contains(s.push(x), c2) <==> (cs_contains(s, c2) || c2 == x),
{
    if cs_contains(s.push(x), c2) {
        let k = choose|k: int| 0 <= k < s.push(x).len() && s.push(x)[k] == c2;
        if k < s.len() {
            assert(s[k] == c2);
        }
    }
    if cs_contains(s, c2) {
        let k = choose|k: int| 0 <= k < s.len() && s[k] == c2;
        assert(s.push(x)[k] == c2);
    }
    if c2 == x {
        assert(s.push(x)[s.len() as int] == c2);
    }
}

/// The running configuration set equals the previous set extended by the
/// configurations of the first `upto` pools of this reload.
pub open spec fn set_extends(
    old_set: Seq<PoolConfigV>,
    pools: Seq<PoolEntryV>,
    upto: int,
    s: Seq<PoolConfigV>,
    c2: PoolConfigV,
) -> bool {
    cs_contains(s, c2) <==> (cs_contains(old_set, c2) || exists|i2: int|
        0 <= i2 < upto && (#[trigger] pools[i2]).config == c2)
}

/// Some published entry carries this identifier.
pub open spec fn reg_has(pools: Seq<RegistryEntryV>, id: PoolIdentifierV) -> bool {
    exists|k: int| 0 <= k < pools.len() && (#[trigger] pools[k]).id == id
}

pub open spec fn reg_index(pools: Seq<RegistryEntryV>, id: PoolIdentifierV) -> int {
    choose|k: int| 0 <= k < pools.len() && (#[trigger] pools[k]).id == id
}

/// The pool published at an identifier (meaningful when the identifiers are
/// distinct and `reg_has` holds).
pub open spec fn reg_pool(pools: Seq<RegistryEntryV>, id: PoolIdentifierV) -> ConnectionPoolV {
    pools[reg_index(pools, id)].pool
}

pub proof fn lemma_reg_unique(pools: Seq<RegistryEntryV>, id: PoolIdentifierV, k: int)
    requires
        forall|k1: int, k2: int|
            0 <= k1 < k2 < pools.len() ==> pools[k1].id != pools[k2].id,
        0 <= k < pools.len(),
        pools[k].id == id,
    ensures
        reg_index(pools, id) == k,
        reg_pool(pools, id) == pools[k].pool,
{
    assert(reg_has(pools, id));
    let kk = reg_index(pools, id);
    if kk != k {
        if kk < k {
            assert(pools[kk].id != pools[k].id);
        } else {
            assert(pools[k].id != pools[kk].id);
        }
    }
}

/// Mathematical model of the registry.
pub ghost struct RegistryV {
    pub pools: Seq<RegistryEntryV>,
    pub config_set: Seq<PoolConfigV>,
    pub next_slot_id: u64,
}

impl RegistryV {
    /// Every published pool is well formed and identifiers are distinct.
    pub open spec fn wf(self) -> bool {
        &&& forall|k: int| 0 <= k < self.pools.len() ==> (#[trigger] self.pools[k]).pool.wf()
        &&& forall|k1: int, k2: int|
            0 <= k1 < k2 < self.pools.len() ==> self.pools[k1].id != self.pools[k2].id
    }
}

/// Snapshot of all published connection pools, plus the configuration set
/// that decides reuse on the next reload, plus the slot-identifier counter
/// that keeps fresh slot pools distinguishable from every earlier one.
#[derive(Debug)]
pub struct Registry {
    pools: Vec<RegistryEntry>,
    config_set: Vec<PoolConfig>,
    next_slot_id: u64,
}

impl View for Registry {
    type V = RegistryV;

    closed spec fn view(&self) -> RegistryV {
        RegistryV {
            pools: entries_view(self.pools@),
            config_set: configs_view(self.config_set@),
            next_slot_id: self.next_slot_id,
        }
    }
}

/// Total number of servers over the first `k` published pools.
pub open spec fn reg_total_addresses(pools: Seq<RegistryEntryV>, k: int) -> int
    decreases k,
{
    if k <= 0 {
        0
    } else {
        reg_total_addresses(pools, k - 1) + total_servers(
            pools[k - 1].pool.addresses,
            pools[k - 1].pool.addresses.len() as int,
        )
    }
}

proof fn lemma_reg_total_monotone(pools: Seq<RegistryEntryV>, k1: int, k2: int)
    requires
        0 <= k1 <= k2,
        forall|k: int| 0 <= k < pools.len() ==> (#[trigger] pools[k]).pool.wf(),
        k2 <= pools.len(),
    ensures
        reg_total_addresses(pools, k1) <= reg_total_addresses(pools, k2),
    decreases k2 - k1,
{
    if k1 < k2 {
        lemma_reg_total_monotone(pools, k1, k2 - 1);
        crate::pool::lemma_total_servers_monotone(
            pools[k2 - 1].pool.addresses,
            0,
            pools[k2 - 1].pool.addresses.len() as int,
        );
    }
}

/// Identifier of the pool for configured pool `i`, user `j`.
pub open spec fn pair_id(c: ConfigV, i: int, j: int) -> PoolIdentifierV {
    PoolIdentifierV { db: c.pools[i].name, user: c.pools[i].config.users[j].username }
}

pub open spec fn valid_pair(c: ConfigV, i: int, j: int) -> bool {
    0 <= i < c.pools.len() && 0 <= j < c.pools[i].config.users.len()
}

/// Number of `(pool, user)` pairs among the first `i` configured pools.
pub open spec fn users_before(pools: Seq<PoolEntryV>, i: int) -> int
    decreases i,
{
    if i <= 0 {
        0
    } else {
        users_before(pools, i - 1) + pools[i - 1].config.users.len()
    }
}

proof fn lemma_users_before_monotone(pools: Seq<PoolEntryV>, i1: int, i2: int)
    requires
        0 <= i1 <= i2,
    ensures
        users_before(pools, i1) <= users_before(pools, i2),
    decreases i2 - i1,
{
    if i1 < i2 {
        lemma_users_before_monotone(pools, i1, i2 - 1);
    }
}

/// Position of the entry for pair `(i, j)` in a plan's entry list.
pub open spec fn entry_pos(c: ConfigV, i: int, j: int) -> int {
    users_before(c.pools, i) + j
}

/// Whether configured pool `i` counts as changed: its configuration stands
/// neither in the previous configuration set nor earlier in this reload.
pub open spec fn pool_changed(old_set: Seq<PoolConfigV>, pools: Seq<PoolEntryV>, i: int) -> bool {
    &&& !cs_contains(old_set, pools[i].config)
    &&& !(exists|k: int| 0 <= k < i && (#[trigger] pools[k]).config == pools[i].config)
}

/// Whether the pair `(i, j)` is served by reusing the published pool.
pub open spec fn spec_reuse(old: RegistryV, c: ConfigV, i: int, j: int) -> bool {
    !pool_changed(old.config_set, c.pools, i) && reg_has(old.pools, pair_id(c, i, j))
}

/// What one planned entry promises.
pub open spec fn plan_entry_ok(
    old: RegistryV,
    c: ConfigV,
    i: int,
    j: int,
    e: PlanEntryV,
) -> bool {
    &&& e.entry.id == pair_id(c, i, j)
    &&& e.entry.pool.wf()
    &&& e.fresh == !spec_reuse(old, c, i, j)
    &&& (!e.fresh ==> e.entry.pool == reg_pool(old.pools, pair_id(c, i, j)))
    &&& (e.fresh ==> exists|ab: int, sb: int|
        0 <= ab && old.next_slot_id <= sb && built_from(
            e.entry.pool,
            c.pools[i].name,
            c.pools[i].config.users[j],
            c.pools[i].config,
            c.general,
            ab,
            sb,
        ))
}

/// Entry position `k` stands for some configured `(pool, user)` pair.
pub open spec fn pos_covered(c: ConfigV, k: int) -> bool {
    exists|i: int, j: int|
        #![trigger entry_pos(c, i, j)]
        valid_pair(c, i, j) && k == entry_pos(c, i, j)
}

/// Entry position `k` stands for a pair that a partial reload, through pool
/// `i` and user `j`, has already planned.
pub open spec fn pos_covered_upto(c: ConfigV, i: int, j: int, k: int) -> bool {
    exists|i2: int, j2: int|
        #![trigger entry_pos(c, i2, j2)]
        valid_pair(c, i2, j2) && (i2 < i || (i2 == i && j2 < j)) && k == entry_pos(c, i2, j2)
}

/// What a whole reload plan promises.
pub open spec fn plan_ok(old: RegistryV, c: ConfigV, plan: ReloadPlanV) -> bool {
    &&& plan.entries.len() == users_before(c.pools, c.pools.len() as int)
    &&& forall|i: int, j: int|
        valid_pair(c, i, j) ==> #[trigger] plan_entry_ok(
            old,
            c,
            i,
            j,
            plan.entries[entry_pos(c, i, j)],
        )
    &&& forall|k: int| 0 <= k < plan.entries.len() ==> #[trigger] pos_covered(c, k)
    &&& forall|k1: int, k2: int|
        0 <= k1 < k2 < plan.entries.len() ==> plan.entries[k1].entry.id
            != plan.entries[k2].entry.id
    &&& forall|c2: PoolConfigV|
        #![trigger cs_contains(plan.config_set, c2)]
        cs_contains(plan.config_set, c2) <==> (cs_contains(old.config_set, c2) || exists|i2: int|
            0 <= i2 < c.pools.len() && (#[trigger] c.pools[i2]).config == c2)
    &&& plan.next_slot_id >= old.next_slot_id
}

proof fn lemma_plan_ok_assemble(old: RegistryV, c: ConfigV, plan: ReloadPlanV)
    requires
        plan.entries.len() == users_before(c.pools, c.pools.len() as int),
        forall|i: int, j: int|
            valid_pair(c, i, j) ==> #[trigger] plan_entry_ok(
                old,
                c,
                i,
                j,
                plan.entries[entry_pos(c, i, j)],
            ),
        forall|k: int| 0 <= k < plan.entries.len() ==> #[trigger] pos_covered(c, k),
        forall|k1: int, k2: int|
            0 <= k1 < k2 < plan.entries.len() ==> plan.entries[k1].entry.id
                != plan.entries[k2].entry.id,
        forall|c2: PoolConfigV|
            #![trigger cs_contains(plan.config_set, c2)]
            cs_contains(plan.config_set, c2) <==> (cs_contains(old.config_set, c2) || exists|
                i2: int,
            |
                0 <= i2 < c.pools.len() && (#[trigger] c.pools[i2]).config == c2),
        plan.next_slot_id >= old.next_slot_id,
    ensures
        plan_ok(old, c, plan),
{
}

/// A reload plan: the entries to publish, the configuration set that will
/// decide the next reload's reuse, and the advanced slot counter.
#[derive(Debug)]
pub struct ReloadPlan {
    pub entries: Vec<PlanEntry>,
    pub config_set: Vec<PoolConfig>,
    pub next_slot_id: u64,
}

pub ghost struct ReloadPlanV {
    pub entries: Seq<PlanEntryV>,
    pub config_set: Seq<PoolConfigV>,
    pub next_slot_id: u64,
}

impl View for ReloadPlan {
    type V = ReloadPlanV;

    open spec fn view(&self) -> ReloadPlanV {
        ReloadPlanV {
            entries: pentries_view(self.entries@),
            config_set: configs_view(self.config_set@),
            next_slot_id: self.next_slot_id,
        }
    }
}

fn copy_config_set(src: &Vec<PoolConfig>) -> (r: Vec<PoolConfig>)
    ensures
        configs_view(r@) == configs_view(src@),
{
    let mut out: Vec<PoolConfig> = Vec::new();
    let n = src.len();
    let mut i: usize = 0;
    while i < n
        invariant
            n == src@.len(),
            0 <= i <= n,
            out@.len() == i,
            forall|k: int| 0 <= k < i ==> (#[trigger] out@[k])@ == src@[k]@,
        decreases n - i,
    {
        out.push(src[i].duplicate());
        i += 1;
    }
    proof {
        assert(configs_view(out@) =~= configs_view(src@));
    }
    out
}

fn config_set_contains(set: &Vec<PoolConfig>, c: &PoolConfig) -> (r: bool)
    ensures
        r == cs_contains(configs_view(set@), c@),
{
    let n = set.len();
    let mut k: usize = 0;
    while k < n
        invariant
            n == set@.len(),
            0 <= k <= n,
            forall|k2: int| 0 <= k2 < k ==> (#[trigger] set@[k2])@ != c@,
        decreases n - k,
    {
        if set[k].same_as(c) {
            proof {
                assert(configs_view(set@)[k as int] == c@);
            }
            return true;
        }
        k += 1;
    }
    proof {
        if cs_contains(configs_view(set@), c@) {
            let kk = choose|kk: int|
                0 <= kk < configs_view(set@).len() && configs_view(set@)[kk] == c@;
            assert(set@[kk]@ != c@);
        }
    }
    false
}

impl Registry {
    /// The empty registry: nothing published, nothing remembered.
    pub fn new() -> (r: Registry)
        ensures
            r@.pools.len() == 0,
            r@.config_set.len() == 0,
            r@.next_slot_id == 0,
            r@.wf(),
    {
        let r = Registry { pools: Vec::new(), config_set: Vec::new(), next_slot_id: 0 };
        proof {
            assert(r@.pools =~= Seq::<RegistryEntryV>::empty());
            assert(r@.config_set =~= Seq::<PoolConfigV>::empty());
        }
        r
    }

    /// The published pool for a database and user, if one exists.
    pub fn get_pool(&self, db: &str, user: &str) -> (r: Option<&ConnectionPool>)
        requires
            self@.wf(),
        ensures
            r is Some <==> reg_has(self@.pools, PoolIdentifierV { db: db@, user: user@ }),
            r is Some ==> r->0@ == reg_pool(
                self@.pools,
                PoolIdentifierV { db: db@, user: user@ },
            ),
    {
        let target = PoolIdentifier::new(db, user);
        let ghost id = PoolIdentifierV { db: db@, user: user@ };
        let n = self.pools.len();
        let mut k: usize = 0;
        while k < n
            invariant
                self@.wf(),
                target@ == id,
                id == (PoolIdentifierV { db: db@, user: user@ }),
                n == self.pools@.len(),
                n == self@.pools.len(),
                0 <= k <= n,
                forall|k2: int| 0 <= k2 < k ==> (#[trigger] self@.pools[k2]).id != id,
            decreases n - k,
        {
            proof {
                assert(self@.pools[k as int] == self.pools@[k as int]@);
            }
            if self.pools[k].id.same_as(&target) {
                proof {
                    assert(self@.pools[k as int].id == id);
                    assert(reg_has(self@.pools, id));
                    lemma_reg_unique(self@.pools, id, k as int);
                    assert(self@.pools[k as int].pool == reg_pool(self@.pools, id));
                }
                return Some(&self.pools[k].pool);
            }
            k += 1;
        }
        proof {
            if reg_has(self@.pools, id) {
                let kk = reg_index(self@.pools, id);
                assert(self@.pools[kk].id != id);
            }
        }
        None
    }

    /// All published pools, in publication order.
    pub fn get_all_pools(&self) -> (r: &Vec<RegistryEntry>)
        ensures
            entries_view(r@) == self@.pools,
    {
        &self.pools
    }

    /// Total number of servers over every published pool.
    pub fn get_number_of_addresses(&self) -> (r: usize)
        requires
            self@.wf(),
            reg_total_addresses(self@.pools, self@.pools.len() as int) <= usize::MAX,
        ensures
            r == reg_total_addresses(self@.pools, self@.pools.len() as int),
    {
        let n = self.pools.len();
        let mut total: usize = 0;
        let mut k: usize = 0;
        while k < n
            invariant
                self@.wf(),
                n == self.pools@.len(),
                n == self@.pools.len(),
                reg_total_addresses(self@.pools, n as int) <= usize::MAX,
                0 <= k <= n,
                total == reg_total_addresses(self@.pools, k as int),
            decreases n - k,
        {
            proof {
                assert(self@.pools[k as int] == self.pools@[k as int]@);
                assert(self@.pools[k as int].pool.wf());
                lemma_reg_total_monotone(self@.pools, k as int + 1, n as int);
            }
            total = total + self.pools[k].pool.databases();
            k += 1;
        }
        total
    }
}


impl Registry {
    /// Plan a reload against this snapshot: one entry per configured
    /// `(pool, user)` pair, in configuration order. A pool whose
    /// configuration already stands in the remembered set and whose
    /// identifier is published is reused unchanged; every other pair gets a
    /// freshly built pool, which the caller must validate before `commit`.
    #[verifier::rlimit(40)]
    pub fn plan_reload(&self, config: &Config) -> (plan: ReloadPlan)
        requires
            self@.wf(),
            config@.wf(),
            config_capacity(config@, config@.pools.len() as int) <= usize::MAX,
            self@.next_slot_id + config_capacity(config@, config@.pools.len() as int)
                <= u64::MAX,
        ensures
            plan_ok(self@, config@, plan@),
    {
        let ghost c = config@;
        let ghost oldr = self@;
        let np = config.pools.len();
        let mut entries: Vec<PlanEntry> = Vec::new();
        let mut new_set: Vec<PoolConfig> = copy_config_set(&self.config_set);
        let mut address_id: usize = 0;
        let mut next_slot_id: u64 = self.next_slot_id;
        let mut i: usize = 0;
        while i < np
            invariant
                oldr == self@,
                c == config@,
                oldr.wf(),
                c.wf(),
                np == c.pools.len(),
                np == config.pools@.len(),
                0 <= i <= np,
                config_capacity(c, np as int) <= usize::MAX,
                oldr.next_slot_id + config_capacity(c, np as int) <= u64::MAX,
                address_id as int <= config_capacity(c, i as int),
                next_slot_id as int == oldr.next_slot_id + address_id,
                entries@.len() == users_before(c.pools, i as int),
                forall|c2: PoolConfigV| #[trigger] set_extends(
                    oldr.config_set,
                    c.pools,
                    i as int,
                    configs_view(new_set@),
                    c2,
                ),
                forall|i2: int, j2: int|
                    valid_pair(c, i2, j2) && i2 < i ==> #[trigger] plan_entry_ok(
                        oldr,
                        c,
                        i2,
                        j2,
                        pentries_view(entries@)[entry_pos(c, i2, j2)],
                    ),
                forall|k: int|
                    0 <= k < entries@.len() ==> #[trigger] pos_covered_upto(c, i as int, 0, k),
                forall|k1: int, k2: int|
                    0 <= k1 < k2 < entries@.len() ==> pentries_view(entries@)[k1].entry.id
                        != pentries_view(entries@)[k2].entry.id,
            decreases np - i,
        {
            proof {
                assert(config.pools@[i as int]@ == c.pools[i as int]);
            }
            let ghost set_pre = configs_view(new_set@);
            let contained = config_set_contains(&new_set, &config.pools[i].config);
            let added = !contained;
            if added {
                new_set.push(config.pools[i].config.duplicate());
            }
            proof {
                assert(config.pools@[i as int]@.config == c.pools[i as int].config);
                assert(contained == cs_contains(set_pre, c.pools[i as int].config));
                assert(set_extends(
                    oldr.config_set,
                    c.pools,
                    i as int,
                    set_pre,
                    c.pools[i as int].config,
                ));
                assert(added == pool_changed(oldr.config_set, c.pools, i as int));
                if added {
                    assert(configs_view(new_set@) =~= set_pre.push(c.pools[i as int].config));
                }
                assert forall|c2: PoolConfigV| #[trigger] set_extends(
                    oldr.config_set,
                    c.pools,
                    i as int + 1,
                    configs_view(new_set@),
                    c2,
                ) by {
                    assert(set_extends(oldr.config_set, c.pools, i as int, set_pre, c2));
                    if added {
                        lemma_cs_push(set_pre, c.pools[i as int].config, c2);
                    } else {
                        assert(configs_view(new_set@) == set_pre);
                    }
                    if exists|i2: int| 0 <= i2 < i + 1 && (#[trigger] c.pools[i2]).config
                        == c2 {
                        let i2 = choose|i2: int|
                            0 <= i2 < i + 1 && (#[trigger] c.pools[i2]).config == c2;
                        if i2 == i {
                            assert(c2 == c.pools[i as int].config);
                            if !added {
                                assert(cs_contains(set_pre, c2));
                            }
                        }
                    }
                    if cs_contains(configs_view(new_set@), c2) {
                        if !cs_contains(set_pre, c2) {
                            assert(added);
                            assert(c2 == c.pools[i as int].config);
                            assert(exists|i2: int|
                                0 <= i2 < i + 1 && (#[trigger] c.pools[i2]).config == c2);
                        } else {
                            if !cs_contains(oldr.config_set, c2) {
                                let i2 = choose|i2: int|
                                    0 <= i2 < i && (#[trigger] c.pools[i2]).config == c2;
                                assert(0 <= i2 < i + 1 && c.pools[i2].config == c2);
                            }
                        }
                    }
                }
            }
            let nu = config.pools[i].config.users.len();
            proof {
                assert(nu == c.pools[i as int].config.users.len());
            }
            let mut j: usize = 0;
            while j < nu
                invariant
                    oldr == self@,
                    c == config@,
                    oldr.wf(),
                    c.wf(),
                    np == c.pools.len(),
                    np == config.pools@.len(),
                    0 <= i < np,
                    nu == c.pools[i as int].config.users.len(),
                    0 <= j <= nu,
                    config_capacity(c, np as int) <= usize::MAX,
                    oldr.next_slot_id + config_capacity(c, np as int) <= u64::MAX,
                    address_id as int <= config_capacity(c, i as int) + j * pool_capacity(
                        c.pools[i as int].config,
                    ),
                    next_slot_id as int == oldr.next_slot_id + address_id,
                    entries@.len() == users_before(c.pools, i as int) + j,
                    added == pool_changed(oldr.config_set, c.pools, i as int),
                    forall|c2: PoolConfigV| #[trigger] set_extends(
                        oldr.config_set,
                        c.pools,
                        i as int + 1,
                        configs_view(new_set@),
                        c2,
                    ),
                    forall|i2: int, j2: int|
                        valid_pair(c, i2, j2) && (i2 < i || (i2 == i && j2 < j))
                            ==> #[trigger] plan_entry_ok(
                            oldr,
                            c,
                            i2,
                            j2,
                            pentries_view(entries@)[entry_pos(c, i2, j2)],
                        ),
                    forall|k: int|
                        0 <= k < entries@.len() ==> #[trigger] pos_covered_upto(
                            c,
                            i as int,
                            j as int,
                            k,
                        ),
                    forall|k1: int, k2: int|
                        0 <= k1 < k2 < entries@.len() ==> pentries_view(entries@)[k1].entry.id
                            != pentries_view(entries@)[k2].entry.id,
                decreases nu - j,
            {
                let ghost cap_i = pool_capacity(c.pools[i as int].config);
                proof {
                    crate::builder::lemma_pool_capacity_nonneg(c.pools[i as int].config);
                    lemma_config_capacity_monotone(c, i as int + 1, np as int);
                    assert((j + 1) * cap_i <= nu * cap_i) by (nonlinear_arith)
                        requires
                            0 <= cap_i,
                            j + 1 <= nu,
                    ;
                    assert((j + 1) * cap_i == j * cap_i + cap_i) by (nonlinear_arith);
                    assert(config_capacity(c, i as int + 1) == config_capacity(c, i as int) + nu
                        * cap_i);
                    assert(address_id + cap_i <= config_capacity(c, np as int));
                }
                let pe = &config.pools[i];
                proof {
                    assert(pe@ == c.pools[i as int]);
                    assert(pe.config.users@[j as int]@ == c.pools[i as int].config.users[j as int]);
                }
                let user = &pe.config.users[j];
                let id = PoolIdentifier::new(pe.name.as_str(), user.username.as_str());
                proof {
                    assert(id@ == pair_id(c, i as int, j as int));
                }
                let ghost id_v = id@;
                let mut made: Option<ConnectionPool> = None;
                if !added {
                    match self.get_pool(pe.name.as_str(), user.username.as_str()) {
                        Some(p) => {
                            made = Some(p.duplicate());
                        },
                        None => {},
                    }
                }
                proof {
                    assert(made is Some <==> spec_reuse(oldr, c, i as int, j as int));
                }
                let ghost ab = address_id as int;
                let ghost sb = next_slot_id as int;
                let ghost entries_pre = pentries_view(entries@);
                let (pool, fresh): (ConnectionPool, bool) = match made {
                    Some(p) => (p, false),
                    None => {
                        let p = build_pool(
                            &pe.name,
                            user,
                            &pe.config,
                            &config.general,
                            &mut address_id,
                            &mut next_slot_id,
                        );
                        (p, true)
                    },
                };
                let entry = PlanEntry { entry: RegistryEntry { id, pool }, fresh };
                let ghost ev = entry@;
                entries.push(entry);
                proof {
                    assert(pentries_view(entries@) =~= entries_pre.push(ev));
                    assert(plan_entry_ok(oldr, c, i as int, j as int, ev)) by {
                        if fresh {
                            assert(0 <= ab && oldr.next_slot_id <= sb && built_from(
                                ev.entry.pool,
                                c.pools[i as int].name,
                                c.pools[i as int].config.users[j as int],
                                c.pools[i as int].config,
                                c.general,
                                ab,
                                sb,
                            ));
                        }
                    }
                    let lub = users_before(c.pools, i as int) + j;
                    assert forall|k: int| 0 <= k < lub implies pentries_view(
                        entries@,
                    )[k].entry.id != ev.entry.id by {
                        assert(pos_covered_upto(c, i as int, j as int, k));
                        let (i2, j2) = choose|i2: int, j2: int|
                            #![trigger entry_pos(c, i2, j2)]
                            valid_pair(c, i2, j2) && (i2 < i || (i2 == i && j2 < j)) && k
                                == entry_pos(c, i2, j2);
                        assert(plan_entry_ok(oldr, c, i2, j2, entries_pre[entry_pos(c, i2, j2)]));
                        assert(pentries_view(entries@)[k] == entries_pre[k]);
                        assert(pentries_view(entries@)[k].entry.id == pair_id(c, i2, j2));
                        if i2 < i {
                            assert(c.pools[i2].name != c.pools[i as int].name);
                        } else {
                            assert(c.pools[i as int].config.users[j2].username != c.pools[i
                                as int].config.users[j as int].username);
                        }
                    }
                    assert forall|i2: int, j2: int|
                        valid_pair(c, i2, j2) && (i2 < i || (i2 == i && j2 < j + 1))
                            implies #[trigger] plan_entry_ok(
                        oldr,
                        c,
                        i2,
                        j2,
                        pentries_view(entries@)[entry_pos(c, i2, j2)],
                    ) by {
                        lemma_users_before_monotone(c.pools, 0, i2);
                        if i2 < i {
                            assert(users_before(c.pools, i2 + 1) == users_before(c.pools, i2)
                                + c.pools[i2].config.users.len());
                            lemma_users_before_monotone(c.pools, i2 + 1, i as int);
                            assert(entry_pos(c, i2, j2) < lub);
                            assert(plan_entry_ok(oldr, c, i2, j2, entries_pre[entry_pos(c, i2, j2)]));
                            assert(pentries_view(entries@)[entry_pos(c, i2, j2)] == entries_pre[entry_pos(c, i2, j2)]);
                        } else if j2 < j {
                            assert(entry_pos(c, i2, j2) < lub);
                            assert(plan_entry_ok(oldr, c, i2, j2, entries_pre[entry_pos(c, i2, j2)]));
                            assert(pentries_view(entries@)[entry_pos(c, i2, j2)] == entries_pre[entry_pos(c, i2, j2)]);
                        } else {
                            assert(entry_pos(c, i2, j2) == lub);
                            assert(pentries_view(entries@)[lub] == ev);
                        }
                    }
                    assert forall|k: int| 0 <= k < entries@.len() implies #[trigger] pos_covered_upto(
                        c,
                        i as int,
                        j as int + 1,
                        k,
                    ) by {
                        if k < lub {
                            assert(pos_covered_upto(c, i as int, j as int, k));
                            let (i2, j2) = choose|i2: int, j2: int|
                                #![trigger entry_pos(c, i2, j2)]
                                valid_pair(c, i2, j2) && (i2 < i || (i2 == i && j2 < j)) && k
                                    == entry_pos(c, i2, j2);
                            assert(valid_pair(c, i2, j2) && (i2 < i || (i2 == i && j2 < j + 1))
                                && k == entry_pos(c, i2, j2));
                        } else {
                            assert(valid_pair(c, i as int, j as int) && k == entry_pos(
                                c,
                                i as int,
                                j as int,
                            ));
                        }
                    }
                }
                j += 1;
            }
            proof {
                assert(entries@.len() == users_before(c.pools, i as int + 1));
                assert(address_id as int <= config_capacity(c, i as int + 1)) by {
                    let cap_i = pool_capacity(c.pools[i as int].config);
                    crate::builder::lemma_pool_capacity_nonneg(c.pools[i as int].config);
                    assert(nu * cap_i == config_capacity(c, i as int + 1) - config_capacity(
                        c,
                        i as int,
                    ));
                }
                assert forall|i2: int, j2: int|
                    valid_pair(c, i2, j2) && i2 < i + 1 implies #[trigger] plan_entry_ok(
                    oldr,
                    c,
                    i2,
                    j2,
                    pentries_view(entries@)[entry_pos(c, i2, j2)],
                ) by {
                    if i2 == i {
                        assert(valid_pair(c, i2, j2) && (i2 < i || (i2 == i && j2 < nu)));
                    }
                }
                assert forall|k: int| 0 <= k < entries@.len() implies #[trigger] pos_covered_upto(
                    c,
                    i as int + 1,
                    0,
                    k,
                ) by {
                    assert(pos_covered_upto(c, i as int, nu as int, k));
                    let (i2, j2) = choose|i2: int, j2: int|
                        #![trigger entry_pos(c, i2, j2)]
                        valid_pair(c, i2, j2) && (i2 < i || (i2 == i && j2 < nu)) && k
                            == entry_pos(c, i2, j2);
                    assert(valid_pair(c, i2, j2) && (i2 < i + 1 || (i2 == i + 1 && j2 < 0)) && k
                        == entry_pos(c, i2, j2));
                }
            }
            i += 1;
        }
        let plan = ReloadPlan { entries, config_set: new_set, next_slot_id };
        proof {
            assert forall|c2: PoolConfigV|
                #![trigger cs_contains(plan@.config_set, c2)]
                cs_contains(plan@.config_set, c2) <==> (cs_contains(oldr.config_set, c2)
                    || exists|i2: int|
                    0 <= i2 < c.pools.len() && (#[trigger] c.pools[i2]).config == c2) by {
                assert(set_extends(
                    oldr.config_set,
                    c.pools,
                    np as int,
                    configs_view(new_set@),
                    c2,
                ));
            }
            assert forall|k: int| 0 <= k < plan@.entries.len() implies #[trigger] pos_covered(
                c,
                k,
            ) by {
                assert(pos_covered_upto(c, np as int, 0, k));
                let (i2, j2) = choose|i2: int, j2: int|
                    #![trigger entry_pos(c, i2, j2)]
                    valid_pair(c, i2, j2) && (i2 < np || (i2 == np && j2 < 0)) && k
                        == entry_pos(c, i2, j2);
                assert(valid_pair(c, i2, j2) && k == entry_pos(c, i2, j2));
            }
            assert(plan@.entries.len() == users_before(c.pools, c.pools.len() as int));
            assert forall|i2: int, j2: int| valid_pair(c, i2, j2) implies #[trigger] plan_entry_ok(
                oldr,
                c,
                i2,
                j2,
                plan@.entries[entry_pos(c, i2, j2)],
            ) by {
                assert(i2 < np);
                assert(plan_entry_ok(
                    oldr,
                    c,
                    i2,
                    j2,
                    pentries_view(entries@)[entry_pos(c, i2, j2)],
                ));
            }
            assert(forall|k1: int, k2: int|
                0 <= k1 < k2 < plan@.entries.len() ==> plan@.entries[k1].entry.id
                    != plan@.entries[k2].entry.id);
            assert(plan@.next_slot_id >= oldr.next_slot_id);
            lemma_plan_ok_assemble(oldr, c, plan@);
        }
        plan
    }

    /// Publish a planned snapshot: replace the pools, the configuration set
    /// and the slot counter as one step.
    pub fn commit(&mut self, plan: ReloadPlan)
        requires
            forall|k: int|
                0 <= k < plan@.entries.len() ==> (#[trigger] plan@.entries[k]).entry.pool.wf(),
            forall|k1: int, k2: int|
                0 <= k1 < k2 < plan@.entries.len() ==> plan@.entries[k1].entry.id
                    != plan@.entries[k2].entry.id,
        ensures
            final(self)@.wf(),
            final(self)@.pools == plan_pools(plan@.entries),
            final(self)@.config_set == plan@.config_set,
            final(self)@.next_slot_id == plan@.next_slot_id,
    {
        let ghost evs = pentries_view(plan.entries@);
        let ghost pcs = configs_view(plan.config_set@);
        let ghost pns = plan.next_slot_id;
        let ReloadPlan { entries, config_set, next_slot_id } = plan;
        let mut entries = entries;
        self.config_set = config_set;
        self.next_slot_id = next_slot_id;
        self.pools = Vec::new();
        let n = entries.len();
        proof {
            assert(evs == plan@.entries);
            assert forall|k2: int| 0 <= k2 < n implies (#[trigger] evs[k2]).entry.pool.wf() by {
                assert(plan@.entries[k2].entry.pool.wf());
            }
        }
        let mut k: usize = 0;
        while k < n
            invariant
                n == evs.len(),
                0 <= k <= n,
                self@.config_set == pcs,
                self@.next_slot_id == pns,
                forall|k2: int| 0 <= k2 < n ==> (#[trigger] evs[k2]).entry.pool.wf(),
                forall|k1: int, k2: int|
                    0 <= k1 < k2 < n ==> evs[k1].entry.id != evs[k2].entry.id,
                entries@.len() == n - k,
                forall|k2: int|
                    0 <= k2 < n - k ==> (#[trigger] entries@[k2])@ == evs[k2 + k],
                self.pools@.len() == k,
                forall|k2: int| 0 <= k2 < k ==> (#[trigger] self.pools@[k2])@ == evs[k2].entry,
            decreases n - k,
        {
            let e = entries.remove(0);
            self.pools.push(e.entry);
            k += 1;
        }
        proof {
            assert(entries_view(self.pools@) =~= plan_pools(evs));
            assert forall|k2: int| 0 <= k2 < self@.pools.len() implies (
            #[trigger] self@.pools[k2]).pool.wf() by {
                assert(self@.pools[k2] == evs[k2].entry);
            }
            assert forall|k1: int, k2: int| 0 <= k1 < k2 < self@.pools.len() implies self@
                .pools[k1].id != self@.pools[k2].id by {
                assert(self@.pools[k1] == evs[k1].entry);
                assert(self@.pools[k2] == evs[k2].entry);
            }
        }
    }
}

/// Total number of servers the first `i` configured pools would build, over
/// all their users.
pub open spec fn config_capacity(c: ConfigV, i: int) -> int
    decreases i,
{
    if i <= 0 {
        0
    } else {
        config_capacity(c, i - 1) + c.pools[i - 1].config.users.len() * pool_capacity(
            c.pools[i - 1].config,
        )
    }
}

pub proof fn lemma_config_capacity_monotone(c: ConfigV, i1: int, i2: int)
    requires
        0 <= i1 <= i2,
    ensures
        config_capacity(c, i1) <= config_capacity(c, i2),
    decreases i2 - i1,
{
    if i1 < i2 {
        lemma_config_capacity_monotone(c, i1, i2 - 1);
        let users: int = c.pools[i2 - 1].config.users.len() as int;
        let cap: int = pool_capacity(c.pools[i2 - 1].config);
        crate::builder::lemma_pool_capacity_nonneg(c.pools[i2 - 1].config);
        assert(users * cap >= 0) by (nonlinear_arith)
            requires
                users >= 0,
                cap >= 0,
        ;
    }
}

/// After a committed reload, the snapshot holds exactly the identifiers the
/// configuration names: every configured `(pool, user)` pair is published,
/// and nothing else is.
pub proof fn lemma_reload_publishes(
    oldr: RegistryV,
    c: ConfigV,
    plan: ReloadPlanV,
    id: PoolIdentifierV,
)
    requires
        c.wf(),
        plan_ok(oldr, c, plan),
    ensures
        reg_has(plan_pools(plan.entries), id) <==> exists|i: int, j: int|
            #![trigger pair_id(c, i, j)]
            valid_pair(c, i, j) && id == pair_id(c, i, j),
{
    let pools = plan_pools(plan.entries);
    if reg_has(pools, id) {
        let k = choose|k: int| 0 <= k < pools.len() && (#[trigger] pools[k]).id == id;
        assert(pos_covered(c, k));
        let (i, j) = choose|i: int, j: int|
            #![trigger entry_pos(c, i, j)]
            valid_pair(c, i, j) && k == entry_pos(c, i, j);
        assert(plan_entry_ok(oldr, c, i, j, plan.entries[entry_pos(c, i, j)]));
        assert(pools[k].id == pair_id(c, i, j));
        assert(valid_pair(c, i, j) && id == pair_id(c, i, j));
    }
    if exists|i: int, j: int|
        #![trigger pair_id(c, i, j)]
        valid_pair(c, i, j) && id == pair_id(c, i, j) {
        let (i, j) = choose|i: int, j: int|
            #![trigger pair_id(c, i, j)]
            valid_pair(c, i, j) && id == pair_id(c, i, j);
        let k = entry_pos(c, i, j);
        lemma_users_before_monotone(c.pools, i + 1, c.pools.len() as int);
        assert(users_before(c.pools, i + 1) == users_before(c.pools, i)
            + c.pools[i].config.users.len());
        lemma_users_before_monotone(c.pools, 0, i);
        assert(0 <= k < plan.entries.len());
        assert(plan_entry_ok(oldr, c, i, j, plan.entries[entry_pos(c, i, j)]));
        assert(pools[k].id == id);
    }
}

/// Reloading with a configuration whose every pool configuration is already
/// remembered and whose every identifier is already published reuses every
/// pool unchanged: the planned snapshot republishes the same pools.
pub proof fn lemma_idempotent_reload(oldr: RegistryV, c: ConfigV, plan: ReloadPlanV)
    requires
        c.wf(),
        plan_ok(oldr, c, plan),
        forall|i: int|
            0 <= i < c.pools.len() ==> cs_contains(
                oldr.config_set,
                (#[trigger] c.pools[i]).config,
            ),
        forall|i: int, j: int|
            valid_pair(c, i, j) ==> reg_has(oldr.pools, #[trigger] pair_id(c, i, j)),
    ensures
        forall|i: int, j: int|
            valid_pair(c, i, j) ==> {
                let e = plan.entries[#[trigger] entry_pos(c, i, j)];
                !e.fresh && e.entry.pool == reg_pool(oldr.pools, pair_id(c, i, j))
            },
{
    assert forall|i: int, j: int| valid_pair(c, i, j) implies {
        let e = plan.entries[entry_pos(c, i, j)];
        !e.fresh && e.entry.pool == reg_pool(oldr.pools, pair_id(c, i, j))
    } by {
        assert(plan_entry_ok(oldr, c, i, j, plan.entries[entry_pos(c, i, j)]));
        assert(!pool_changed(oldr.config_set, c.pools, i));
        assert(spec_reuse(oldr, c, i, j));
    }
}


/// Committing a reload plan for configuration `c` remembers every pool
/// configuration of `c` and publishes every configured pair — exactly the
/// premises under which the next reload with the same configuration reuses
/// every pool (`lemma_idempotent_reload`).
pub proof fn lemma_reload_remembers(oldr: RegistryV, c: ConfigV, plan: ReloadPlanV)
    requires
        c.wf(),
        plan_ok(oldr, c, plan),
    ensures
        forall|i: int|
            0 <= i < c.pools.len() ==> cs_contains(plan.config_set, (#[trigger] c.pools[i]).config),
        forall|i: int, j: int|
            valid_pair(c, i, j) ==> reg_has(plan_pools(plan.entries), #[trigger] pair_id(c, i, j)),
{
    assert forall|i: int| 0 <= i < c.pools.len() implies cs_contains(
        plan.config_set,
        (#[trigger] c.pools[i]).config,
    ) by {
        assert(cs_contains(plan.config_set, c.pools[i].config) <==> (cs_contains(
            oldr.config_set,
            c.pools[i].config,
        ) || exists|i2: int| 0 <= i2 < c.pools.len() && (#[trigger] c.pools[i2]).config
            == c.pools[i].config));
        assert(0 <= i < c.pools.len() && c.pools[i].config == c.pools[i].config);
    }
    assert forall|i: int, j: int| valid_pair(c, i, j) implies reg_has(
        plan_pools(plan.entries),
        #[trigger] pair_id(c, i, j),
    ) by {
        lemma_reload_publishes(oldr, c, plan, pair_id(c, i, j));
    }
}

} // verus!


