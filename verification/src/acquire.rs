//! The acquisition planner: which servers of a shard are candidates for a
//! request, in what order they are tried, and what each trial decides. The
//! driver that owns the sessions performs the checkout and the health check
//! and feeds their outcomes back.

use vstd::prelude::*;

use crate::config::LoadBalancingMode;
use crate::config::Role;
use crate::outside::shuffle_indices;
use crate::pool::ConnectionPool;
use crate::pool::ConnectionPoolV;

verus! {

/// One acquisition in progress: the shard, the requested role, and the
/// remaining candidates in trial order. Candidates are tried from the tail.
#[derive(Debug)]
pub struct Acquisition {
    pub shard: usize,
    pub role: Role,
    pub candidates: Vec<usize>,
}

pub ghost struct AcquisitionV {
    pub shard: usize,
    pub role: Role,
    pub candidates: Seq<usize>,
}

impl View for Acquisition {
    type V = AcquisitionV;

    open spec fn view(&self) -> AcquisitionV {
        AcquisitionV { shard: self.shard, role: self.role, candidates: self.candidates@ }
    }
}

/// What the next trial of an acquisition is.
#[derive(Clone, Copy, Debug, PartialEq, Eq, Structural)]
pub enum NextStep {
    /// No candidate is left: the acquisition fails, all servers down.
    Exhausted,
    /// The tried candidate stays banned; call again for the next one.
    Skip,
    /// Check a session out at this server; run a health check first if the
    /// server was just unbanned.
    Attempt { server: usize, force_healthcheck: bool },
}

/// Every remaining candidate is a server of the shard with the wanted role.
pub open spec fn candidates_ok(p: ConnectionPoolV, a: AcquisitionV) -> bool {
    &&& (a.shard as int) < p.addresses.len()
    &&& forall|k: int|
        0 <= k < a.candidates.len() ==> ((#[trigger] a.candidates[k]) as int)
            < p.addresses[a.shard as int].len() && p.addresses[a.shard as int][a.candidates[k] as int].role
            == a.role
}

/// Busy slots of the endpoint at shard `s`, position `i`: connections not
/// idle, clamped at zero.
pub open spec fn busy_of(p: ConnectionPoolV, s: int, i: int) -> int {
    let st = p.databases[s][i].state;
    if st.idle_connections > st.connections {
        0
    } else {
        st.connections - st.idle_connections
    }
}

/// Candidates sorted so that busier servers come first; the tail, tried
/// first, is then the least busy.
pub open spec fn sorted_by_busy_desc(p: ConnectionPoolV, s: int, cands: Seq<usize>) -> bool {
    forall|k1: int, k2: int|
        0 <= k1 < k2 < cands.len() ==> busy_of(p, s, #[trigger] cands[k1] as int) >= busy_of(
            p,
            s,
            #[trigger] cands[k2] as int,
        )
}

impl ConnectionPool {
    fn busy_at(&self, shard: usize, i: usize) -> (r: u32)
        requires
            self@.wf(),
            (shard as int) < self@.databases.len(),
            (i as int) < self@.databases[shard as int].len(),
        ensures
            r as int == busy_of(self@, shard as int, i as int),
    {
        let st = self.pool_state(shard, i);
        if st.idle_connections > st.connections {
            0
        } else {
            st.connections - st.idle_connections
        }
    }

    /// Begin an acquisition: collect the shard's servers with the wanted
    /// role, shuffle them uniformly, and, under least-outstanding-connections
    /// balancing, sort them so the least busy server is tried first. The
    /// shuffle is the whole order under random balancing and the tiebreak
    /// among equally busy servers otherwise.
    pub fn begin_acquire(&self, shard: usize, role: Role) -> (r: Acquisition)
        requires
            self@.wf(),
            (shard as int) < self@.addresses.len(),
        ensures
            r@.shard == shard,
            r@.role == role,
            candidates_ok(self@, r@),
            r@.candidates.no_duplicates(),
            forall|i: usize|
                (i as int) < self@.addresses[shard as int].len()
                    && self@.addresses[shard as int][i as int].role == role
                    ==> r@.candidates.contains(i),
            self@.settings.load_balancing_mode == LoadBalancingMode::LeastOutstandingConnections
                ==> sorted_by_busy_desc(self@, shard as int, r@.candidates),
    {
        let n = self.servers(shard);
        let mut cands: Vec<usize> = Vec::new();
        let mut i: usize = 0;
        while i < n
            invariant
                self@.wf(),
                (shard as int) < self@.addresses.len(),
                n == self@.addresses[shard as int].len(),
                0 <= i <= n,
                forall|k: int|
                    0 <= k < cands@.len() ==> ((#[trigger] cands@[k]) as int) < n
                        && self@.addresses[shard as int][cands@[k] as int].role == role,
                forall|i2: usize|
                    i2 < i && self@.addresses[shard as int][i2 as int].role == role
                        ==> cands@.contains(i2),
                forall|k: int| 0 <= k < cands@.len() ==> (#[trigger] cands@[k]) < i,
                forall|k1: int, k2: int|
                    0 <= k1 < k2 < cands@.len() ==> cands@[k1] < cands@[k2],
            decreases n - i,
        {
            if self.address(shard, i).role == role {
                let ghost pre = cands@;
                cands.push(i);
                proof {
                    assert forall|i2: usize|
                        i2 < i + 1 && self@.addresses[shard as int][i2 as int].role == role
                            implies cands@.contains(i2) by {
                        if i2 < i {
                            assert(pre.contains(i2));
                            let k = choose|k: int| 0 <= k < pre.len() && pre[k] == i2;
                            assert(cands@[k] == i2);
                        } else {
                            assert(cands@[pre.len() as int] == i2);
                        }
                    }
                }
            }
            i += 1;
        }
        proof {
            assert(cands@.no_duplicates());
        }
        let ghost before = cands@;
        shuffle_indices(&mut cands);
        proof {
            broadcast use vstd::seq_lib::group_to_multiset_ensures;

            before.lemma_multiset_has_no_duplicates();
            assert forall|x: usize| cands@.to_multiset().contains(x) implies cands@.to_multiset()
                .count(x) == 1 by {
                assert(before.to_multiset().contains(x));
            }
            cands@.lemma_multiset_has_no_duplicates_conv();
            assert forall|k: int|
                0 <= k < cands@.len() implies ((#[trigger] cands@[k]) as int)
                < self@.addresses[shard as int].len()
                && self@.addresses[shard as int][cands@[k] as int].role == role by {
                assert(cands@.contains(cands@[k]));
                assert(before.to_multiset().count(cands@[k]) > 0);
                assert(before.contains(cands@[k]));
                let k0 = choose|k0: int| 0 <= k0 < before.len() && before[k0] == cands@[k];
                assert(before[k0] == cands@[k]);
            }
            assert forall|i2: usize|
                (i2 as int) < self@.addresses[shard as int].len()
                    && self@.addresses[shard as int][i2 as int].role == role implies cands@
                .contains(i2) by {
                assert(before.contains(i2));
                assert(cands@.to_multiset().count(i2) > 0);
            }
        }
        if self.get_settings().load_balancing_mode == LoadBalancingMode::LeastOutstandingConnections {
            let ghost shuffled = cands@;
            self.sort_candidates_by_busy(shard, &mut cands);
            proof {
                assert forall|k: int|
                    0 <= k < cands@.len() implies ((#[trigger] cands@[k]) as int)
                    < self@.addresses[shard as int].len()
                    && self@.addresses[shard as int][cands@[k] as int].role == role by {
                    assert(cands@.contains(cands@[k]));
                    assert(shuffled.contains(cands@[k]));
                    let k0 = choose|k0: int|
                        0 <= k0 < shuffled.len() && shuffled[k0] == cands@[k];
                    assert(shuffled[k0] == cands@[k]);
                }
            }
        }
        Acquisition { shard, role, candidates: cands }
    }

    /// Stable ordering step for least-outstanding-connections balancing:
    /// sort candidate indices so busy counts are non-increasing.
    fn sort_candidates_by_busy(&self, shard: usize, cands: &mut Vec<usize>)
        requires
            self@.wf(),
            (shard as int) < self@.addresses.len(),
            forall|k: int|
                0 <= k < old(cands)@.len() ==> ((#[trigger] old(cands)@[k]) as int)
                    < self@.addresses[shard as int].len(),
        ensures
            final(cands)@.len() == old(cands)@.len(),
            final(cands)@.to_multiset() == old(cands)@.to_multiset(),
            forall|k: int|
                0 <= k < final(cands)@.len() ==> ((#[trigger] final(cands)@[k]) as int)
                    < self@.addresses[shard as int].len(),
            sorted_by_busy_desc(self@, shard as int, final(cands)@),
            old(cands)@.no_duplicates() ==> final(cands)@.no_duplicates(),
            forall|i2: usize| old(cands)@.contains(i2) ==> final(cands)@.contains(i2),
            forall|i2: usize| #[trigger] final(cands)@.contains(i2) ==> old(cands)@.contains(i2),
    {
        let ghost orig = cands@;
        let len = cands.len();
        let mut t: usize = 1;
        while t < len || (len == 0 && t < 1)
            invariant
                self@.wf(),
                (shard as int) < self@.addresses.len(),
                len == cands@.len(),
                1 <= t,
                len > 0 ==> t <= len,
                cands@.to_multiset() == orig.to_multiset(),
                forall|k: int|
                    0 <= k < cands@.len() ==> ((#[trigger] cands@[k]) as int)
                        < self@.addresses[shard as int].len(),
                forall|k1: int, k2: int|
                    0 <= k1 < k2 < t && k2 < len ==> busy_of(self@, shard as int, #[trigger] cands@[k1] as int)
                        >= busy_of(self@, shard as int, #[trigger] cands@[k2] as int),
            decreases len - t,
        {
            let mut u: usize = t;
            while u > 0 && self.busy_at(shard, cands[u - 1]) < self.busy_at(shard, cands[u])
                invariant
                    self@.wf(),
                    (shard as int) < self@.addresses.len(),
                    len == cands@.len(),
                    t < len,
                    0 <= u <= t,
                    cands@.to_multiset() == orig.to_multiset(),
                    forall|k: int|
                        0 <= k < cands@.len() ==> ((#[trigger] cands@[k]) as int)
                            < self@.addresses[shard as int].len(),
                    forall|k1: int, k2: int|
                        0 <= k1 < k2 <= t && k2 != u ==> busy_of(
                            self@,
                            shard as int,
                            #[trigger] cands@[k1] as int,
                        ) >= busy_of(self@, shard as int, #[trigger] cands@[k2] as int),
                decreases u,
            {
                let ghost pre = cands@;
                let a = cands[u - 1];
                let b = cands[u];
                cands[u - 1] = b;
                cands[u] = a;
                proof {
                    assert(cands@ =~= pre.update(u - 1, pre[u as int]).update(
                        u as int,
                        pre[u - 1],
                    ));
                    lemma_swap_multiset(pre, cands@, u - 1, u as int);
                }
                u -= 1;
            }
            t += 1;
        }
        proof {
            assert(sorted_by_busy_desc(self@, shard as int, cands@));
            if orig.no_duplicates() {
                orig.lemma_multiset_has_no_duplicates();
                broadcast use vstd::seq_lib::group_to_multiset_ensures;

                assert forall|x: usize| cands@.to_multiset().contains(x) implies cands@
                    .to_multiset().count(x) == 1 by {
                    assert(orig.to_multiset().contains(x));
                }
                cands@.lemma_multiset_has_no_duplicates_conv();
            }
            assert forall|i2: usize| orig.contains(i2) implies cands@.contains(i2) by {
                broadcast use vstd::seq_lib::group_to_multiset_ensures;

                assert(orig.to_multiset().count(i2) > 0);
            }
            assert forall|i2: usize| #[trigger] cands@.contains(i2) implies orig.contains(i2) by {
                broadcast use vstd::seq_lib::group_to_multiset_ensures;

                assert(cands@.to_multiset().count(i2) > 0);
            }
        }
    }

    /// Try the next candidate at time `now`. Pops the tail candidate; a
    /// banned candidate goes through the unban rules and is either skipped or
    /// attempted with a forced health check.
    pub fn acquire_step(&mut self, acq: &mut Acquisition, now: i64) -> (r: NextStep)
        requires
            old(self)@.wf(),
            candidates_ok(old(self)@, old(acq)@),
        ensures
            final(self)@.wf(),
            final(acq)@.shard == old(acq)@.shard,
            final(acq)@.role == old(acq)@.role,
            candidates_ok(final(self)@, final(acq)@),
            final(self)@.addresses == old(self)@.addresses,
            final(self)@.databases == old(self)@.databases,
            final(self)@.settings == old(self)@.settings,
            old(acq)@.candidates.len() == 0 ==> r == NextStep::Exhausted && final(self)@ == old(
                self,
            )@ && final(acq)@ == old(acq)@,
            old(acq)@.candidates.len() > 0 ==> {
                let i = old(acq)@.candidates.last();
                let s = old(acq)@.shard as int;
                let a = old(self)@.addresses[s][i as int];
                &&& final(acq)@.candidates == old(acq)@.candidates.drop_last()
                &&& (!old(self)@.banned_spec(a) ==> r == (NextStep::Attempt {
                    server: i,
                    force_healthcheck: false,
                }) && final(self)@ == old(self)@)
                &&& (old(self)@.banned_spec(a) && old(self)@.all_replicas_banned(s) ==> r
                    == (NextStep::Attempt { server: i, force_healthcheck: true }) && final(self)@
                    == old(self)@.with_cleared(s))
                &&& (old(self)@.banned_spec(a) && !old(self)@.all_replicas_banned(s) ==> {
                    let t0 = old(self)@.banlist[s][i as int]->0;
                    if now - t0 > old(self)@.settings.ban_time {
                        r == (NextStep::Attempt { server: i, force_healthcheck: true })
                            && final(self)@ == old(self)@.with_unban(s, i as int)
                    } else {
                        r == NextStep::Skip && final(self)@ == old(self)@
                    }
                })
            },
    {
        let next = acq.candidates.pop();
        match next {
            None => NextStep::Exhausted,
            Some(i) => {
                let addr = self.address(acq.shard, i).duplicate();
                proof {
                    assert(self@.has_address(addr@));
                }
                if self.is_banned(&addr) {
                    proof {
                        assert(addr@.role == Role::Replica);
                    }
                    if self.try_unban_at(&addr, now) {
                        NextStep::Attempt { server: i, force_healthcheck: true }
                    } else {
                        NextStep::Skip
                    }
                } else {
                    NextStep::Attempt { server: i, force_healthcheck: false }
                }
            },
        }
    }
}

proof fn lemma_swap_multiset(pre: Seq<usize>, post: Seq<usize>, a: int, b: int)
    requires
        0 <= a < b < pre.len(),
        post =~= pre.update(a, pre[b]).update(b, pre[a]),
    ensures
        post.to_multiset() == pre.to_multiset(),
{
    broadcast use vstd::seq_lib::group_to_multiset_ensures;
    broadcast use vstd::multiset::group_multiset_axioms;

    let s1 = pre.update(a, pre[b]);
    assert(s1[b] == pre[b]);
    assert(s1.to_multiset() == pre.to_multiset().insert(pre[b]).remove(pre[a]));
    assert(post.to_multiset() == s1.to_multiset().insert(pre[a]).remove(s1[b]));
    assert(post.to_multiset() =~= pre.to_multiset());
}

/// Whether this trial needs a health check: it was forced by an unban, or
/// the session has been idle longer than the health-check delay.
pub fn needs_healthcheck(force: bool, elapsed_ms: u128, delay_ms: u64) -> (r: bool)
    ensures
        r == (force || elapsed_ms > delay_ms as u128),
{
    force || elapsed_ms > delay_ms as u128
}

} // verus!
