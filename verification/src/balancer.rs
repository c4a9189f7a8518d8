//! The retry-aware load balancer.
//!
//! Targets are chosen round-robin, uniformly at random, or by least active
//! connections (ties to the earliest-registered backend). A failed response
//! may be retried on a backend that has not failed this request yet, paid
//! for from a token bucket: every fresh arrival earns
//! `retry_budget_ratio_milli` thousandths of a token, a retry costs a whole
//! token, and the balance never exceeds `retry_budget_max_tokens_milli`.
//! That bound — the budget stays within `[0, maximum]` — is an invariant of
//! every operation here.
use vstd::prelude::*;
use crate::assoc::{assoc_has, assoc_same_except, assoc_val, keys_unique, assoc_find_u32,
    assoc_find_u128, lemma_assoc_push, lemma_assoc_remove, lemma_assoc_same_except_trans,
    lemma_assoc_update, lemma_assoc_val_at};
use crate::events::{Event, EventType, RequestId, ScheduleCmd};
use crate::inspector::SystemInspector;
use crate::network::NodeId;
use crate::rng::{rng_below, rng_from_seed};
use crate::server::{sat_inc, trimmed_window};

verus! {

/// How the next backend is chosen.
#[derive(Clone, Copy, Debug, PartialEq, Eq, Structural)]
pub enum BalancingStrategy {
    /// Walk the registered backends in order.
    RoundRobin,
    /// Draw one uniformly among the eligible backends.
    Random,
    /// The eligible backend with the fewest active connections; ties go to
    /// the earliest registered.
    LeastConnections,
}

/// How long a retry waits before it is sent.
#[derive(Clone, Copy, Debug, PartialEq, Eq, Structural)]
pub enum RetryStrategy {
    /// No delay at all.
    Immediate,
    /// The configured backoff, plus about ten percent of jitter.
    Constant,
    /// The backoff doubled for every retry already made, plus jitter.
    Exponential,
}

/// Ceiling on the retry backoff, in milliseconds (one hour).
pub const MAX_BACKOFF_MS: u64 = 3_600_000;

/// Ceiling on the per-request budget refill: one thousand tokens, in
/// thousandths.
pub const MAX_RATIO_MILLI: u64 = 1_000_000;

/// Ceiling on the token bucket: a billion tokens, in thousandths.
pub const MAX_TOKENS_MILLI: u64 = 1_000_000_000_000;

/// Ceiling on retries per request.
pub const MAX_RETRIES_CAP: u32 = 1_000_000;

/// Ceiling on registered backends.
pub const MAX_TARGETS: usize = 1_000_000;

/// One retry token, in thousandths.
pub const TOKEN_MILLI: u64 = 1_000;

/// How long a reconfigured balancer stays in maintenance, in
/// microseconds.
pub const MAINTENANCE_US: u64 = 500_000;

/// Configuration of a load balancer.
pub struct LoadBalancerConfig {
    pub strategy: BalancingStrategy,
    /// Retries allowed per request beyond the first attempt.
    pub max_retries: u32,
    /// Base delay between retries, in milliseconds.
    pub retry_backoff_ms: u64,
    pub retry_strategy: RetryStrategy,
    /// Budget earned per fresh arrival, in thousandths of a token.
    pub retry_budget_ratio_milli: u64,
    /// Floor on the retry rate regardless of traffic (advisory; carried in
    /// the configuration round trip).
    pub min_retry_rate: u32,
    /// Burst bound of the token bucket, in thousandths of a token.
    pub retry_budget_max_tokens_milli: u64,
}

impl LoadBalancerConfig {
    pub open spec fn wf(&self) -> bool {
        &&& self.max_retries <= MAX_RETRIES_CAP
        &&& self.retry_backoff_ms <= MAX_BACKOFF_MS
        &&& self.retry_budget_ratio_milli <= MAX_RATIO_MILLI
        &&& self.retry_budget_max_tokens_milli <= MAX_TOKENS_MILLI
    }

    /// The value of `clamped`, as a specification.
    pub open spec fn clamped_spec(&self) -> LoadBalancerConfig {
        LoadBalancerConfig {
            strategy: self.strategy,
            max_retries: if self.max_retries > MAX_RETRIES_CAP {
                MAX_RETRIES_CAP
            } else {
                self.max_retries
            },
            retry_backoff_ms: if self.retry_backoff_ms > MAX_BACKOFF_MS {
                MAX_BACKOFF_MS
            } else {
                self.retry_backoff_ms
            },
            retry_strategy: self.retry_strategy,
            retry_budget_ratio_milli: if self.retry_budget_ratio_milli > MAX_RATIO_MILLI {
                MAX_RATIO_MILLI
            } else {
                self.retry_budget_ratio_milli
            },
            min_retry_rate: self.min_retry_rate,
            retry_budget_max_tokens_milli: if self.retry_budget_max_tokens_milli
                > MAX_TOKENS_MILLI {
                MAX_TOKENS_MILLI
            } else {
                self.retry_budget_max_tokens_milli
            },
        }
    }

    /// The same configuration with every field forced into range.
    pub fn clamped(&self) -> (r: Self)
        ensures
            r.wf(),
            self.wf() ==> r == *self,
            r == self.clamped_spec(),
    {
        LoadBalancerConfig {
            strategy: self.strategy,
            max_retries: if self.max_retries > MAX_RETRIES_CAP {
                MAX_RETRIES_CAP
            } else {
                self.max_retries
            },
            retry_backoff_ms: if self.retry_backoff_ms > MAX_BACKOFF_MS {
                MAX_BACKOFF_MS
            } else {
                self.retry_backoff_ms
            },
            retry_strategy: self.retry_strategy,
            retry_budget_ratio_milli: if self.retry_budget_ratio_milli > MAX_RATIO_MILLI {
                MAX_RATIO_MILLI
            } else {
                self.retry_budget_ratio_milli
            },
            min_retry_rate: self.min_retry_rate,
            retry_budget_max_tokens_milli: if self.retry_budget_max_tokens_milli
                > MAX_TOKENS_MILLI {
                MAX_TOKENS_MILLI
            } else {
                self.retry_budget_max_tokens_milli
            },
        }
    }
}

impl Clone for LoadBalancerConfig {
    fn clone(&self) -> (r: Self)
        ensures
            r == *self,
    {
        LoadBalancerConfig {
            strategy: self.strategy,
            max_retries: self.max_retries,
            retry_backoff_ms: self.retry_backoff_ms,
            retry_strategy: self.retry_strategy,
            retry_budget_ratio_milli: self.retry_budget_ratio_milli,
            min_retry_rate: self.min_retry_rate,
            retry_budget_max_tokens_milli: self.retry_budget_max_tokens_milli,
        }
    }
}

impl Default for LoadBalancerConfig {
    /// Round robin, two retries at 50 ms constant backoff, a fifth of a
    /// token per request, ten tokens of burst.
    fn default() -> (r: Self)
        ensures
            r == (LoadBalancerConfig {
                strategy: BalancingStrategy::RoundRobin,
                max_retries: 2,
                retry_backoff_ms: 50,
                retry_strategy: RetryStrategy::Constant,
                retry_budget_ratio_milli: 200,
                min_retry_rate: 10,
                retry_budget_max_tokens_milli: 10_000,
            }),
            r.wf(),
    {
        LoadBalancerConfig {
            strategy: BalancingStrategy::RoundRobin,
            max_retries: 2,
            retry_backoff_ms: 50,
            retry_strategy: RetryStrategy::Constant,
            retry_budget_ratio_milli: 200,
            min_retry_rate: 10,
            retry_budget_max_tokens_milli: 10_000,
        }
    }
}

/// Per-request retry bookkeeping.
pub struct RetryState {
    /// Retries already made for this request.
    pub retry_count: u32,
    /// Backends that already failed this request; never retried again.
    pub failed_targets: Vec<NodeId>,
}

/// The load on backend `t`: its entry in the table, or zero.
pub open spec fn load_of(loads: Seq<(NodeId, u32)>, t: NodeId) -> u32 {
    if assoc_has(loads, t) {
        assoc_val(loads, t)
    } else {
        0
    }
}

/// The next index in a cyclic walk of `len` slots.
pub open spec fn wrap_next(len: int, idx: int) -> int {
    if idx + 1 >= len {
        0
    } else {
        idx + 1
    }
}

/// `targets[k]` is a backend that the snapshot calls healthy and that is
/// not excluded.
pub open spec fn eligible(
    targets: Seq<NodeId>,
    insp: SystemInspector,
    excl: Seq<NodeId>,
    k: int,
) -> bool {
    &&& 0 <= k < targets.len()
    &&& insp.spec_is_healthy(targets[k])
    &&& !excl.contains(targets[k])
}

/// Cyclic scan: the first index, starting at `idx` and wrapping, whose
/// target is eligible under the snapshot and exclusions; `None` once
/// `fuel` slots were tried.
pub open spec fn rr_search(
    targets: Seq<NodeId>,
    insp: SystemInspector,
    excl: Seq<NodeId>,
    idx: int,
    fuel: nat,
) -> Option<int>
    decreases fuel,
{
    if fuel == 0 || targets.len() == 0 {
        Option::None
    } else if eligible(targets, insp, excl, idx) {
        Option::Some(idx)
    } else {
        rr_search(targets, insp, excl, wrap_next(targets.len() as int, idx), (fuel - 1) as nat)
    }
}

/// Distance from `start` forward (wrapping) to `k`, in a cycle of `len`.
pub open spec fn cyclic_dist(len: int, start: int, k: int) -> int {
    if k >= start {
        k - start
    } else {
        k + len - start
    }
}

/// A cyclic scan with enough fuel to reach an eligible index finds some
/// index.
pub proof fn lemma_rr_search_complete(
    targets: Seq<NodeId>,
    insp: SystemInspector,
    excl: Seq<NodeId>,
    start: int,
    fuel: nat,
    k: int,
)
    requires
        0 <= start < targets.len(),
        eligible(targets, insp, excl, k),
        fuel > cyclic_dist(targets.len() as int, start, k),
    ensures
        rr_search(targets, insp, excl, start, fuel) is Some,
    decreases fuel,
{
    if eligible(targets, insp, excl, start) {
    } else {
        assert(start != k);
        lemma_rr_search_complete(
            targets,
            insp,
            excl,
            wrap_next(targets.len() as int, start),
            (fuel - 1) as nat,
            k,
        );
    }
}

/// The retry-aware load balancer.
pub struct LoadBalancer {
    pub name: String,
    pub config: LoadBalancerConfig,
    /// Registered backends, in registration order, no duplicates.
    pub targets: Vec<NodeId>,
    /// Where the next round-robin walk starts.
    pub next_rr_idx: usize,
    /// Active connections per backend.
    pub active_loads: Vec<(NodeId, u32)>,
    pub rng: rand::rngs::StdRng,
    /// Timestamps of the arrivals of the last second.
    pub arrival_window: Vec<u64>,
    pub is_healthy: bool,
    /// The backend each in-flight request is currently on.
    pub state_table: Vec<(RequestId, NodeId)>,
    /// Retry bookkeeping for requests that have failed at least once and
    /// are being retried.
    pub in_flight_retries: Vec<(RequestId, RetryState)>,
    /// Retries performed since the last reset.
    pub total_retries: u64,
    /// The token bucket, in thousandths of a token.
    pub retry_token_balance_milli: u64,
    /// How many tracked requests have come back failed with no retry
    /// bookkeeping yet: the "first failures" that open retry chains.
    pub first_failures: Ghost<nat>,
}

/// What the load balancer shows the outside world.
pub struct LoadBalancerView {
    /// Arrivals within the last second.
    pub rps: u64,
    pub strategy: BalancingStrategy,
    pub targets: Vec<NodeId>,
    /// Active connections per registered backend, in registration order.
    pub loads: Vec<(NodeId, u32)>,
    /// Requests this balancer itself refused (always zero: refusals are
    /// counted at the servers and the run's failure counter).
    pub failed_count: u64,
    pub total_retries: u64,
    /// Requests currently under retry bookkeeping.
    pub active_retries: u64,
    pub max_retries: u32,
    pub retry_backoff_ms: u64,
}

impl LoadBalancer {
    /// Structural soundness: unique keys everywhere, a round-robin cursor
    /// inside the target list, and the token bucket within its burst
    /// bound.
    pub open spec fn inv(&self) -> bool {
        &&& self.config.wf()
        &&& keys_unique(self.active_loads@)
        &&& keys_unique(self.state_table@)
        &&& keys_unique(self.in_flight_retries@)
        &&& forall|i: int, j: int|
            0 <= i < j < self.targets@.len() ==> self.targets@[i] != self.targets@[j]
        &&& self.targets@.len() <= MAX_TARGETS
        &&& (self.targets@.len() > 0 ==> self.next_rr_idx < self.targets@.len())
        &&& (self.targets@.len() == 0 ==> self.next_rr_idx == 0)
        &&& self.retry_token_balance_milli <= self.config.retry_budget_max_tokens_milli
    }

    pub fn new(name: String) -> (r: Self)
        ensures
            r.inv(),
            r.config == (LoadBalancerConfig {
                strategy: BalancingStrategy::RoundRobin,
                max_retries: 2,
                retry_backoff_ms: 50,
                retry_strategy: RetryStrategy::Constant,
                retry_budget_ratio_milli: 200,
                min_retry_rate: 10,
                retry_budget_max_tokens_milli: 10_000,
            }),
            r.targets@.len() == 0,
            r.active_loads@.len() == 0,
            r.state_table@.len() == 0,
            r.in_flight_retries@.len() == 0,
            r.total_retries == 0,
            r.retry_token_balance_milli == r.config.retry_budget_max_tokens_milli,
            r.is_healthy,
            r.first_failures@ == 0,
            r.name == name,
    {
        LoadBalancer {
            name,
            config: LoadBalancerConfig::default(),
            targets: Vec::new(),
            next_rr_idx: 0,
            active_loads: Vec::new(),
            rng: rng_from_seed(0),
            arrival_window: Vec::new(),
            is_healthy: true,
            state_table: Vec::new(),
            in_flight_retries: Vec::new(),
            total_retries: 0,
            retry_token_balance_milli: 10_000,
            first_failures: Ghost(0),
        }
    }
}

impl LoadBalancer {
    /// Pick a backend among the healthy, non-excluded targets, by the
    /// given strategy.
    ///
    /// Round robin walks cyclically from the cursor and advances it past
    /// the pick, so exclusions are skipped without losing the rotation.
    /// Least-connections picks the least-loaded eligible backend,
    /// earliest-registered on ties. Random draws uniformly. `None` exactly
    /// when no target is eligible.
    pub fn select_target(
        &mut self,
        strategy: BalancingStrategy,
        inspector: &SystemInspector,
        exclusions: &Vec<NodeId>,
    ) -> (r: Option<NodeId>)
        requires
            old(self).inv(),
            inspector.wf(),
        ensures
            final(self).inv(),
            *final(self) == (LoadBalancer {
                next_rr_idx: final(self).next_rr_idx,
                rng: final(self).rng,
                ..*old(self)
            }),
            r is None <==> !exists|k: int|
                eligible(old(self).targets@, *inspector, exclusions@, k),
            r matches Option::Some(t) ==> exists|k: int|
                #[trigger] eligible(old(self).targets@, *inspector, exclusions@, k) && old(self).targets@[k] == t,
            !(strategy is RoundRobin) ==> final(self).next_rr_idx == old(self).next_rr_idx,
            strategy is RoundRobin ==> {
                match rr_search(
                    old(self).targets@,
                    *inspector,
                    exclusions@,
                    old(self).next_rr_idx as int,
                    old(self).targets@.len(),
                ) {
                    Option::None => r is None && final(self).next_rr_idx == old(self).next_rr_idx,
                    Option::Some(idx) => r == Option::Some(old(self).targets@[idx]) && final(self).next_rr_idx == wrap_next(old(self).targets@.len() as int, idx),
                }
            },
            strategy is LeastConnections ==> (r matches Option::Some(t)
                ==> exists|i: int|
                {
                    &&& #[trigger] eligible(old(self).targets@, *inspector, exclusions@, i)
                    &&& old(self).targets@[i] == t
                    &&& forall|k: int|
                        eligible(old(self).targets@, *inspector, exclusions@, k) ==> load_of(
                            old(self).active_loads@,
                            t,
                        ) <= load_of(old(self).active_loads@, #[trigger] old(self).targets@[k])
                    &&& forall|k: int|
                        0 <= k < i && eligible(old(self).targets@, *inspector, exclusions@, k)
                            ==> load_of(old(self).active_loads@, #[trigger] old(self).targets@[k])
                            > load_of(old(self).active_loads@, t)
                }),
    {
        let n = self.targets.len();
        if n == 0 {
            return Option::None;
        }
        match strategy {
            BalancingStrategy::RoundRobin => {
                let start = self.next_rr_idx;
                let mut idx = start;
                let mut tried: usize = 0;
                while tried < n
                    invariant
                        strategy is RoundRobin,
                        self == old(self),
                        n == self.targets@.len(),
                        0 < n <= MAX_TARGETS,
                        self.inv(),
                        inspector.wf(),
                        idx < n,
                        tried <= n,
                        start == self.next_rr_idx,
                        rr_search(self.targets@, *inspector, exclusions@, start as int, n as nat)
                            == rr_search(
                            self.targets@,
                            *inspector,
                            exclusions@,
                            idx as int,
                            (n - tried) as nat,
                        ),
                    decreases n - tried,
                {
                    let t = self.targets[idx];
                    if inspector.is_node_healthy(t) && !vec_contains(exclusions, t) {
                        proof {
                            assert(eligible(self.targets@, *inspector, exclusions@, idx as int));
                            assert(rr_search(
                                self.targets@,
                                *inspector,
                                exclusions@,
                                idx as int,
                                (n - tried) as nat,
                            ) == Option::Some(idx as int));
                        }
                        self.next_rr_idx = if idx + 1 >= n {
                            0
                        } else {
                            idx + 1
                        };
                        return Option::Some(t);
                    }
                    proof {
                        assert(!eligible(self.targets@, *inspector, exclusions@, idx as int));
                        assert(rr_search(
                            self.targets@,
                            *inspector,
                            exclusions@,
                            idx as int,
                            (n - tried) as nat,
                        ) == rr_search(
                            self.targets@,
                            *inspector,
                            exclusions@,
                            wrap_next(n as int, idx as int),
                            (n - tried - 1) as nat,
                        ));
                    }
                    idx = if idx + 1 >= n {
                        0
                    } else {
                        idx + 1
                    };
                    tried += 1;
                }
                proof {
                    assert(rr_search(
                        self.targets@,
                        *inspector,
                        exclusions@,
                        start as int,
                        n as nat,
                    ) is None);
                    assert forall|k: int| !eligible(self.targets@, *inspector, exclusions@, k) by {
                        if eligible(self.targets@, *inspector, exclusions@, k) {
                            lemma_rr_search_complete(
                                self.targets@,
                                *inspector,
                                exclusions@,
                                start as int,
                                n as nat,
                                k,
                            );
                        }
                    }
                }
                Option::None
            },
            BalancingStrategy::Random => {
                let mut filtered: Vec<NodeId> = Vec::new();
                let mut k: usize = 0;
                while k < n
                    invariant
                        strategy is Random,
                        self == old(self),
                        n == self.targets@.len(),
                        self.inv(),
                        inspector.wf(),
                        k <= n,
                        forall|m: int|
                            0 <= m < filtered@.len() ==> inspector.spec_is_healthy(
                                #[trigger] filtered@[m],
                            ) && !exclusions@.contains(filtered@[m]) && self.targets@.contains(
                                filtered@[m],
                            ),
                        (exists|i: int|
                            0 <= i < k && eligible(self.targets@, *inspector, exclusions@, i))
                            ==> filtered@.len() > 0,
                    decreases n - k,
                {
                    let t = self.targets[k];
                    if inspector.is_node_healthy(t) && !vec_contains(exclusions, t) {
                        proof {
                            assert(eligible(self.targets@, *inspector, exclusions@, k as int));
                            assert(self.targets@.contains(t));
                        }
                        filtered.push(t);
                    }
                    k += 1;
                }
                if filtered.len() == 0 {
                    proof {
                        assert forall|i: int|
                            !eligible(self.targets@, *inspector, exclusions@, i) by {
                            if eligible(self.targets@, *inspector, exclusions@, i) {
                                assert(0 <= i < n);
                            }
                        }
                    }
                    return Option::None;
                }
                let pick = rng_below(&mut self.rng, filtered.len() as u64) as usize;
                let chosen = filtered[pick];
                proof {
                    assert(self.targets@.contains(chosen));
                    let i = choose|i: int|
                        0 <= i < self.targets@.len() && self.targets@[i] == chosen;
                    assert(eligible(self.targets@, *inspector, exclusions@, i));
                }
                Option::Some(chosen)
            },
            BalancingStrategy::LeastConnections => {
                let mut best: Option<NodeId> = Option::None;
                let mut best_load: u32 = 0;
                let ghost mut best_at: int = 0int;
                let mut k: usize = 0;
                while k < n
                    invariant
                        strategy is LeastConnections,
                        self == old(self),
                        n == self.targets@.len(),
                        self.inv(),
                        inspector.wf(),
                        k <= n,
                        best is None ==> forall|i: int|
                            0 <= i < k ==> !eligible(self.targets@, *inspector, exclusions@, i),
                        best matches Option::Some(b) ==> {
                            &&& 0 <= best_at < k
                            &&& eligible(self.targets@, *inspector, exclusions@, best_at)
                            &&& self.targets@[best_at] == b
                            &&& best_load == load_of(self.active_loads@, b)
                            &&& forall|i: int|
                                0 <= i < k && eligible(self.targets@, *inspector, exclusions@, i)
                                    ==> load_of(
                                    self.active_loads@,
                                    #[trigger] self.targets@[i],
                                ) >= best_load
                            &&& forall|i: int|
                                0 <= i < best_at && eligible(
                                    self.targets@,
                                    *inspector,
                                    exclusions@,
                                    i,
                                ) ==> load_of(self.active_loads@, #[trigger] self.targets@[i])
                                    > best_load
                        },
                    decreases n - k,
                {
                    let t = self.targets[k];
                    if inspector.is_node_healthy(t) && !vec_contains(exclusions, t) {
                        let l = self.load_of_exec(t);
                        proof {
                            assert(eligible(self.targets@, *inspector, exclusions@, k as int));
                        }
                        match best {
                            Option::None => {
                                best = Option::Some(t);
                                best_load = l;
                                proof {
                                    best_at = k as int;
                                }
                            },
                            Option::Some(_) => {
                                if l < best_load {
                                    best = Option::Some(t);
                                    best_load = l;
                                    proof {
                                        best_at = k as int;
                                    }
                                }
                            },
                        }
                    }
                    k += 1;
                }
                best
            },
        }
    }

    /// The tracked load of backend `t`.
    fn load_of_exec(&self, t: NodeId) -> (r: u32)
        requires
            keys_unique(self.active_loads@),
        ensures
            r == load_of(self.active_loads@, t),
    {
        match assoc_find_u32(&self.active_loads, t) {
            Option::Some(i) => {
                let l = self.active_loads[i].1;
                proof {
                    lemma_assoc_val_at(self.active_loads@, t, i as int);
                }
                l
            },
            Option::None => 0,
        }
    }
}

/// Retry capacity an open chain still has: how many more retries its
/// request may get.
pub open spec fn slack(st: RetryState, max: u32) -> int {
    if st.retry_count <= max {
        max - st.retry_count
    } else {
        0
    }
}

/// Total remaining retry capacity over all open chains.
pub open spec fn slack_sum(s: Seq<(RequestId, RetryState)>, max: u32) -> int
    decreases s.len(),
{
    if s.len() == 0 {
        0
    } else {
        slack(s[0].1, max) + slack_sum(s.drop_first(), max)
    }
}

pub proof fn lemma_slack_sum_nonneg(s: Seq<(RequestId, RetryState)>, max: u32)
    ensures
        slack_sum(s, max) >= 0,
    decreases s.len(),
{
    if s.len() > 0 {
        lemma_slack_sum_nonneg(s.drop_first(), max);
    }
}

pub proof fn lemma_slack_sum_push(s: Seq<(RequestId, RetryState)>, max: u32, e: (RequestId, RetryState))
    ensures
        slack_sum(s.push(e), max) == slack_sum(s, max) + slack(e.1, max),
    decreases s.len(),
{
    if s.len() == 0 {
        assert(s.push(e).drop_first() =~= s);
    } else {
        assert(s.push(e).drop_first() =~= s.drop_first().push(e));
        lemma_slack_sum_push(s.drop_first(), max, e);
    }
}

pub proof fn lemma_slack_sum_remove(s: Seq<(RequestId, RetryState)>, max: u32, i: int)
    requires
        0 <= i < s.len(),
    ensures
        slack_sum(s.remove(i), max) == slack_sum(s, max) - slack(s[i].1, max),
    decreases s.len(),
{
    if i == 0 {
        assert(s.remove(0) =~= s.drop_first());
    } else {
        assert(s.remove(i).drop_first() =~= s.drop_first().remove(i - 1));
        lemma_slack_sum_remove(s.drop_first(), max, i - 1);
    }
}

impl LoadBalancer {
    /// The retry ledger: every retry performed is covered by the capacity
    /// that first failures opened, so
    /// `total_retries <= max_retries * first_failures` with room for the
    /// chains still open.
    pub open spec fn retry_accounting(&self) -> bool {
        self.total_retries + slack_sum(self.in_flight_retries@, self.config.max_retries)
            <= self.config.max_retries * self.first_failures@
    }

    /// One more active connection on `t`; other backends untouched.
    fn bump_load(&mut self, t: NodeId)
        requires
            keys_unique(old(self).active_loads@),
        ensures
            keys_unique(final(self).active_loads@),
            *final(self) == (LoadBalancer {
                active_loads: final(self).active_loads,
                ..*old(self)
            }),
            load_of(final(self).active_loads@, t) == sat_inc32(
                load_of(old(self).active_loads@, t),
            ),
            forall|u: NodeId|
                u != t ==> load_of(final(self).active_loads@, u) == load_of(
                    old(self).active_loads@,
                    u,
                ),
    {
        let ghost pre = self.active_loads@;
        match assoc_find_u32(&self.active_loads, t) {
            Option::Some(i) => {
                proof {
                    lemma_assoc_val_at(pre, t, i as int);
                }
                let v = self.active_loads[i].1;
                let nv = if v < u32::MAX {
                    v + 1
                } else {
                    v
                };
                self.active_loads[i] = (t, nv);
                proof {
                    let post = self.active_loads@;
                    assert(post == pre.update(i as int, (t, nv)));
                    assert forall|j: int, l: int|
                        0 <= j < l < post.len() implies (#[trigger] post[j]).0 != (
                    #[trigger] post[l]).0 by {
                        assert(pre[j].0 == post[j].0 && pre[l].0 == post[l].0);
                    }
                    lemma_assoc_val_at(post, t, i as int);
                    assert forall|u: NodeId| u != t implies load_of(post, u) == load_of(
                        pre,
                        u,
                    ) by {
                        lemma_load_of_same_keys(pre, post, u);
                    }
                }
            },
            Option::None => {
                self.active_loads.push((t, 1));
                proof {
                    let post = self.active_loads@;
                    assert(post == pre.push((t, 1)));
                    lemma_assoc_val_at(post, t, post.len() - 1);
                    assert(sat_inc32(load_of(pre, t)) == 1);
                    assert forall|u: NodeId| u != t implies load_of(post, u) == load_of(
                        pre,
                        u,
                    ) by {
                        assert forall|j: int|
                            0 <= j < post.len() && (#[trigger] post[j]).0 == u implies 0 <= j
                            < pre.len() && pre[j] == post[j] by {}
                        if assoc_has(pre, u) {
                            let j = choose|j: int|
                                0 <= j < pre.len() && (#[trigger] pre[j]).0 == u;
                            assert(post[j].0 == u);
                            lemma_assoc_val_at(pre, u, j);
                            lemma_assoc_val_at(post, u, j);
                        } else {
                            assert(!assoc_has(post, u));
                        }
                    }
                }
            },
        }
    }

    /// One less active connection on `t` (never below zero); other
    /// backends untouched.
    fn dec_load(&mut self, t: NodeId)
        requires
            keys_unique(old(self).active_loads@),
        ensures
            keys_unique(final(self).active_loads@),
            *final(self) == (LoadBalancer {
                active_loads: final(self).active_loads,
                ..*old(self)
            }),
            load_of(final(self).active_loads@, t) == sat_dec32(
                load_of(old(self).active_loads@, t),
            ),
            forall|u: NodeId|
                u != t ==> load_of(final(self).active_loads@, u) == load_of(
                    old(self).active_loads@,
                    u,
                ),
    {
        let ghost pre = self.active_loads@;
        match assoc_find_u32(&self.active_loads, t) {
            Option::Some(i) => {
                proof {
                    lemma_assoc_val_at(pre, t, i as int);
                }
                let v = self.active_loads[i].1;
                let nv = if v > 0 {
                    v - 1
                } else {
                    0
                };
                self.active_loads[i] = (t, nv);
                proof {
                    let post = self.active_loads@;
                    assert forall|j: int, l: int|
                        0 <= j < l < post.len() implies (#[trigger] post[j]).0 != (
                    #[trigger] post[l]).0 by {
                        assert(pre[j].0 == post[j].0 && pre[l].0 == post[l].0);
                    }
                    lemma_assoc_val_at(post, t, i as int);
                    assert forall|u: NodeId| u != t implies load_of(post, u) == load_of(
                        pre,
                        u,
                    ) by {
                        lemma_load_of_same_keys(pre, post, u);
                    }
                }
            },
            Option::None => {
            },
        }
    }
}

/// `x + 1` within `u32`, stopping at the top.
pub open spec fn sat_inc32(x: u32) -> u32 {
    if x < u32::MAX {
        (x + 1) as u32
    } else {
        x
    }
}

/// `x - 1` within `u32`, stopping at zero.
pub open spec fn sat_dec32(x: u32) -> u32 {
    if x > 0 {
        (x - 1) as u32
    } else {
        0
    }
}

/// Two load tables with entry-wise equal keys and equal values at every
/// key but possibly `t` agree on every key but `t`; here they agree
/// everywhere their entries agree.
proof fn lemma_load_of_same_keys(pre: Seq<(NodeId, u32)>, post: Seq<(NodeId, u32)>, u: NodeId)
    requires
        pre.len() == post.len(),
        forall|j: int|
            0 <= j < pre.len() ==> (#[trigger] pre[j]).0 == (#[trigger] post[j]).0,
        keys_unique(pre),
        keys_unique(post),
        forall|j: int|
            0 <= j < pre.len() && (#[trigger] pre[j]).0 == u ==> pre[j] == post[j],
    ensures
        load_of(pre, u) == load_of(post, u),
{
    if assoc_has(pre, u) {
        let j = choose|j: int| 0 <= j < pre.len() && (#[trigger] pre[j]).0 == u;
        lemma_assoc_val_at(pre, u, j);
        lemma_assoc_val_at(post, u, j);
    } else {
        assert forall|j: int| 0 <= j < post.len() implies (#[trigger] post[j]).0 != u by {
            assert(pre[j].0 == post[j].0);
        }
        assert(!assoc_has(post, u));
    }
}

/// The token balance after one fresh arrival's refill: up by the ratio,
/// capped at the burst bound.
pub open spec fn lb_refill(pre: LoadBalancer) -> u64 {
    let b = pre.retry_token_balance_milli + pre.config.retry_budget_ratio_milli;
    if b > pre.config.retry_budget_max_tokens_milli {
        pre.config.retry_budget_max_tokens_milli
    } else {
        b as u64
    }
}

/// `a + b` within `u64`, stopping at the top.
pub open spec fn sat_add64(a: u64, b: u64) -> u64 {
    if a + b > u64::MAX {
        u64::MAX
    } else {
        (a + b) as u64
    }
}

/// The retry count already recorded for `rid`, or zero.
pub open spec fn prior_count(pre: LoadBalancer, rid: RequestId) -> u32 {
    if assoc_has(pre.in_flight_retries@, rid) {
        assoc_val(pre.in_flight_retries@, rid).retry_count
    } else {
        0
    }
}

/// The backends already failed for `rid`, or none.
pub open spec fn prior_failed(pre: LoadBalancer, rid: RequestId) -> Seq<NodeId> {
    if assoc_has(pre.in_flight_retries@, rid) {
        assoc_val(pre.in_flight_retries@, rid).failed_targets@
    } else {
        Seq::<NodeId>::empty()
    }
}

/// The base retry delay in microseconds, by strategy, saturated at
/// `u64::MAX`: zero, the backoff, or the backoff doubled per retry
/// already made.
pub open spec fn retry_base_spec(cfg: LoadBalancerConfig, count: u32) -> int {
    match cfg.retry_strategy {
        RetryStrategy::Immediate => 0,
        RetryStrategy::Constant => cfg.retry_backoff_ms * 1000,
        RetryStrategy::Exponential => {
            let b = cfg.retry_backoff_ms * 1000 * vstd::arithmetic::power2::pow2(
                (count - 1) as nat,
            );
            if b > u64::MAX {
                u64::MAX as int
            } else {
                b
            }
        },
    }
}

/// The delay of a retry: zero for `Immediate`; otherwise the base plus a
/// uniform jitter of about a tenth of it.
pub open spec fn retry_delay_ok(cfg: LoadBalancerConfig, count: u32, d: u64) -> bool {
    if cfg.retry_strategy is Immediate {
        d == 0
    } else {
        exists|jit: u64|
            #![trigger sat_add64(retry_base_spec(cfg, count) as u64, jit)]
            {
                let base = retry_base_spec(cfg, count) as u64;
                let cap = if base / 10 > 1 {
                    base / 10
                } else {
                    1u64
                };
                0 <= jit <= cap && d == sat_add64(base, jit)
            }
    }
}

/// The upstream forwarding shape: the path popped, and the response sent
/// on to the new last hop after the fixed processing overhead, if any hop
/// remains.
pub open spec fn lb_pop_forward(
    cmds: Seq<ScheduleCmd>,
    rid: RequestId,
    path: Seq<NodeId>,
    start: u64,
    success: bool,
    t_out: u64,
) -> bool {
    if path.len() >= 2 {
        cmds.len() == 1 && crate::server::is_response_cmd(
            cmds[0],
            path[path.len() - 2],
            rid,
            path.drop_last(),
            start,
            success,
            t_out,
            crate::PROCESS_OVERHEAD_US,
        )
    } else {
        cmds.len() == 0
    }
}

/// An arrival on an unhealthy balancer: the budget still refills, and the
/// request fails straight back upstream.
pub open spec fn lb_arrival_unhealthy(
    pre: LoadBalancer,
    post: LoadBalancer,
    cmds: Seq<ScheduleCmd>,
    time: u64,
    rid: RequestId,
    path: Seq<NodeId>,
    start: u64,
    t_out: u64,
) -> bool {
    &&& !pre.is_healthy
    &&& post == (LoadBalancer {
        retry_token_balance_milli: lb_refill(pre),
        arrival_window: post.arrival_window,
        ..pre
    })
    &&& post.arrival_window@ == trimmed_window(pre.arrival_window@, time)
    &&& if path.len() > 0 {
        cmds.len() == 1 && crate::server::is_failure_response(
            cmds[0],
            path.last(),
            rid,
            path,
            start,
            t_out,
        )
    } else {
        cmds.len() == 0
    }
}

/// An arrival that found no eligible backend: counted into the window,
/// budget refilled, failed back upstream.
pub open spec fn lb_arrival_no_backend(
    pre: LoadBalancer,
    post: LoadBalancer,
    cmds: Seq<ScheduleCmd>,
    insp: SystemInspector,
    time: u64,
    rid: RequestId,
    path: Seq<NodeId>,
    start: u64,
    t_out: u64,
) -> bool {
    &&& pre.is_healthy
    &&& !exists|k: int| eligible(pre.targets@, insp, Seq::<NodeId>::empty(), k)
    &&& post == (LoadBalancer {
        retry_token_balance_milli: lb_refill(pre),
        arrival_window: post.arrival_window,
        rng: post.rng,
        ..pre
    })
    &&& post.arrival_window@ == trimmed_window(pre.arrival_window@, time).push(time)
    &&& if path.len() > 0 {
        cmds.len() == 1 && crate::server::is_failure_response(
            cmds[0],
            path.last(),
            rid,
            path,
            start,
            t_out,
        )
    } else {
        cmds.len() == 0
    }
}

/// An arrival forwarded to an eligible backend `t`: the load on `t` goes
/// up, the request is tracked on `t`, the balancer appends itself to the
/// path, and round robin advances its cursor past the pick.
pub open spec fn lb_arrival_forwarded(
    pre: LoadBalancer,
    post: LoadBalancer,
    cmds: Seq<ScheduleCmd>,
    insp: SystemInspector,
    time: u64,
    node: NodeId,
    rid: RequestId,
    path: Seq<NodeId>,
    start: u64,
    t_out: u64,
) -> bool {
    exists|t: NodeId|
        {
            &&& pre.is_healthy
            &&& exists|k: int|
                #[trigger] eligible(pre.targets@, insp, Seq::<NodeId>::empty(), k)
                    && pre.targets@[k] == t
            &&& (pre.config.strategy is RoundRobin ==> match rr_search(
                pre.targets@,
                insp,
                Seq::<NodeId>::empty(),
                pre.next_rr_idx as int,
                pre.targets@.len(),
            ) {
                Option::None => false,
                Option::Some(idx) => t == pre.targets@[idx] && post.next_rr_idx == wrap_next(
                    pre.targets@.len() as int,
                    idx,
                ),
            })
            &&& (!(pre.config.strategy is RoundRobin) ==> post.next_rr_idx == pre.next_rr_idx)
            &&& post == (LoadBalancer {
                retry_token_balance_milli: lb_refill(pre),
                arrival_window: post.arrival_window,
                rng: post.rng,
                next_rr_idx: post.next_rr_idx,
                active_loads: post.active_loads,
                state_table: post.state_table,
                ..pre
            })
            &&& post.arrival_window@ == trimmed_window(pre.arrival_window@, time).push(time)
            &&& keys_unique(post.active_loads@)
            &&& load_of(post.active_loads@, t) == sat_inc32(load_of(pre.active_loads@, t))
            &&& forall|u: NodeId|
                u != t ==> load_of(post.active_loads@, u) == load_of(pre.active_loads@, u)
            &&& keys_unique(post.state_table@)
            &&& assoc_has(post.state_table@, rid)
            &&& assoc_val(post.state_table@, rid) == t
            &&& assoc_same_except(pre.state_table@, post.state_table@, rid)
            &&& cmds.len() == 1
            &&& (#[trigger] crate::server::is_arrival_cmd(
                cmds[0],
                t,
                rid,
                path.push(node),
                start,
                t_out,
                crate::PROCESS_OVERHEAD_US,
            ))
        }
}

/// A response for a request this balancer is not tracking: it just walks
/// on upstream.
pub open spec fn lb_response_untracked(
    pre: LoadBalancer,
    post: LoadBalancer,
    cmds: Seq<ScheduleCmd>,
    time: u64,
    rid: RequestId,
    path: Seq<NodeId>,
    start: u64,
    success: bool,
    t_out: u64,
) -> bool {
    &&& !assoc_has(pre.state_table@, rid)
    &&& post == (LoadBalancer { arrival_window: post.arrival_window, ..pre })
    &&& post.arrival_window@ == trimmed_window(pre.arrival_window@, time)
    &&& lb_pop_forward(cmds, rid, path, start, success, t_out)
}

/// A tracked response that ends the request here: load released, tracking
/// and retry bookkeeping dropped, the outcome forwarded upstream. A
/// failure with no retry left opens no new attempt but is remembered as a
/// first failure when it had no bookkeeping yet.
pub open spec fn lb_response_finished(
    pre: LoadBalancer,
    post: LoadBalancer,
    cmds: Seq<ScheduleCmd>,
    time: u64,
    rid: RequestId,
    path: Seq<NodeId>,
    start: u64,
    success: bool,
    t_out: u64,
) -> bool {
    &&& assoc_has(pre.state_table@, rid)
    &&& {
        let old_t = assoc_val(pre.state_table@, rid);
        &&& post == (LoadBalancer {
            arrival_window: post.arrival_window,
            active_loads: post.active_loads,
            state_table: post.state_table,
            in_flight_retries: post.in_flight_retries,
            first_failures: post.first_failures,
            rng: post.rng,
            next_rr_idx: post.next_rr_idx,
            ..pre
        })
        &&& post.arrival_window@ == trimmed_window(pre.arrival_window@, time)
        &&& keys_unique(post.active_loads@)
        &&& load_of(post.active_loads@, old_t) == sat_dec32(load_of(pre.active_loads@, old_t))
        &&& forall|u: NodeId|
            u != old_t ==> load_of(post.active_loads@, u) == load_of(pre.active_loads@, u)
        &&& keys_unique(post.state_table@)
        &&& !assoc_has(post.state_table@, rid)
        &&& assoc_same_except(pre.state_table@, post.state_table@, rid)
        &&& keys_unique(post.in_flight_retries@)
        &&& !assoc_has(post.in_flight_retries@, rid)
        &&& assoc_same_except(pre.in_flight_retries@, post.in_flight_retries@, rid)
        &&& post.first_failures@ == if !success && !assoc_has(pre.in_flight_retries@, rid) {
            pre.first_failures@ + 1
        } else {
            pre.first_failures@
        }
        &&& lb_pop_forward(cmds, rid, path, start, success, t_out)
    }
}

/// A tracked failure that is retried: a token is spent, the retry chain
/// grows, the failed backend is excluded, and the request is re-sent to a
/// fresh eligible backend after the strategy's backoff — with the path
/// kept, so the retried response returns here.
pub open spec fn lb_response_retried(
    pre: LoadBalancer,
    post: LoadBalancer,
    cmds: Seq<ScheduleCmd>,
    insp: SystemInspector,
    time: u64,
    rid: RequestId,
    path: Seq<NodeId>,
    start: u64,
    t_out: u64,
) -> bool {
    &&& assoc_has(pre.state_table@, rid)
    &&& prior_count(pre, rid) < pre.config.max_retries
    &&& pre.retry_token_balance_milli >= TOKEN_MILLI
    &&& {
        let old_t = assoc_val(pre.state_table@, rid);
        let excl = prior_failed(pre, rid).push(old_t);
        exists|new_t: NodeId|
            {
                &&& exists|k: int|
                    #[trigger] eligible(pre.targets@, insp, excl, k) && pre.targets@[k] == new_t
                &&& post == (LoadBalancer {
                    arrival_window: post.arrival_window,
                    active_loads: post.active_loads,
                    state_table: post.state_table,
                    in_flight_retries: post.in_flight_retries,
                    first_failures: post.first_failures,
                    rng: post.rng,
                    next_rr_idx: post.next_rr_idx,
                    retry_token_balance_milli: (pre.retry_token_balance_milli - TOKEN_MILLI) as u64,
                    total_retries: sat_inc(pre.total_retries),
                    ..pre
                })
                &&& post.arrival_window@ == trimmed_window(pre.arrival_window@, time)
                &&& keys_unique(post.active_loads@)
                &&& new_t != old_t
                &&& load_of(post.active_loads@, old_t) == sat_dec32(
                    load_of(pre.active_loads@, old_t),
                )
                &&& load_of(post.active_loads@, new_t) == sat_inc32(
                    load_of(pre.active_loads@, new_t),
                )
                &&& forall|u: NodeId|
                    u != old_t && u != new_t ==> load_of(post.active_loads@, u) == load_of(
                        pre.active_loads@,
                        u,
                    )
                &&& keys_unique(post.state_table@)
                &&& assoc_has(post.state_table@, rid)
                &&& assoc_val(post.state_table@, rid) == new_t
                &&& assoc_same_except(pre.state_table@, post.state_table@, rid)
                &&& keys_unique(post.in_flight_retries@)
                &&& assoc_has(post.in_flight_retries@, rid)
                &&& assoc_val(post.in_flight_retries@, rid).retry_count == prior_count(pre, rid)
                    + 1
                &&& assoc_val(post.in_flight_retries@, rid).failed_targets@ == prior_failed(
                    pre,
                    rid,
                ).push(old_t)
                &&& assoc_same_except(
                    pre.in_flight_retries@,
                    post.in_flight_retries@,
                    rid,
                )
                &&& post.first_failures@ == if assoc_has(pre.in_flight_retries@, rid) {
                    pre.first_failures@
                } else {
                    pre.first_failures@ + 1
                }
                &&& cmds.len() == 1
                &&& (#[trigger] crate::server::is_arrival_cmd(
                    cmds[0],
                    new_t,
                    rid,
                    path,
                    start,
                    t_out,
                    cmds[0].delay,
                ))
                &&& retry_delay_ok(
                    pre.config,
                    (prior_count(pre, rid) + 1) as u32,
                    cmds[0].delay,
                )
            }
    }
}

impl LoadBalancer {
    /// Track `rid` on backend `t`.
    fn upsert_state(&mut self, rid: RequestId, t: NodeId)
        requires
            keys_unique(old(self).state_table@),
        ensures
            keys_unique(final(self).state_table@),
            *final(self) == (LoadBalancer { state_table: final(self).state_table, ..*old(self) }),
            assoc_has(final(self).state_table@, rid),
            assoc_val(final(self).state_table@, rid) == t,
            assoc_same_except(old(self).state_table@, final(self).state_table@, rid),
    {
        let ghost pre = self.state_table@;
        match assoc_find_u128(&self.state_table, rid) {
            Option::Some(i) => {
                self.state_table[i] = (rid, t);
                proof {
                    lemma_assoc_update(pre, i as int, rid, t);
                }
            },
            Option::None => {
                self.state_table.push((rid, t));
                proof {
                    lemma_assoc_push(pre, rid, t);
                }
            },
        }
    }

    /// Stop tracking `rid`, returning the backend it was on.
    fn remove_state(&mut self, rid: RequestId) -> (r: Option<NodeId>)
        requires
            keys_unique(old(self).state_table@),
        ensures
            keys_unique(final(self).state_table@),
            *final(self) == (LoadBalancer { state_table: final(self).state_table, ..*old(self) }),
            match r {
                Option::Some(t) => {
                    &&& assoc_has(old(self).state_table@, rid)
                    &&& assoc_val(old(self).state_table@, rid) == t
                    &&& !assoc_has(final(self).state_table@, rid)
                    &&& assoc_same_except(old(self).state_table@, final(self).state_table@, rid)
                },
                Option::None => {
                    &&& !assoc_has(old(self).state_table@, rid)
                    &&& *final(self) == *old(self)
                },
            },
    {
        let ghost pre = self.state_table@;
        match assoc_find_u128(&self.state_table, rid) {
            Option::Some(i) => {
                proof {
                    lemma_assoc_val_at(pre, rid, i as int);
                    lemma_assoc_remove(pre, i as int);
                }
                let entry = self.state_table.remove(i);
                Option::Some(entry.1)
            },
            Option::None => Option::None,
        }
    }

    /// Remove and return the retry bookkeeping of `rid`, if any.
    fn take_retry(&mut self, rid: RequestId) -> (r: Option<RetryState>)
        requires
            keys_unique(old(self).in_flight_retries@),
        ensures
            keys_unique(final(self).in_flight_retries@),
            *final(self) == (LoadBalancer {
                in_flight_retries: final(self).in_flight_retries,
                ..*old(self)
            }),
            !assoc_has(final(self).in_flight_retries@, rid),
            assoc_same_except(old(self).in_flight_retries@, final(self).in_flight_retries@, rid),
            match r {
                Option::Some(st) => {
                    &&& assoc_has(old(self).in_flight_retries@, rid)
                    &&& assoc_val(old(self).in_flight_retries@, rid) == st
                    &&& forall|m: u32|
                        #[trigger] slack_sum(final(self).in_flight_retries@, m) == slack_sum(
                            old(self).in_flight_retries@,
                            m,
                        ) - slack(st, m)
                },
                Option::None => {
                    &&& !assoc_has(old(self).in_flight_retries@, rid)
                    &&& *final(self) == *old(self)
                },
            },
    {
        let ghost pre = self.in_flight_retries@;
        match assoc_find_u128(&self.in_flight_retries, rid) {
            Option::Some(i) => {
                proof {
                    lemma_assoc_val_at(pre, rid, i as int);
                    lemma_assoc_remove(pre, i as int);
                    assert forall|m: u32|
                        #[trigger] slack_sum(pre.remove(i as int), m) == slack_sum(pre, m) - slack(
                            pre[i as int].1,
                            m,
                        ) by {
                        lemma_slack_sum_remove(pre, m, i as int);
                    }
                }
                let entry = self.in_flight_retries.remove(i);
                Option::Some(entry.1)
            },
            Option::None => Option::None,
        }
    }

    /// Open retry bookkeeping for `rid`; there must be none yet.
    fn push_retry(&mut self, rid: RequestId, st: RetryState)
        requires
            keys_unique(old(self).in_flight_retries@),
            !assoc_has(old(self).in_flight_retries@, rid),
        ensures
            keys_unique(final(self).in_flight_retries@),
            *final(self) == (LoadBalancer {
                in_flight_retries: final(self).in_flight_retries,
                ..*old(self)
            }),
            assoc_has(final(self).in_flight_retries@, rid),
            assoc_val(final(self).in_flight_retries@, rid) == st,
            assoc_same_except(old(self).in_flight_retries@, final(self).in_flight_retries@, rid),
            forall|m: u32|
                #[trigger] slack_sum(final(self).in_flight_retries@, m) == slack_sum(
                    old(self).in_flight_retries@,
                    m,
                ) + slack(st, m),
    {
        let ghost pre = self.in_flight_retries@;
        let ghost stg = st;
        self.in_flight_retries.push((rid, st));
        proof {
            lemma_assoc_push(pre, rid, stg);
            assert forall|m: u32|
                #[trigger] slack_sum(pre.push((rid, stg)), m) == slack_sum(pre, m) + slack(
                    stg,
                    m,
                ) by {
                lemma_slack_sum_push(pre, m, (rid, stg));
            }
        }
    }

    /// The base retry delay for the configured strategy, at the given
    /// retry count.
    fn retry_base(config: &LoadBalancerConfig, count: u32) -> (r: u64)
        requires
            config.wf(),
            count >= 1,
        ensures
            r == retry_base_spec(*config, count),
    {
        match config.retry_strategy {
            RetryStrategy::Immediate => 0,
            RetryStrategy::Constant => config.retry_backoff_ms * 1000,
            RetryStrategy::Exponential => {
                let steps: u32 = count - 1;
                let mut b: u128 = (config.retry_backoff_ms as u128) * 1000;
                let ghost base0 = b;
                let mut i: u32 = 0;
                proof {
                    vstd::arithmetic::power2::lemma2_to64();
                }
                while i < steps && i < 64
                    invariant
                        base0 == config.retry_backoff_ms * 1000,
                        base0 <= 3_600_000_000,
                        i <= 64,
                        i <= steps,
                        b == base0 * vstd::arithmetic::power2::pow2(i as nat),
                        b <= base0 * vstd::arithmetic::power2::pow2(64),
                    decreases steps - i,
                {
                    proof {
                        vstd::arithmetic::power2::lemma2_to64();
                        vstd::arithmetic::power2::lemma_pow2_strictly_increases(
                            i as nat,
                            (i + 1) as nat,
                        );
                        assert(b * 2 == base0 * (vstd::arithmetic::power2::pow2(i as nat) * 2))
                            by (nonlinear_arith)
                            requires
                                b == base0 * vstd::arithmetic::power2::pow2(i as nat),
                        ;
                        assert(vstd::arithmetic::power2::pow2((i + 1) as nat) == 2
                            * vstd::arithmetic::power2::pow2(i as nat)) by {
                            vstd::arithmetic::power2::lemma_pow2_unfold((i + 1) as nat);
                        }
                        assert(vstd::arithmetic::power2::pow2((i + 1) as nat)
                            <= vstd::arithmetic::power2::pow2(64)) by {
                            if i + 1 < 64 {
                                vstd::arithmetic::power2::lemma_pow2_strictly_increases(
                                    (i + 1) as nat,
                                    64,
                                );
                            }
                        }
                        assert(base0 * vstd::arithmetic::power2::pow2((i + 1) as nat) <= base0
                            * vstd::arithmetic::power2::pow2(64)) by (nonlinear_arith)
                            requires
                                base0 >= 0,
                                vstd::arithmetic::power2::pow2((i + 1) as nat)
                                    <= vstd::arithmetic::power2::pow2(64),
                        ;
                        assert(base0 * vstd::arithmetic::power2::pow2(64) <= 3_600_000_000
                            * 18_446_744_073_709_551_616) by (nonlinear_arith)
                            requires
                                0 <= base0 <= 3_600_000_000,
                                vstd::arithmetic::power2::pow2(64) == 18_446_744_073_709_551_616,
                        ;
                    }
                    b = b * 2;
                    i += 1;
                }
                if steps > 64 && b > 0 {
                    proof {
                        vstd::arithmetic::power2::lemma2_to64();
                        vstd::arithmetic::power2::lemma_pow2_strictly_increases(64, steps as nat);
                        assert(base0 * vstd::arithmetic::power2::pow2(steps as nat) >= base0
                            * vstd::arithmetic::power2::pow2(64)) by (nonlinear_arith)
                            requires
                                base0 >= 1,
                                vstd::arithmetic::power2::pow2(steps as nat)
                                    >= vstd::arithmetic::power2::pow2(64),
                        ;
                        assert(base0 * vstd::arithmetic::power2::pow2(64)
                            >= 18_446_744_073_709_551_616) by (nonlinear_arith)
                            requires
                                base0 >= 1,
                                vstd::arithmetic::power2::pow2(64) == 18_446_744_073_709_551_616,
                        ;
                    }
                    u64::MAX
                } else if b > u64::MAX as u128 {
                    u64::MAX
                } else {
                    proof {
                        if steps > 64 {
                            assert(b == 0);
                            assert(base0 == 0);
                            assert(base0 * vstd::arithmetic::power2::pow2(steps as nat) == 0)
                                by (nonlinear_arith)
                                requires
                                    base0 == 0,
                            ;
                        }
                    }
                    b as u64
                }
            },
        }
    }

    /// Draw a retry delay: the strategy's base plus about ten percent of
    /// uniform jitter; `Immediate` waits not at all.
    fn draw_retry_delay(&mut self, count: u32) -> (r: u64)
        requires
            old(self).config.wf(),
            count >= 1,
        ensures
            *final(self) == (LoadBalancer { rng: final(self).rng, ..*old(self) }),
            retry_delay_ok(final(self).config, count, r),
    {
        match self.config.retry_strategy {
            RetryStrategy::Immediate => 0,
            _ => {
                let base = Self::retry_base(&self.config, count);
                let cap: u64 = if base / 10 > 1 {
                    base / 10
                } else {
                    1
                };
                let jit = rng_below(&mut self.rng, cap + 1);
                let d = if base > u64::MAX - jit {
                    u64::MAX
                } else {
                    base + jit
                };
                proof {
                    assert(base == retry_base_spec(self.config, count) as u64);
                    assert(jit <= cap);
                    assert(d == sat_add64(retry_base_spec(self.config, count) as u64, jit));
                }
                d
            },
        }
    }
}

/// The full dispatch contract of a balancer, as one predicate: the
/// configuration and backend list are untouched, the budget bound and
/// the retry ledger are preserved, and each event kind acts as the
/// outcome predicates say.
pub open spec fn lb_dispatch(
    pre: LoadBalancer,
    post: LoadBalancer,
    insp: SystemInspector,
    event: Event,
    cmds: Seq<ScheduleCmd>,
) -> bool {
    &&& post.config == pre.config
    &&& post.targets@ == pre.targets@
    &&& post.name@ == pre.name@
    &&& (pre.retry_accounting() ==> post.retry_accounting())
    &&& post.first_failures@ >= pre.first_failures@
    &&& (event.event_type matches EventType::Arrival { request_id, path, start_time, timeout }
        ==> {
                                        &&& post.is_healthy == pre.is_healthy
        &&& (!pre.is_healthy ==> lb_arrival_unhealthy(
            pre,
            post,
            cmds,
            event.time,
            request_id,
            path@,
            start_time,
            timeout,
        ))
        &&& (pre.is_healthy ==> lb_arrival_forwarded(
            pre,
            post,
            cmds,
            insp,
            event.time,
            event.node_id,
            request_id,
            path@,
            start_time,
            timeout,
        ) || lb_arrival_no_backend(
            pre,
            post,
            cmds,
            insp,
            event.time,
            request_id,
            path@,
            start_time,
            timeout,
        ))
    })
    &&& (event.event_type matches EventType::Response {
        request_id,
        path,
        start_time,
        success,
        timeout,
    } ==> {
                                        &&& post.is_healthy == pre.is_healthy
        &&& lb_response_untracked(
            pre,
            post,
            cmds,
            event.time,
            request_id,
            path@,
            start_time,
            success,
            timeout,
        ) || lb_response_finished(
            pre,
            post,
            cmds,
            event.time,
            request_id,
            path@,
            start_time,
            success,
            timeout,
        ) || lb_response_retried(
            pre,
            post,
            cmds,
            insp,
            event.time,
            request_id,
            path@,
            start_time,
            timeout,
        )
        &&& (!assoc_has(pre.state_table@, request_id) ==> lb_response_untracked(
            pre,
            post,
            cmds,
            event.time,
            request_id,
            path@,
            start_time,
            success,
            timeout,
        ))
        &&& (assoc_has(pre.state_table@, request_id) && success ==> lb_response_finished(
            pre,
            post,
            cmds,
            event.time,
            request_id,
            path@,
            start_time,
            success,
            timeout,
        ))
        &&& (assoc_has(pre.state_table@, request_id) && !success && prior_count(
            pre,
            request_id,
        ) < pre.config.max_retries && pre.retry_token_balance_milli >= TOKEN_MILLI && (
        exists|k: int|
            eligible(
                pre.targets@,
                insp,
                prior_failed(pre, request_id).push(
                    assoc_val(pre.state_table@, request_id),
                ),
                k,
            )) ==> lb_response_retried(
            pre,
            post,
            cmds,
            insp,
            event.time,
            request_id,
            path@,
            start_time,
            timeout,
        ))
    })
    &&& (match event.event_type {
        EventType::GenerateNext { .. } | EventType::ProcessComplete { .. } => {
            &&& post == (LoadBalancer {
                arrival_window: post.arrival_window,
                ..pre
            })
            &&& post.arrival_window@ == trimmed_window(
                pre.arrival_window@,
                event.time,
            )
            &&& cmds.len() == 0
        },
        EventType::MaintenanceComplete => {
            &&& post == (LoadBalancer {
                is_healthy: true,
                arrival_window: post.arrival_window,
                ..pre
            })
            &&& post.arrival_window@ == trimmed_window(
                pre.arrival_window@,
                event.time,
            )
            &&& cmds.len() == 0
        },
        _ => true,
    })
}

impl LoadBalancer {
    /// Drop window entries older than one second before `now`.
    fn update_rps_window(&mut self, now: u64)
        ensures
            final(self).arrival_window@ == trimmed_window(old(self).arrival_window@, now),
            *final(self) == (LoadBalancer {
                arrival_window: final(self).arrival_window,
                ..*old(self)
            }),
    {
        let ghost s0 = self.arrival_window@;
        while self.arrival_window.len() > 0 && now > self.arrival_window[0].saturating_add(
            1_000_000,
        )
            invariant
                trimmed_window(self.arrival_window@, now) == trimmed_window(s0, now),
                *self == (LoadBalancer { arrival_window: self.arrival_window, ..*old(self) }),
            decreases self.arrival_window@.len(),
        {
            proof {
                assert(self.arrival_window@.remove(0) =~= self.arrival_window@.drop_first());
            }
            self.arrival_window.remove(0);
        }
    }

    /// Fail a request back to the hop the path names, if any.
    fn fail_upstream(
        rid: RequestId,
        path: Vec<NodeId>,
        start: u64,
        t_out: u64,
    ) -> (cmds: Vec<ScheduleCmd>)
        ensures
            path@.len() > 0 ==> cmds@.len() == 1 && crate::server::is_failure_response(
                cmds@[0],
                path@.last(),
                rid,
                path@,
                start,
                t_out,
            ),
            path@.len() == 0 ==> cmds@.len() == 0,
    {
        let mut cmds: Vec<ScheduleCmd> = Vec::new();
        if path.len() > 0 {
            let prev = path[path.len() - 1];
            cmds.push(
                ScheduleCmd {
                    delay: 0,
                    node_id: prev,
                    event_type: EventType::Response {
                        request_id: rid,
                        path,
                        start_time: start,
                        success: false,
                        timeout: t_out,
                    },
                },
            );
        }
        cmds
    }

    /// Pop this balancer off the path and forward the response to the hop
    /// before it, after the fixed processing overhead.
    fn forward_upstream(
        rid: RequestId,
        path: Vec<NodeId>,
        start: u64,
        success: bool,
        t_out: u64,
    ) -> (cmds: Vec<ScheduleCmd>)
        ensures
            lb_pop_forward(cmds@, rid, path@, start, success, t_out),
    {
        let mut cmds: Vec<ScheduleCmd> = Vec::new();
        if path.len() > 0 {
            let mut p = path;
            p.pop();
            if p.len() > 0 {
                let prev = p[p.len() - 1];
                cmds.push(
                    ScheduleCmd {
                        delay: crate::PROCESS_OVERHEAD_US,
                        node_id: prev,
                        event_type: EventType::Response {
                            request_id: rid,
                            path: p,
                            start_time: start,
                            success,
                            timeout: t_out,
                        },
                    },
                );
            }
        }
        cmds
    }

    /// Dispatch one event to this balancer.
    ///
    /// A fresh arrival refills the retry budget, then is forwarded to an
    /// eligible backend or failed upstream. A tracked failed response is
    /// retried on a backend that has not failed this request, while the
    /// retry count and the token bucket allow; any other response releases
    /// its bookkeeping and walks upstream. The budget bound and the retry
    /// ledger (`total_retries` within the capacity opened by first
    /// failures) are preserved throughout.
    #[verifier::rlimit(100)]
    pub fn on_event(&mut self, event: Event, inspector: &SystemInspector) -> (cmds: Vec<
        ScheduleCmd,
    >)
        requires
            old(self).inv(),
            inspector.wf(),
        ensures
            final(self).inv(),
            lb_dispatch(*old(self), *final(self), *inspector, event, cmds@),
    {
        let Event { time, node_id, event_type } = event;
        let ghost pre = *old(self);
        self.update_rps_window(time);
        match event_type {
            EventType::Arrival { request_id, path, start_time, timeout } => {
                let b = self.retry_token_balance_milli + self.config.retry_budget_ratio_milli;
                self.retry_token_balance_milli = if b
                    > self.config.retry_budget_max_tokens_milli {
                    self.config.retry_budget_max_tokens_milli
                } else {
                    b
                };
                if !self.is_healthy {
                    let cmds = Self::fail_upstream(request_id, path, start_time, timeout);
                    proof {
                        assert(lb_arrival_unhealthy(
                            pre,
                            *self,
                            cmds@,
                            time,
                            request_id,
                            path@,
                            start_time,
                            timeout,
                        ));
                    }
                    return cmds;
                }
                self.arrival_window.push(time);
                let excl: Vec<NodeId> = Vec::new();
                let picked = self.select_target(self.config.strategy, inspector, &excl);
                match picked {
                    Option::Some(target) => {
                        self.bump_load(target);
                        self.upsert_state(request_id, target);
                        let ghost path0 = path@;
                        let mut p = path;
                        p.push(node_id);
                        let ghost pseq = p@;
                        let mut cmds: Vec<ScheduleCmd> = Vec::new();
                        cmds.push(
                            ScheduleCmd {
                                delay: crate::PROCESS_OVERHEAD_US,
                                node_id: target,
                                event_type: EventType::Arrival {
                                    request_id,
                                    path: p,
                                    start_time,
                                    timeout,
                                },
                            },
                        );
                        proof {
                            assert(crate::server::is_arrival_cmd(
                                cmds@[0],
                                target,
                                request_id,
                                pseq,
                                start_time,
                                timeout,
                                crate::PROCESS_OVERHEAD_US,
                            ));
                            assert(path0.push(node_id) == pseq);
                            assert(lb_arrival_forwarded(
                                pre,
                                *self,
                                cmds@,
                                *inspector,
                                time,
                                node_id,
                                request_id,
                                path0,
                                start_time,
                                timeout,
                            ));
                        }
                        cmds
                    },
                    Option::None => {
                        let cmds = Self::fail_upstream(request_id, path, start_time, timeout);
                        proof {
                            assert(lb_arrival_no_backend(
                                pre,
                                *self,
                                cmds@,
                                *inspector,
                                time,
                                request_id,
                                path@,
                                start_time,
                                timeout,
                            ));
                        }
                        cmds
                    },
                }
            },
            EventType::Response { request_id, path, start_time, success, timeout } => {
                let ghost path0 = path@;
                let removed = self.remove_state(request_id);
                match removed {
                    Option::None => {
                        let cmds = Self::forward_upstream(
                            request_id,
                            path,
                            start_time,
                            success,
                            timeout,
                        );
                        proof {
                            assert(lb_response_untracked(
                                pre,
                                *self,
                                cmds@,
                                time,
                                request_id,
                                path@,
                                start_time,
                                success,
                                timeout,
                            ));
                        }
                        cmds
                    },
                    Option::Some(old_target) => {
                        self.dec_load(old_target);
                        let taken = self.take_retry(request_id);
                        let ghost mid_in_flight = self.in_flight_retries@;
                        let ghost had_entry = assoc_has(pre.in_flight_retries@, request_id);
                        if success {
                            let cmds = Self::forward_upstream(
                                request_id,
                                path,
                                start_time,
                                success,
                                timeout,
                            );
                            proof {
                                assert(lb_response_finished(
                                    pre,
                                    *self,
                                    cmds@,
                                    time,
                                    request_id,
                                    path@,
                                    start_time,
                                    success,
                                    timeout,
                                ));
                            }
                            return cmds;
                        }
                        proof {
                            self.first_failures@ = if had_entry {
                                self.first_failures@
                            } else {
                                self.first_failures@ + 1
                            };
                        }
                        let mut rs = match taken {
                            Option::Some(st) => st,
                            Option::None => RetryState {
                                retry_count: 0,
                                failed_targets: Vec::new(),
                            },
                        };
                        if rs.retry_count < self.config.max_retries
                            && self.retry_token_balance_milli >= TOKEN_MILLI {
                            rs.failed_targets.push(old_target);
                            let picked = self.select_target(
                                self.config.strategy,
                                inspector,
                                &rs.failed_targets,
                            );
                            match picked {
                                Option::Some(new_target) => {
                                    self.retry_token_balance_milli = self.retry_token_balance_milli
                                        - TOKEN_MILLI;
                                    rs.retry_count = rs.retry_count + 1;
                                    let count = rs.retry_count;
                                    let ghost rsg = rs;
                                    self.push_retry(request_id, rs);
                                    self.total_retries = if self.total_retries < u64::MAX {
                                        self.total_retries + 1
                                    } else {
                                        self.total_retries
                                    };
                                    self.bump_load(new_target);
                                    self.upsert_state(request_id, new_target);
                                    let d = self.draw_retry_delay(count);
                                    let mut cmds: Vec<ScheduleCmd> = Vec::new();
                                    cmds.push(
                                        ScheduleCmd {
                                            delay: d,
                                            node_id: new_target,
                                            event_type: EventType::Arrival {
                                                request_id,
                                                path,
                                                start_time,
                                                timeout,
                                            },
                                        },
                                    );
                                    proof {
                                        lemma_retried_accounting(
                                            pre,
                                            *self,
                                            rsg,
                                            request_id,
                                            had_entry,
                                        );
                                        assert(rsg.failed_targets@.last() == old_target);
                                        assert(rsg.failed_targets@.contains(old_target));
                                        assert(assoc_has(pre.state_table@, request_id));
                                        assert(assoc_val(pre.state_table@, request_id)
                                            == old_target);
                                        assert(prior_count(pre, request_id)
                                            < pre.config.max_retries);
                                        assert(rsg.failed_targets@ == prior_failed(
                                            pre,
                                            request_id,
                                        ).push(old_target));
                                        assert(exists|k: int|
                                            eligible(
                                                pre.targets@,
                                                *inspector,
                                                prior_failed(pre, request_id).push(old_target),
                                                k,
                                            ) && pre.targets@[k] == new_target);
                                        assert(new_target != old_target);
                                        assert(*self == (LoadBalancer {
                                            arrival_window: self.arrival_window,
                                            active_loads: self.active_loads,
                                            state_table: self.state_table,
                                            in_flight_retries: self.in_flight_retries,
                                            first_failures: self.first_failures,
                                            rng: self.rng,
                                            next_rr_idx: self.next_rr_idx,
                                            retry_token_balance_milli: (
                                            pre.retry_token_balance_milli - TOKEN_MILLI) as u64,
                                            total_retries: sat_inc(pre.total_retries),
                                            ..pre
                                        }));
                                        assert(self.arrival_window@ == trimmed_window(
                                            pre.arrival_window@,
                                            time,
                                        ));
                                        assert(load_of(self.active_loads@, old_target)
                                            == sat_dec32(load_of(
                                            pre.active_loads@,
                                            old_target,
                                        )));
                                        assert(load_of(self.active_loads@, new_target)
                                            == sat_inc32(load_of(
                                            pre.active_loads@,
                                            new_target,
                                        )));
                                        assert(assoc_val(self.state_table@, request_id)
                                            == new_target);
                                        assert(assoc_same_except(
                                            pre.state_table@,
                                            self.state_table@,
                                            request_id,
                                        ));
                                        lemma_assoc_same_except_trans(
                                            pre.in_flight_retries@,
                                            mid_in_flight,
                                            self.in_flight_retries@,
                                            request_id,
                                        );
                                        assert(assoc_same_except(
                                            pre.in_flight_retries@,
                                            self.in_flight_retries@,
                                            request_id,
                                        ));
                                        assert(assoc_val(
                                            self.in_flight_retries@,
                                            request_id,
                                        ).retry_count == prior_count(pre, request_id) + 1);
                                        assert(self.first_failures@ == if assoc_has(
                                            pre.in_flight_retries@,
                                            request_id,
                                        ) {
                                            pre.first_failures@
                                        } else {
                                            pre.first_failures@ + 1
                                        });
                                        assert(crate::server::is_arrival_cmd(
                                            cmds@[0],
                                            new_target,
                                            request_id,
                                            path0,
                                            start_time,
                                            timeout,
                                            cmds@[0].delay,
                                        ));
                                        assert(retry_delay_ok(
                                            pre.config,
                                            (prior_count(pre, request_id) + 1) as u32,
                                            cmds@[0].delay,
                                        ));
                                        assert(lb_response_retried(
                                            pre,
                                            *self,
                                            cmds@,
                                            *inspector,
                                            time,
                                            request_id,
                                            path0,
                                            start_time,
                                            timeout,
                                        ));
                                    }
                                    cmds
                                },
                                Option::None => {
                                    let cmds = Self::forward_upstream(
                                        request_id,
                                        path,
                                        start_time,
                                        success,
                                        timeout,
                                    );
                                    proof {
                                        lemma_finished_accounting(pre, *self, had_entry);
                                        assert(lb_response_finished(
                                            pre,
                                            *self,
                                            cmds@,
                                            time,
                                            request_id,
                                            path@,
                                            start_time,
                                            success,
                                            timeout,
                                        ));
                                    }
                                    cmds
                                },
                            }
                        } else {
                            let cmds = Self::forward_upstream(
                                request_id,
                                path,
                                start_time,
                                success,
                                timeout,
                            );
                            proof {
                                lemma_finished_accounting(pre, *self, had_entry);
                                assert(lb_response_finished(
                                    pre,
                                    *self,
                                    cmds@,
                                    time,
                                    request_id,
                                    path@,
                                    start_time,
                                    success,
                                    timeout,
                                ));
                            }
                            cmds
                        }
                    },
                }
            },
            EventType::MaintenanceComplete => {
                self.is_healthy = true;
                Vec::new()
            },
            EventType::GenerateNext { .. } => Vec::new(),
            EventType::ProcessComplete { .. } => Vec::new(),
        }
    }
}

/// Accounting algebra for a retried failure: the token spent and the
/// chain grown keep the ledger balanced.
proof fn lemma_retried_accounting(
    pre: LoadBalancer,
    post: LoadBalancer,
    rs: RetryState,
    rid: RequestId,
    had_entry: bool,
)
    requires
        pre.config.max_retries == post.config.max_retries,
        rs.retry_count >= 1,
        rs.retry_count <= pre.config.max_retries,
        rs.retry_count == prior_count(pre, rid) + 1,
        had_entry == assoc_has(pre.in_flight_retries@, rid),
        post.total_retries == sat_inc(pre.total_retries),
        post.first_failures@ == if had_entry {
            pre.first_failures@
        } else {
            pre.first_failures@ + 1
        },
        forall|m: u32|
            #[trigger] slack_sum(post.in_flight_retries@, m) == slack_sum(
                pre.in_flight_retries@,
                m,
            ) - (if had_entry {
                slack(assoc_val(pre.in_flight_retries@, rid), m)
            } else {
                0
            }) + slack(rs, m),
    ensures
        pre.retry_accounting() ==> post.retry_accounting(),
{
    if pre.retry_accounting() {
        let m = pre.config.max_retries;
        let pre_slack = slack_sum(pre.in_flight_retries@, m);
        let post_slack = slack_sum(post.in_flight_retries@, m);
        if had_entry {
            let old_rs = assoc_val(pre.in_flight_retries@, rid);
            assert(old_rs.retry_count == rs.retry_count - 1);
            assert(slack(old_rs, m) == slack(rs, m) + 1);
            assert(post_slack == pre_slack - 1);
        } else {
            assert(slack(rs, m) == m - rs.retry_count);
            assert(post_slack == pre_slack + m - rs.retry_count);
            assert(m * post.first_failures@ == m * pre.first_failures@ + m)
                by (nonlinear_arith)
                requires
                    post.first_failures@ == pre.first_failures@ + 1,
            ;
        }
    }
}

/// Accounting algebra for a response that ends its request: capacity only
/// shrinks or first failures grow.
proof fn lemma_finished_accounting(pre: LoadBalancer, post: LoadBalancer, had_entry: bool)
    requires
        pre.config.max_retries == post.config.max_retries,
        post.total_retries == pre.total_retries,
        post.first_failures@ >= pre.first_failures@,
        forall|m: u32|
            #[trigger] slack_sum(post.in_flight_retries@, m) <= slack_sum(
                pre.in_flight_retries@,
                m,
            ),
    ensures
        pre.retry_accounting() ==> post.retry_accounting(),
{
    if pre.retry_accounting() {
        let m = pre.config.max_retries;
        assert(m * post.first_failures@ >= m * pre.first_failures@) by (nonlinear_arith)
            requires
                post.first_failures@ >= pre.first_failures@,
                m >= 0,
        ;
    }
}

/// Sum of all tracked loads.
pub open spec fn loads_sum(s: Seq<(NodeId, u32)>) -> int
    decreases s.len(),
{
    if s.len() == 0 {
        0
    } else {
        s[0].1 + loads_sum(s.drop_first())
    }
}

impl LoadBalancer {
    /// Replace the configuration (clamped into range). The balancer goes
    /// into a maintenance window: it reports unhealthy, fails arrivals
    /// upstream, and schedules its own recovery half a second ahead. The
    /// token balance is clamped into the new burst bound, so the budget
    /// invariant holds across the change.
    pub fn set_config(&mut self, config: LoadBalancerConfig, node_id: NodeId) -> (cmds: Vec<
        ScheduleCmd,
    >)
        requires
            old(self).inv(),
        ensures
            final(self).inv(),
            *final(self) == (LoadBalancer {
                config: config.clamped_spec(),
                is_healthy: false,
                retry_token_balance_milli: final(self).retry_token_balance_milli,
                ..*old(self)
            }),
            final(self).retry_token_balance_milli == if old(self).retry_token_balance_milli
                > config.clamped_spec().retry_budget_max_tokens_milli {
                config.clamped_spec().retry_budget_max_tokens_milli
            } else {
                old(self).retry_token_balance_milli
            },
            cmds@.len() == 1,
            cmds@[0].delay == MAINTENANCE_US,
            cmds@[0].node_id == node_id,
            cmds@[0].event_type is MaintenanceComplete,
    {
        self.config = config.clamped();
        if self.retry_token_balance_milli > self.config.retry_budget_max_tokens_milli {
            self.retry_token_balance_milli = self.config.retry_budget_max_tokens_milli;
        }
        self.is_healthy = false;
        let mut cmds: Vec<ScheduleCmd> = Vec::new();
        cmds.push(
            ScheduleCmd {
                delay: MAINTENANCE_US,
                node_id,
                event_type: EventType::MaintenanceComplete,
            },
        );
        cmds
    }

    /// Register a backend; already-known backends and registrations past
    /// the ceiling are ignored.
    pub fn add_target(&mut self, target: NodeId)
        requires
            old(self).inv(),
        ensures
            final(self).inv(),
            *final(self) == (LoadBalancer { targets: final(self).targets, ..*old(self) }),
            old(self).targets@.contains(target) || old(self).targets@.len() >= MAX_TARGETS
                ==> final(self).targets@ == old(self).targets@,
            !old(self).targets@.contains(target) && old(self).targets@.len() < MAX_TARGETS
                ==> final(self).targets@ == old(self).targets@.push(target),
    {
        if self.targets.len() >= MAX_TARGETS {
            return ;
        }
        if !vec_contains(&self.targets, target) {
            let ghost pre = self.targets@;
            self.targets.push(target);
            proof {
                assert forall|i: int, j: int|
                    0 <= i < j < self.targets@.len() implies (#[trigger] self.targets@[i]) != (
                #[trigger] self.targets@[j]) by {
                    if j == self.targets@.len() - 1 {
                        if pre[i] == target {
                            assert(pre.contains(target));
                        }
                    } else {
                        assert(pre[i] != pre[j]);
                    }
                }
            }
        }
    }

    /// Unregister a backend: drop it from the rotation, forget its load,
    /// and stop tracking any request that was on it. The round-robin
    /// cursor is pulled back to the start when it falls off the end.
    pub fn remove_target(&mut self, target: NodeId)
        requires
            old(self).inv(),
        ensures
            final(self).inv(),
            final(self).config == old(self).config,
            final(self).name@ == old(self).name@,
            final(self).is_healthy == old(self).is_healthy,
            final(self).total_retries == old(self).total_retries,
            final(self).retry_token_balance_milli == old(self).retry_token_balance_milli,
            final(self).first_failures == old(self).first_failures,
            final(self).in_flight_retries@ == old(self).in_flight_retries@,
            !final(self).targets@.contains(target),
            !assoc_has(final(self).active_loads@, target),
            forall|i: int|
                0 <= i < final(self).state_table@.len() ==> (#[trigger] final(self).state_table@[i]).1 != target,
    {
        match assoc_find_u32_key(&self.targets, target) {
            Option::Some(i) => {
                self.targets.remove(i);
                proof {
                    let pre = old(self).targets@;
                    let post = self.targets@;
                    assert forall|a: int, b: int|
                        0 <= a < b < post.len() implies (#[trigger] post[a]) != (
                    #[trigger] post[b]) by {
                        let a0 = if a < i {
                            a
                        } else {
                            a + 1
                        };
                        let b0 = if b < i {
                            b
                        } else {
                            b + 1
                        };
                        assert(post[a] == pre[a0] && post[b] == pre[b0]);
                        assert(pre[a0] != pre[b0]);
                    }
                    assert forall|a: int| 0 <= a < post.len() implies (#[trigger] post[a])
                        != target by {
                        let a0 = if a < i {
                            a
                        } else {
                            a + 1
                        };
                        assert(post[a] == pre[a0]);
                        if a0 < i {
                            assert(pre[a0] != pre[i as int]);
                        } else {
                            assert(pre[i as int] != pre[a0]);
                        }
                    }
                }
            },
            Option::None => {
                proof {
                    assert forall|a: int| 0 <= a < self.targets@.len() implies (
                    #[trigger] self.targets@[a]) != target by {
                        assert(self.targets@[a] == self.targets@[a]);
                    }
                }
            },
        }
        if self.next_rr_idx >= self.targets.len() {
            self.next_rr_idx = 0;
        }
        let ghost loads_pre = self.active_loads@;
        match assoc_find_u32(&self.active_loads, target) {
            Option::Some(i) => {
                proof {
                    lemma_assoc_remove(loads_pre, i as int);
                }
                self.active_loads.remove(i);
            },
            Option::None => {
            },
        }
        let mut kept: Vec<(RequestId, NodeId)> = Vec::new();
        let ghost st_pre = self.state_table@;
        let mut k: usize = 0;
        while k < self.state_table.len()
            invariant
                k <= self.state_table@.len(),
                self.state_table@ == st_pre,
                keys_unique(st_pre),
                keys_unique(kept@),
                forall|i: int| 0 <= i < kept@.len() ==> (#[trigger] kept@[i]).1 != target,
                forall|i: int|
                    0 <= i < kept@.len() ==> exists|j: int|
                        0 <= j < k && (#[trigger] kept@[i]) == st_pre[j],
            decreases self.state_table@.len() - k,
        {
            let entry = self.state_table[k];
            if entry.1 != target {
                proof {
                    assert forall|i: int| 0 <= i < kept@.len() implies (#[trigger] kept@[i]).0
                        != st_pre[k as int].0 by {
                        let j = choose|j: int| 0 <= j < k && kept@[i] == st_pre[j];
                        assert(st_pre[j].0 != st_pre[k as int].0);
                    }
                }
                kept.push(entry);
                proof {
                    assert(kept@[kept@.len() - 1] == st_pre[k as int]);
                }
            }
            k += 1;
        }
        self.state_table = kept;
    }
}

/// Index of the first occurrence of `x` in `v`, if any.
fn assoc_find_u32_key(v: &Vec<NodeId>, x: NodeId) -> (r: Option<usize>)
    ensures
        match r {
            Option::Some(i) => i < v@.len() && v@[i as int] == x,
            Option::None => !v@.contains(x),
        },
{
    let mut k: usize = 0;
    while k < v.len()
        invariant
            k <= v@.len(),
            forall|j: int| 0 <= j < k ==> v@[j] != x,
        decreases v@.len() - k,
    {
        if v[k] == x {
            return Option::Some(k);
        }
        k += 1;
    }
    Option::None
}

impl LoadBalancer {
    pub fn set_healthy(&mut self, healthy: bool)
        ensures
            *final(self) == (LoadBalancer { is_healthy: healthy, ..*old(self) }),
    {
        self.is_healthy = healthy;
    }

    pub fn is_healthy(&self) -> (r: bool)
        ensures
            r == self.is_healthy,
    {
        self.is_healthy
    }

    pub fn get_targets(&self) -> (r: Vec<NodeId>)
        ensures
            r@ == self.targets@,
    {
        let mut r: Vec<NodeId> = Vec::new();
        let mut k: usize = 0;
        while k < self.targets.len()
            invariant
                k <= self.targets@.len(),
                r@ == self.targets@.subrange(0, k as int),
            decreases self.targets@.len() - k,
        {
            r.push(self.targets[k]);
            proof {
                assert(r@ =~= self.targets@.subrange(0, k + 1));
            }
            k += 1;
        }
        proof {
            assert(r@ =~= self.targets@);
        }
        r
    }

    /// Forget every backend and all per-backend and per-request state.
    pub fn clear_targets(&mut self)
        requires
            old(self).inv(),
        ensures
            final(self).inv(),
            final(self).targets@.len() == 0,
            final(self).active_loads@.len() == 0,
            final(self).state_table@.len() == 0,
            final(self).config == old(self).config,
            final(self).name@ == old(self).name@,
    {
        self.targets.clear();
        self.active_loads.clear();
        self.state_table.clear();
        self.next_rr_idx = 0;
    }

    /// Requests currently out on backends, as tracked by the load table.
    pub fn active_requests(&self) -> (r: u64)
        ensures
            loads_sum(self.active_loads@) <= u64::MAX ==> r == loads_sum(self.active_loads@),
    {
        let mut total: u64 = 0;
        let mut k: usize = 0;
        while k < self.active_loads.len()
            invariant
                k <= self.active_loads@.len(),
                total == if loads_sum(self.active_loads@.subrange(0, k as int)) > u64::MAX {
                    u64::MAX as int
                } else {
                    loads_sum(self.active_loads@.subrange(0, k as int))
                },
            decreases self.active_loads@.len() - k,
        {
            proof {
                lemma_loads_sum_take(self.active_loads@, k as int);
            }
            let v = self.active_loads[k].1;
            total = if total > u64::MAX - (v as u64) {
                u64::MAX
            } else {
                total + (v as u64)
            };
            k += 1;
        }
        proof {
            assert(self.active_loads@.subrange(0, self.active_loads@.len() as int)
                =~= self.active_loads@);
            lemma_loads_sum_entry_nonneg(self.active_loads@);
        }
        total
    }

    pub fn error_count(&self) -> (r: u64)
        ensures
            r == 0,
    {
        0
    }

    /// The outward snapshot: window throughput, strategy, per-backend
    /// loads in registration order, and the retry counters.
    pub fn get_visual_snapshot(&self) -> (r: LoadBalancerView)
        requires
            self.inv(),
        ensures
            r.rps == self.arrival_window@.len(),
            r.strategy == self.config.strategy,
            r.targets@ == self.targets@,
            r.loads@.len() == self.targets@.len(),
            forall|i: int|
                0 <= i < r.loads@.len() ==> (#[trigger] r.loads@[i]) == (
                self.targets@[i],
                load_of(self.active_loads@, self.targets@[i]),
            ),
            r.failed_count == 0,
            r.total_retries == self.total_retries,
            r.active_retries == self.in_flight_retries@.len(),
            r.max_retries == self.config.max_retries,
            r.retry_backoff_ms == self.config.retry_backoff_ms,
    {
        let mut loads: Vec<(NodeId, u32)> = Vec::new();
        let mut k: usize = 0;
        while k < self.targets.len()
            invariant
                self.inv(),
                k <= self.targets@.len(),
                loads@.len() == k,
                forall|i: int|
                    0 <= i < k ==> (#[trigger] loads@[i]) == (
                    self.targets@[i],
                    load_of(self.active_loads@, self.targets@[i]),
                ),
            decreases self.targets@.len() - k,
        {
            let t = self.targets[k];
            let l = self.load_of_exec(t);
            loads.push((t, l));
            k += 1;
        }
        LoadBalancerView {
            rps: self.arrival_window.len() as u64,
            strategy: self.config.strategy,
            targets: self.get_targets(),
            loads,
            failed_count: self.error_count(),
            total_retries: self.total_retries,
            active_retries: self.in_flight_retries.len() as u64,
            max_retries: self.config.max_retries,
            retry_backoff_ms: self.config.retry_backoff_ms,
        }
    }

    /// Trim the one-second window up to `now`.
    pub fn sync_display_stats(&mut self, now: u64)
        ensures
            final(self).arrival_window@ == trimmed_window(old(self).arrival_window@, now),
            *final(self) == (LoadBalancer {
                arrival_window: final(self).arrival_window,
                ..*old(self)
            }),
    {
        self.update_rps_window(now);
    }

    /// Drop all transient traffic state; configuration and backends stay.
    pub fn reset_internal_stats(&mut self)
        requires
            old(self).inv(),
        ensures
            final(self).inv(),
            final(self).config == old(self).config,
            final(self).targets@ == old(self).targets@,
            final(self).name@ == old(self).name@,
            final(self).is_healthy == old(self).is_healthy,
            final(self).total_retries == 0,
            final(self).first_failures@ == 0,
            final(self).retry_accounting(),
            final(self).state_table@.len() == 0,
            final(self).in_flight_retries@.len() == 0,
            final(self).active_loads@.len() == 0,
            final(self).arrival_window@.len() == 0,
    {
        self.arrival_window.clear();
        self.active_loads.clear();
        self.state_table.clear();
        self.in_flight_retries.clear();
        self.total_retries = 0;
        proof {
            self.first_failures@ = 0;
        }
    }

    /// A balancer wakes with nothing to do.
    pub fn wake_up(&self) -> (cmds: Vec<ScheduleCmd>)
        ensures
            cmds@.len() == 0,
    {
        Vec::new()
    }

    /// Reseed the component generator.
    pub fn set_seed(&mut self, seed: u64)
        ensures
            *final(self) == (LoadBalancer { rng: final(self).rng, ..*old(self) }),
    {
        self.rng = rng_from_seed(seed);
    }
}

proof fn lemma_loads_sum_take(s: Seq<(NodeId, u32)>, k: int)
    requires
        0 <= k < s.len(),
    ensures
        loads_sum(s.subrange(0, k + 1)) == loads_sum(s.subrange(0, k)) + s[k].1,
    decreases k,
{
    if k == 0 {
        assert(s.subrange(0, 1) =~= Seq::<(NodeId, u32)>::empty().push(s[0]));
        assert(s.subrange(0, 1).drop_first() =~= s.subrange(0, 0));
        assert(s.subrange(0, 0) =~= Seq::<(NodeId, u32)>::empty());
    } else {
        assert(s.subrange(0, k + 1).drop_first() =~= s.drop_first().subrange(0, k));
        assert(s.subrange(0, k).drop_first() =~= s.drop_first().subrange(0, k - 1));
        lemma_loads_sum_take(s.drop_first(), k - 1);
        assert(s.drop_first().subrange(0, k - 1 + 1) =~= s.subrange(0, k + 1).drop_first());
        assert(s.drop_first()[k - 1] == s[k]);
    }
}

proof fn lemma_loads_sum_entry_nonneg(s: Seq<(NodeId, u32)>)
    ensures
        loads_sum(s) >= 0,
    decreases s.len(),
{
    if s.len() > 0 {
        lemma_loads_sum_entry_nonneg(s.drop_first());
    }
}

/// The token bucket stays within its configured bound: never negative,
/// never above the burst maximum. Every operation of the balancer
/// preserves this.
pub proof fn lemma_budget_within_bounds(lb: &LoadBalancer)
    requires
        lb.inv(),
    ensures
        0 <= lb.retry_token_balance_milli,
        lb.retry_token_balance_milli <= lb.config.retry_budget_max_tokens_milli,
{
}

/// The retry ledger bounds the work retries can create: the retries
/// performed never exceed the configured maximum per request times the
/// number of first failures that opened retry chains.
pub proof fn lemma_retry_total_bound(lb: &LoadBalancer)
    requires
        lb.retry_accounting(),
    ensures
        lb.total_retries <= lb.config.max_retries * lb.first_failures@,
{
    lemma_slack_sum_nonneg(lb.in_flight_retries@, lb.config.max_retries);
}

/// The cursor after `m` steps of a cyclic walk over `n` slots.
pub open spec fn rr_cursor(n: int, start: int, m: nat) -> int
    decreases m,
{
    if m == 0 {
        start
    } else {
        rr_cursor(n, wrap_next(n, start), (m - 1) as nat)
    }
}

/// How often slot `t` is visited in `m` steps of the cyclic walk. When
/// every target is eligible, round robin picks exactly this walk: each
/// selection returns the cursor's target and advances the cursor (see
/// `lemma_rr_search_all_eligible`).
pub open spec fn rr_pick_count(n: int, start: int, m: nat, t: int) -> int
    decreases m,
{
    if m == 0 {
        0
    } else {
        (if start == t {
            1int
        } else {
            0int
        }) + rr_pick_count(n, wrap_next(n, start), (m - 1) as nat, t)
    }
}

/// With its cursor on an eligible target, the cyclic scan picks it at
/// once: under full health and no exclusions, a round-robin selection
/// returns the cursor's target and moves the cursor one slot on.
pub proof fn lemma_rr_search_all_eligible(
    targets: Seq<NodeId>,
    insp: SystemInspector,
    excl: Seq<NodeId>,
    idx: int,
    fuel: nat,
)
    requires
        eligible(targets, insp, excl, idx),
        fuel > 0,
    ensures
        rr_search(targets, insp, excl, idx, fuel) == Option::Some(idx),
{
}

proof fn lemma_rr_cursor_in_range(n: int, start: int, m: nat)
    requires
        0 < n,
        0 <= start < n,
    ensures
        0 <= rr_cursor(n, start, m) < n,
    decreases m,
{
    if m > 0 {
        lemma_rr_cursor_in_range(n, wrap_next(n, start), (m - 1) as nat);
    }
}

proof fn lemma_rr_pick_count_split(n: int, start: int, a: nat, b: nat, t: int)
    requires
        0 < n,
        0 <= start < n,
    ensures
        rr_pick_count(n, start, (a + b) as nat, t) == rr_pick_count(n, start, a, t)
            + rr_pick_count(n, rr_cursor(n, start, a), b, t),
    decreases a,
{
    if a > 0 {
        lemma_rr_pick_count_split(n, wrap_next(n, start), (a - 1) as nat, b, t);
    }
}

/// In at most one lap, a slot is visited once when the walk reaches it
/// and not otherwise.
proof fn lemma_rr_pick_count_partial(n: int, start: int, m: nat, t: int)
    requires
        0 < n,
        0 <= start < n,
        0 <= t < n,
        m <= n,
    ensures
        rr_pick_count(n, start, m, t) == if cyclic_dist(n, start, t) < m {
            1int
        } else {
            0int
        },
    decreases m,
{
    if m > 0 {
        let nxt = wrap_next(n, start);
        if start == t {
            if n == 1 {
                lemma_rr_pick_count_partial(n, nxt, (m - 1) as nat, t);
            } else {
                lemma_rr_pick_count_partial(n, nxt, (m - 1) as nat, t);
                assert(cyclic_dist(n, nxt, t) == n - 1);
            }
        } else {
            lemma_rr_pick_count_partial(n, nxt, (m - 1) as nat, t);
            assert(cyclic_dist(n, nxt, t) == cyclic_dist(n, start, t) - 1);
        }
    }
}

/// Round-robin fairness: over any number of all-eligible selections, no
/// two targets' pick counts differ by more than one. Every full lap
/// visits each target exactly once, and the leftover partial lap visits
/// each at most once.
pub proof fn lemma_round_robin_fair(n: int, start: int, m: nat, t1: int, t2: int)
    requires
        0 < n,
        0 <= start < n,
        0 <= t1 < n,
        0 <= t2 < n,
    ensures
        -1 <= rr_pick_count(n, start, m, t1) - rr_pick_count(n, start, m, t2) <= 1,
    decreases m,
{
    if m <= n {
        lemma_rr_pick_count_partial(n, start, m, t1);
        lemma_rr_pick_count_partial(n, start, m, t2);
    } else {
        lemma_rr_pick_count_split(n, start, n as nat, (m - n) as nat, t1);
        lemma_rr_pick_count_split(n, start, n as nat, (m - n) as nat, t2);
        lemma_rr_pick_count_partial(n, start, n as nat, t1);
        lemma_rr_pick_count_partial(n, start, n as nat, t2);
        lemma_rr_cursor_in_range(n, start, n as nat);
        lemma_round_robin_fair(n, rr_cursor(n, start, n as nat), (m - n) as nat, t1, t2);
    }
}

/// Whether `v` holds `x`.
pub fn vec_contains(v: &Vec<NodeId>, x: NodeId) -> (r: bool)
    ensures
        r == v@.contains(x),
{
    let mut k: usize = 0;
    while k < v.len()
        invariant
            k <= v@.len(),
            forall|i: int| 0 <= i < k ==> v@[i] != x,
        decreases v@.len() - k,
    {
        if v[k] == x {
            return true;
        }
        k += 1;
    }
    false
}

} // verus!
