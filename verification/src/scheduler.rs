//! Filter-then-score pod placement. Each reconcile cycle snapshots the
//! `Ready` nodes into a per-cycle cache; pods are placed one at a time, each
//! placement reserving capacity in the cache so later pods in the same cycle
//! see the reduced availability.
//!
//! Scores are computed in exact integer arithmetic over the percentage of
//! each dimension that would remain after placement, rounding the final
//! value down; higher wins, and of equal scores the earlier node in
//! name-sorted order.

use vstd::arithmetic::div_mod::lemma_fundamental_div_mod;
use vstd::prelude::*;

use crate::models::{sat_add_u32, sat_sub, spec_fits, Node, Pod, PodStatus, Resources};
use crate::store::{
    filter_ready, lemma_pod_idx_of, nodes_after_alloc, nodes_after_dealloc, pod_with_node,
    pod_with_status,
    sort_nodes_asc, the_pod, update_pod, Store,
};
use crate::text::{eq_ignore_ascii_case, spec_endpoint, str_eq, str_eq_ignore_case};

verus! {

/// How the scheduler scores the nodes that pass the resource filter.
#[derive(Debug, Clone, Copy, PartialEq, Eq, Structural)]
pub enum SchedulingStrategy {
    /// Select the first node that fits.
    FirstFit,
    /// Select the node with the least remaining resources after scheduling
    /// (bin packing, maximizing cluster utilization).
    BestFit,
    /// Select the node with the most remaining resources after scheduling
    /// (load balancing).
    LeastAllocated,
    /// Spread load while penalizing nodes whose CPU and memory usage would
    /// be skewed against each other.
    Balanced,
}

impl Default for SchedulingStrategy {
    fn default() -> (r: SchedulingStrategy)
        ensures
            r == SchedulingStrategy::FirstFit,
    {
        SchedulingStrategy::FirstFit
    }
}

/// One node of the per-cycle cache: what the scheduler knows and adjusts
/// while placing the pods of a single cycle.
#[derive(Debug)]
pub struct NodeCacheEntry {
    pub name: String,
    pub endpoint: String,
    pub available: Resources,
    pub capacity: Resources,
}

/// A cache entry after reserving a request: availability shrinks,
/// saturating at zero.
pub open spec fn entry_reserved(e: NodeCacheEntry, r: Resources) -> NodeCacheEntry {
    NodeCacheEntry {
        available: Resources {
            cpu_millis: sat_sub(e.available.cpu_millis as int, r.cpu_millis as int) as u32,
            memory_mb: sat_sub(e.available.memory_mb as int, r.memory_mb as int) as u32,
        },
        ..e
    }
}

/// A cache entry after releasing a request: availability grows back,
/// saturating at the type bound.
pub open spec fn entry_released(e: NodeCacheEntry, r: Resources) -> NodeCacheEntry {
    NodeCacheEntry {
        available: Resources {
            cpu_millis: sat_add_u32(e.available.cpu_millis as int, r.cpu_millis as int) as u32,
            memory_mb: sat_add_u32(e.available.memory_mb as int, r.memory_mb as int) as u32,
        },
        ..e
    }
}

impl Clone for NodeCacheEntry {
    fn clone(&self) -> (r: NodeCacheEntry)
        ensures
            r == *self,
    {
        NodeCacheEntry {
            name: self.name.clone(),
            endpoint: self.endpoint.clone(),
            available: self.available,
            capacity: self.capacity,
        }
    }
}

impl NodeCacheEntry {
    /// Whether the entry's remaining availability covers a request.
    pub fn can_fit(&self, request: &Resources) -> (r: bool)
        ensures
            r == spec_fits(self.available, *request),
    {
        self.available.fits(request)
    }

    /// Reserves a request against this entry.
    pub fn reserve(&mut self, request: &Resources)
        ensures
            *final(self) == entry_reserved(*old(self), *request),
    {
        self.available.cpu_millis = self.available.cpu_millis.saturating_sub(request.cpu_millis);
        self.available.memory_mb = self.available.memory_mb.saturating_sub(request.memory_mb);
    }

    /// Releases a previously reserved request.
    pub fn release(&mut self, request: &Resources)
        ensures
            *final(self) == entry_released(*old(self), *request),
    {
        self.available.cpu_millis = self.available.cpu_millis.saturating_add(request.cpu_millis);
        self.available.memory_mb = self.available.memory_mb.saturating_add(request.memory_mb);
    }
}

// ---------------------------------------------------------------------------
// Scores, in exact integer arithmetic
// ---------------------------------------------------------------------------
/// The percentage of one dimension that remains after placement is the
/// rational `num / den`: `100 * remaining / capacity`, or zero when the
/// capacity is zero.
pub open spec fn pct_num(rem: int, cap: int) -> int {
    if cap > 0 {
        100 * rem
    } else {
        0
    }
}

pub open spec fn pct_den(cap: int) -> int {
    if cap > 0 {
        cap
    } else {
        1
    }
}

/// Remaining CPU after placing the request, saturating at zero.
pub open spec fn rem_cpu(available: Resources, req: Resources) -> int {
    sat_sub(available.cpu_millis as int, req.cpu_millis as int)
}

/// Remaining memory after placing the request, saturating at zero.
pub open spec fn rem_mem(available: Resources, req: Resources) -> int {
    sat_sub(available.memory_mb as int, req.memory_mb as int)
}

/// Numerator of the CPU percentage over the common denominator
/// `score_den`.
pub open spec fn cpu_term(available: Resources, capacity: Resources, req: Resources) -> int {
    pct_num(rem_cpu(available, req), capacity.cpu_millis as int) * pct_den(
        capacity.memory_mb as int,
    )
}

/// Numerator of the memory percentage over the common denominator
/// `score_den`.
pub open spec fn mem_term(available: Resources, capacity: Resources, req: Resources) -> int {
    pct_num(rem_mem(available, req), capacity.memory_mb as int) * pct_den(
        capacity.cpu_millis as int,
    )
}

/// The common denominator of the two percentages.
pub open spec fn score_den(capacity: Resources) -> int {
    pct_den(capacity.cpu_millis as int) * pct_den(capacity.memory_mb as int)
}

pub open spec fn ceil_div(a: int, b: int) -> int {
    (a + b - 1) / b
}

pub open spec fn abs_diff(a: int, b: int) -> int {
    if a >= b {
        a - b
    } else {
        b - a
    }
}

/// Bin-packing score: `200` minus the summed remaining percentages,
/// rounded down (the tighter the packing, the higher the score).
pub open spec fn spec_score_best_fit(available: Resources, capacity: Resources, req: Resources) -> int {
    200 - ceil_div(
        cpu_term(available, capacity, req) + mem_term(available, capacity, req),
        score_den(capacity),
    )
}

/// Spreading score: the summed remaining percentages, rounded down.
pub open spec fn spec_score_least_allocated(
    available: Resources,
    capacity: Resources,
    req: Resources,
) -> int {
    (cpu_term(available, capacity, req) + mem_term(available, capacity, req)) / score_den(capacity)
}

/// Balanced score: the summed remaining percentages minus three tenths of
/// their difference, rounded down.
pub open spec fn spec_score_balanced(available: Resources, capacity: Resources, req: Resources) -> int {
    let c = cpu_term(available, capacity, req);
    let m = mem_term(available, capacity, req);
    (10 * (c + m) - 3 * abs_diff(c, m)) / (10 * score_den(capacity))
}

/// The score of a node under a strategy.
pub open spec fn spec_node_score(
    strategy: SchedulingStrategy,
    available: Resources,
    capacity: Resources,
    req: Resources,
) -> int {
    match strategy {
        SchedulingStrategy::FirstFit => 0,
        SchedulingStrategy::BestFit => spec_score_best_fit(available, capacity, req),
        SchedulingStrategy::LeastAllocated => spec_score_least_allocated(available, capacity, req),
        SchedulingStrategy::Balanced => spec_score_balanced(available, capacity, req),
    }
}

/// The index the scheduler picks from a cache: the first node that passes
/// the filter and attains the maximal score (a later node replaces the
/// choice only with a strictly greater score); `-1` when no node fits.
pub open spec fn select_spec(
    cache: Seq<NodeCacheEntry>,
    req: Resources,
    strategy: SchedulingStrategy,
) -> int
    decreases cache.len(),
{
    if cache.len() == 0 {
        -1
    } else {
        let prev = select_spec(cache.drop_last(), req, strategy);
        let i = cache.len() - 1;
        if !spec_fits(cache[i].available, req) {
            prev
        } else if prev == -1 {
            i
        } else if spec_node_score(strategy, cache[i].available, cache[i].capacity, req)
            > spec_node_score(strategy, cache[prev].available, cache[prev].capacity, req) {
            i
        } else {
            prev
        }
    }
}

// ---------------------------------------------------------------------------
// Executable scoring
// ---------------------------------------------------------------------------
/// The two numerator terms and the common denominator of the remaining
/// percentages, as machine integers.
fn score_terms(available: &Resources, capacity: &Resources, request: &Resources) -> (t: (
    u128,
    u128,
    u128,
))
    ensures
        t.0 == cpu_term(*available, *capacity, *request),
        t.1 == mem_term(*available, *capacity, *request),
        t.2 == score_den(*capacity),
        t.0 <= 0x8000000000000000000u128,
        t.1 <= 0x8000000000000000000u128,
        0 < t.2 <= 0x10000000000000000u128,
        t.0 <= 0x63ffffff9cu128 * t.2,
        t.1 <= 0x63ffffff9cu128 * t.2,
{
    let rc: u64 = if available.cpu_millis >= request.cpu_millis {
        (available.cpu_millis - request.cpu_millis) as u64
    } else {
        0
    };
    let rm: u64 = if available.memory_mb >= request.memory_mb {
        (available.memory_mb - request.memory_mb) as u64
    } else {
        0
    };
    let nc: u64 = if capacity.cpu_millis > 0 {
        100 * rc
    } else {
        0
    };
    let dc: u64 = if capacity.cpu_millis > 0 {
        capacity.cpu_millis as u64
    } else {
        1
    };
    let nm: u64 = if capacity.memory_mb > 0 {
        100 * rm
    } else {
        0
    };
    let dm: u64 = if capacity.memory_mb > 0 {
        capacity.memory_mb as u64
    } else {
        1
    };
    proof {
        assert((nc as u128) * (dm as u128) <= 0x8000000000000000000u128 && (nm as u128) * (
        dc as u128) <= 0x8000000000000000000u128 && 1u128 <= (dc as u128) * (dm as u128)
            <= 0x10000000000000000u128 && (nc as u128) * (dm as u128) <= 0x63ffffff9cu128 * ((
        dc as u128) * (dm as u128)) && (nm as u128) * (dc as u128) <= 0x63ffffff9cu128 * ((
        dc as u128) * (dm as u128))) by (nonlinear_arith)
            requires
                nc <= 0x63ffffff9cu64,
                nm <= 0x63ffffff9cu64,
                0 < dc <= 0x100000000u64,
                0 < dm <= 0x100000000u64,
        ;
    }
    ((nc as u128) * (dm as u128), (nm as u128) * (dc as u128), (dc as u128) * (dm as u128))
}

/// The quotient of non-negative terms is bounded by the sum of the
/// per-dimension percentages, which keeps every score inside `i64`.
proof fn lemma_score_quotient_bound(num: int, den: int, bound: int)
    requires
        0 <= num,
        0 < den,
        num <= bound * den,
        0 <= bound,
    ensures
        0 <= num / den <= bound,
{
    lemma_fundamental_div_mod(num, den);
    let q = num / den;
    let r = num % den;
    assert(q >= 0 && q <= bound) by (nonlinear_arith)
        requires
            num == den * q + r,
            0 <= r < den,
            num <= bound * den,
            0 <= bound,
            0 < den,
            0 <= num,
    ;
}

/// A pod bound to a node by the scheduler: assigned and `Creating`.
pub open spec fn pod_bound(p: Pod, node_name: String) -> Pod {
    Pod { node_name: Some(node_name), status: PodStatus::Creating, ..p }
}

/// The index the scheduler picks lies in the cache, and names a node that
/// fits, whenever it is not `-1`.
pub proof fn lemma_select_spec_range(
    cache: Seq<NodeCacheEntry>,
    req: Resources,
    strategy: SchedulingStrategy,
)
    ensures
        -1 <= select_spec(cache, req, strategy) < cache.len(),
        select_spec(cache, req, strategy) >= 0 ==> spec_fits(
            cache[select_spec(cache, req, strategy)].available,
            req,
        ),
    decreases cache.len(),
{
    if cache.len() > 0 {
        lemma_select_spec_range(cache.drop_last(), req, strategy);
    }
}

/// The cache with the first entry of the given name released, if any
/// entry carries it.
pub open spec fn release_in_cache(
    c: Seq<NodeCacheEntry>,
    name: Seq<char>,
    r: Resources,
) -> Seq<NodeCacheEntry>
    decreases c.len(),
{
    if c.len() == 0 {
        c
    } else if c[0].name@ == name {
        c.update(0, entry_released(c[0], r))
    } else {
        seq![c[0]] + release_in_cache(c.drop_first(), name, r)
    }
}

proof fn lemma_release_in_cache_at(c: Seq<NodeCacheEntry>, name: Seq<char>, r: Resources, i: int)
    requires
        0 <= i <= c.len(),
        forall|k: int| 0 <= k < i ==> c[k].name@ != name,
        i < c.len() ==> c[i].name@ == name,
    ensures
        release_in_cache(c, name, r) == if i == c.len() {
            c
        } else {
            c.update(i, entry_released(c[i], r))
        },
    decreases i,
{
    if c.len() == 0 {
    } else if i == 0 {
        assert(release_in_cache(c, name, r) =~= c.update(0, entry_released(c[0], r)) || i
            == c.len());
    } else {
        let t = c.drop_first();
        assert(forall|k: int| 0 <= k < i - 1 ==> t[k] == c[k + 1]);
        assert(i - 1 < t.len() ==> t[i - 1] == c[i]);
        lemma_release_in_cache_at(t, name, r, i - 1);
        if i == c.len() {
            assert(release_in_cache(c, name, r) =~= c);
        } else {
            assert(release_in_cache(c, name, r) =~= c.update(i, entry_released(c[i], r)));
        }
    }
}

/// Releases a reservation on the first cache entry with the given name.
pub fn release_node_reservation(
    node_cache: &mut Vec<NodeCacheEntry>,
    node_name: &str,
    resources: &Resources,
)
    ensures
        final(node_cache)@ == release_in_cache(old(node_cache)@, node_name@, *resources),
{
    let n = node_cache.len();
    let mut i: usize = 0;
    while i < n
        invariant
            n == node_cache@.len(),
            i <= n,
            forall|k: int| 0 <= k < i ==> node_cache@[k].name@ != node_name@,
            node_cache@ == old(node_cache)@,
        decreases n - i,
    {
        if str_eq(node_cache[i].name.as_str(), node_name) {
            let mut entry = node_cache[i].clone();
            entry.release(resources);
            node_cache.set(i, entry);
            proof {
                lemma_release_in_cache_at(old(node_cache)@, node_name@, *resources, i as int);
            }
            return ;
        }
        i = i + 1;
    }
    proof {
        lemma_release_in_cache_at(old(node_cache)@, node_name@, *resources, n as int);
    }
}

/// Whether a cache entry is the snapshot of a node: same name, derived
/// endpoint, current availability and capacity.
pub open spec fn cache_matches(e: NodeCacheEntry, n: Node) -> bool {
    e.name == n.name && e.endpoint@ == spec_endpoint(n.address@, n.port as int)
        && e.available.cpu_millis == sat_sub(
        n.allocatable.cpu_millis as int,
        n.used.cpu_millis as int,
    ) && e.available.memory_mb == sat_sub(
        n.allocatable.memory_mb as int,
        n.used.memory_mb as int,
    ) && e.capacity == n.capacity
}

/// Snapshots the `Ready` nodes, sorted by name, into a per-cycle cache.
pub fn build_node_cache(store: &Store) -> (r: Vec<NodeCacheEntry>)
    ensures
        r@.len() == sort_nodes_asc(filter_ready(store.nodes@)).len(),
        forall|i: int|
            0 <= i < r@.len() ==> cache_matches(
                #[trigger] r@[i],
                sort_nodes_asc(filter_ready(store.nodes@))[i],
            ),
{
    let ready = store.get_ready_nodes();
    let n = ready.len();
    let mut r: Vec<NodeCacheEntry> = Vec::new();
    let mut i: usize = 0;
    while i < n
        invariant
            n == ready@.len(),
            ready@ == sort_nodes_asc(filter_ready(store.nodes@)),
            i <= n,
            r@.len() == i,
            forall|k: int| 0 <= k < i ==> cache_matches(#[trigger] r@[k], ready@[k]),
        decreases n - i,
    {
        let node = &ready[i];
        let entry = NodeCacheEntry {
            name: node.name.clone(),
            endpoint: node.endpoint(),
            available: node.available_resources(),
            capacity: node.capacity,
        };
        r.push(entry);
        i = i + 1;
    }
    r
}

/// The request the master sends an agent to create a pod, together with
/// where to send it.
#[derive(Debug)]
pub struct AgentCreateCall {
    pub pod_id: u128,
    pub name: String,
    pub image: String,
    pub resources: Resources,
    pub node_name: String,
    pub endpoint: String,
}

/// The placement engine: a scoring strategy applied to a per-cycle cache.
#[derive(Debug, Clone, Copy)]
pub struct Scheduler {
    pub strategy: SchedulingStrategy,
}

impl Scheduler {
    /// A scheduler with the default strategy.
    pub fn new() -> (s: Scheduler)
        ensures
            s.strategy == SchedulingStrategy::FirstFit,
    {
        Scheduler { strategy: SchedulingStrategy::FirstFit }
    }

    /// The same scheduler with another strategy.
    pub fn with_strategy(self, strategy: SchedulingStrategy) -> (s: Scheduler)
        ensures
            s.strategy == strategy,
    {
        Scheduler { strategy }
    }

    /// Whether a node passes the placement filters: its availability covers
    /// the request.
    pub fn node_passes_filters(&self, node: &NodeCacheEntry, resources: &Resources) -> (r: bool)
        ensures
            r == spec_fits(node.available, *resources),
    {
        node.can_fit(resources)
    }

    /// The node's score under the configured strategy.
    pub fn calculate_node_score(&self, node: &NodeCacheEntry, resources: &Resources) -> (r: i64)
        ensures
            r as int == spec_node_score(self.strategy, node.available, node.capacity, *resources),
    {
        match self.strategy {
            SchedulingStrategy::FirstFit => 0,
            SchedulingStrategy::BestFit => self.score_best_fit(node, resources),
            SchedulingStrategy::LeastAllocated => self.score_least_allocated(node, resources),
            SchedulingStrategy::Balanced => self.score_balanced(node, resources),
        }
    }

    /// Bin-packing score: higher for nodes that would be left tighter.
    pub fn score_best_fit(&self, node: &NodeCacheEntry, resources: &Resources) -> (r: i64)
        ensures
            r as int == spec_score_best_fit(node.available, node.capacity, *resources),
    {
        let (t0, t1, den) = score_terms(&node.available, &node.capacity, resources);
        let sum = t0 + t1;
        let c = (sum + den - 1) / den;
        proof {
            let d = den as int;
            assert((2int * 0x63ffffff9c + 1) * d == 0x63ffffff9c * d + 0x63ffffff9c * d + d)
                by (nonlinear_arith);
            lemma_score_quotient_bound((sum + den - 1) as int, d, 2int * 0x63ffffff9c + 1);
        }
        200 - (c as i64)
    }

    /// Spreading score: higher for nodes that would stay emptier.
    pub fn score_least_allocated(&self, node: &NodeCacheEntry, resources: &Resources) -> (r: i64)
        ensures
            r as int == spec_score_least_allocated(node.available, node.capacity, *resources),
    {
        let (t0, t1, den) = score_terms(&node.available, &node.capacity, resources);
        let sum = t0 + t1;
        let q = sum / den;
        proof {
            lemma_score_quotient_bound(sum as int, den as int, 2int * 0x63ffffff9c);
        }
        q as i64
    }

    /// Spreading score with a penalty for skew between the CPU and memory
    /// percentages.
    pub fn score_balanced(&self, node: &NodeCacheEntry, resources: &Resources) -> (r: i64)
        ensures
            r as int == spec_score_balanced(node.available, node.capacity, *resources),
    {
        let (t0, t1, den) = score_terms(&node.available, &node.capacity, resources);
        let diff = if t0 >= t1 {
            t0 - t1
        } else {
            t1 - t0
        };
        let num = 10 * (t0 + t1) - 3 * diff;
        let q = num / (10 * den);
        proof {
            lemma_score_quotient_bound(num as int, 10int * (den as int), 2int * 0x63ffffff9c);
        }
        q as i64
    }

    /// Picks a node for a request: the first filter-passing node whose score
    /// no later node strictly beats. `None` when no node fits.
    pub fn select_node(&self, cache: &Vec<NodeCacheEntry>, resources: &Resources) -> (r: Option<
        usize,
    >)
        ensures
            match r {
                Some(i) => i < cache@.len() && select_spec(cache@, *resources, self.strategy)
                    == i as int,
                None => select_spec(cache@, *resources, self.strategy) == -1,
            },
    {
        let n = cache.len();
        let mut best: Option<usize> = None;
        let mut best_score: i64 = 0;
        let mut i: usize = 0;
        while i < n
            invariant
                n == cache@.len(),
                i <= n,
                match best {
                    Some(b) => b < i && select_spec(cache@.take(i as int), *resources, self.strategy)
                        == b as int && best_score as int == spec_node_score(
                        self.strategy,
                        cache@[b as int].available,
                        cache@[b as int].capacity,
                        *resources,
                    ),
                    None => select_spec(cache@.take(i as int), *resources, self.strategy) == -1,
                },
            decreases n - i,
        {
            proof {
                assert(cache@.take(i + 1).drop_last() =~= cache@.take(i as int));
                assert(cache@.take(i + 1).last() == cache@[i as int]);
            }
            if self.node_passes_filters(&cache[i], resources) {
                let score = self.calculate_node_score(&cache[i], resources);
                let replace = match best {
                    Some(_) => best_score < score,
                    None => true,
                };
                if replace {
                    best = Some(i);
                    best_score = score;
                }
            }
            i = i + 1;
        }
        proof {
            assert(cache@.take(n as int) =~= cache@);
        }
        best
    }

    /// Places one pending pod: picks a node, reserves it in the cache, binds
    /// the pod in the store (assigned, resources allocated, `Creating`), and
    /// hands back the create request for the node's agent. `None`, changing
    /// nothing, when no node fits.
    pub fn schedule_one(&self, store: &mut Store, cache: &mut Vec<NodeCacheEntry>, pod: &Pod) -> (r:
        Option<AgentCreateCall>)
        requires
            old(store).wf(),
        ensures
            final(store).wf(),
            final(store).deployments@ == old(store).deployments@,
            ({
                let sel = select_spec(old(cache)@, pod.resources, self.strategy);
                if sel < 0 {
                    &&& r is None
                    &&& final(store).pods@ == old(store).pods@
                    &&& final(store).nodes@ == old(store).nodes@
                    &&& final(cache)@ == old(cache)@
                } else {
                    &&& r matches Some(call)
                    &&& call.pod_id == pod.id
                    &&& call.name == pod.name
                    &&& call.image == pod.image
                    &&& call.resources == pod.resources
                    &&& call.node_name == old(cache)@[sel].name
                    &&& call.endpoint == old(cache)@[sel].endpoint
                    &&& final(cache)@ == old(cache)@.update(
                        sel,
                        entry_reserved(old(cache)@[sel], pod.resources),
                    )
                    &&& final(store).pods@ == update_pod(
                        old(store).pods@,
                        pod.id,
                        pod_bound(the_pod(old(store).pods@, pod.id), old(cache)@[sel].name),
                    )
                    &&& final(store).nodes@ == nodes_after_alloc(
                        old(store).nodes@,
                        old(cache)@[sel].name@,
                        pod.resources,
                    )
                }
            }),
    {
        let selected = self.select_node(cache, &pod.resources);
        match selected {
            None => None,
            Some(idx) => {
                let node_name = cache[idx].name.clone();
                let node_endpoint = cache[idx].endpoint.clone();
                let mut entry = cache[idx].clone();
                entry.reserve(&pod.resources);
                cache.set(idx, entry);
                let ghost pods0 = store.pods@;
                store.assign_pod_to_node(pod.id, node_name.clone());
                let ghost pods1 = store.pods@;
                store.allocate_resources_on_node(node_name.as_str(), &pod.resources);
                store.update_pod_status(pod.id, PodStatus::Creating);
                proof {
                    if crate::store::has_pod(pods0, pod.id) {
                        let i = crate::store::pod_idx(pods0, pod.id);
                        assert(pods1 == pods0.update(i, pod_with_node(the_pod(pods0, pod.id), node_name)));
                        assert(pods1[i].id == pod.id);
                        lemma_pod_idx_of(pods1, pod.id, i);
                        assert(store.pods@ == pods1.update(
                            i,
                            pod_with_status(the_pod(pods1, pod.id), PodStatus::Creating),
                        ));
                        assert(store.pods@ =~= pods0.update(
                            i,
                            pod_bound(the_pod(pods0, pod.id), node_name),
                        ));
                    }
                }
                Some(
                    AgentCreateCall {
                        pod_id: pod.id,
                        name: pod.name.clone(),
                        image: pod.image.clone(),
                        resources: pod.resources,
                        node_name,
                        endpoint: node_endpoint,
                    },
                )
            },
        }
    }

    /// Records the outcome of the agent's create call for a bound pod: on
    /// success the pod runs; on failure it is marked failed and its
    /// reservation is released in the store and the cycle cache.
    pub fn complete_binding(
        &self,
        store: &mut Store,
        cache: &mut Vec<NodeCacheEntry>,
        pod_id: u128,
        node_name: &str,
        resources: &Resources,
        created_ok: bool,
    )
        requires
            old(store).wf(),
        ensures
            final(store).wf(),
            final(store).deployments@ == old(store).deployments@,
            created_ok ==> {
                &&& final(store).pods@ == update_pod(
                    old(store).pods@,
                    pod_id,
                    pod_with_status(the_pod(old(store).pods@, pod_id), PodStatus::Running),
                )
                &&& final(store).nodes@ == old(store).nodes@
                &&& final(cache)@ == old(cache)@
            },
            !created_ok ==> {
                &&& final(store).pods@ == update_pod(
                    old(store).pods@,
                    pod_id,
                    pod_with_status(the_pod(old(store).pods@, pod_id), PodStatus::Failed),
                )
                &&& final(store).nodes@ == nodes_after_dealloc(
                    old(store).nodes@,
                    node_name@,
                    *resources,
                )
                &&& final(cache)@ == release_in_cache(old(cache)@, node_name@, *resources)
            },
    {
        if created_ok {
            store.update_pod_status(pod_id, PodStatus::Running);
        } else {
            store.update_pod_status(pod_id, PodStatus::Failed);
            store.deallocate_resources_on_node(node_name, resources);
            release_node_reservation(cache, node_name, resources);
        }
    }
}

// ---------------------------------------------------------------------------
// Strategy names
// ---------------------------------------------------------------------------
/// The strategy a command-line name denotes, compared without regard to
/// ASCII case.
pub open spec fn spec_parse_strategy(s: Seq<char>) -> Option<SchedulingStrategy> {
    if eq_ignore_ascii_case(s, "first-fit"@) || eq_ignore_ascii_case(s, "firstfit"@)
        || eq_ignore_ascii_case(s, "first_fit"@) {
        Some(SchedulingStrategy::FirstFit)
    } else if eq_ignore_ascii_case(s, "best-fit"@) || eq_ignore_ascii_case(s, "bestfit"@)
        || eq_ignore_ascii_case(s, "best_fit"@) || eq_ignore_ascii_case(s, "binpacking"@)
        || eq_ignore_ascii_case(s, "bin-packing"@) {
        Some(SchedulingStrategy::BestFit)
    } else if eq_ignore_ascii_case(s, "least-allocated"@) || eq_ignore_ascii_case(
        s,
        "leastallocated"@,
    ) || eq_ignore_ascii_case(s, "least_allocated"@) || eq_ignore_ascii_case(s, "spread"@) {
        Some(SchedulingStrategy::LeastAllocated)
    } else if eq_ignore_ascii_case(s, "balanced"@) || eq_ignore_ascii_case(s, "balance"@) {
        Some(SchedulingStrategy::Balanced)
    } else {
        None
    }
}

/// Parses a strategy name; unknown names come back as an error message
/// that embeds the name.
pub fn parse_scheduling_strategy(s: &str) -> (r: Result<SchedulingStrategy, String>)
    ensures
        match r {
            Ok(st) => spec_parse_strategy(s@) == Some(st),
            Err(m) => spec_parse_strategy(s@) is None && m@ == "Unknown scheduling strategy '"@
                + s@ + "'. Available: first-fit, best-fit, least-allocated, balanced"@,
        },
{
    if str_eq_ignore_case(s, "first-fit") || str_eq_ignore_case(s, "firstfit")
        || str_eq_ignore_case(s, "first_fit") {
        Ok(SchedulingStrategy::FirstFit)
    } else if str_eq_ignore_case(s, "best-fit") || str_eq_ignore_case(s, "bestfit")
        || str_eq_ignore_case(s, "best_fit") || str_eq_ignore_case(s, "binpacking")
        || str_eq_ignore_case(s, "bin-packing") {
        Ok(SchedulingStrategy::BestFit)
    } else if str_eq_ignore_case(s, "least-allocated") || str_eq_ignore_case(s, "leastallocated")
        || str_eq_ignore_case(s, "least_allocated") || str_eq_ignore_case(s, "spread") {
        Ok(SchedulingStrategy::LeastAllocated)
    } else if str_eq_ignore_case(s, "balanced") || str_eq_ignore_case(s, "balance") {
        Ok(SchedulingStrategy::Balanced)
    } else {
        let mut m = String::from_str("Unknown scheduling strategy '");
        m.append(s);
        m.append("'. Available: first-fit, best-fit, least-allocated, balanced");
        proof {
            assert(m@ =~= "Unknown scheduling strategy '"@ + s@
                + "'. Available: first-fit, best-fit, least-allocated, balanced"@);
        }
        Err(m)
    }
}

} // verus!
