//! The reconciler: node liveness, per-deployment scale and rolling-update
//! reconciliation, and the pod termination protocol. Each function is a step
//! of the reconcile cycle; the surrounding process drives the steps and
//! performs the network calls between them, feeding their outcomes back in.

use vstd::prelude::*;

use crate::models::{
    sat_sub, status_active, pod_in_deployment, Deployment, Node, NodeStatus, Pod, PodStatus,
};
use crate::store::{
    count_active, count_active_rev, count_running_rev, filter_old_rev, filter_terminable,
    has_deployment, has_node, has_pod, node_with_status, nodes_after_dealloc, pod_ids,
    pod_with_status, sort_pods_desc, take_up_to, the_node, the_pod, update_pod, upsert_pod, Store,
};
use crate::text::{lemma_pod_name_injective, spec_endpoint, spec_pod_name, str_eq};

verus! {

/// How often the reconciler ticks, in milliseconds.
pub const RECONCILE_INTERVAL_MS: u64 = 5000;

/// How long a node may stay silent before it is marked `NotReady`, in
/// milliseconds.
pub const NODE_TIMEOUT_MS: i64 = 30000;

/// Deadline for every master-to-agent HTTP call, in milliseconds.
pub const AGENT_HTTP_TIMEOUT_MS: u64 = 10000;

/// Whether a deployment currently has pods of older revisions to replace.
#[derive(Debug, Clone, Copy, PartialEq, Eq, Structural)]
pub enum RollingUpdateStatus {
    NoUpdate,
    InProgress,
}

/// The smaller of two integers.
pub open spec fn min_int(a: int, b: int) -> int {
    if a <= b {
        a
    } else {
        b
    }
}

// ---------------------------------------------------------------------------
// Node health
// ---------------------------------------------------------------------------
/// Whether a node's last heartbeat is older than the timeout at the given
/// instant.
pub open spec fn node_stale(n: Node, now_ms: i64, timeout_ms: i64) -> bool {
    now_ms - n.last_heartbeat > timeout_ms
}

/// Marks every node whose last heartbeat is older than the timeout as
/// `NotReady`; fresh nodes are untouched.
pub fn check_node_health(store: &mut Store, now_ms: i64, timeout_ms: i64)
    requires
        old(store).wf(),
    ensures
        final(store).wf(),
        final(store).deployments@ == old(store).deployments@,
        final(store).pods@ == old(store).pods@,
        final(store).nodes@.len() == old(store).nodes@.len(),
        forall|i: int|
            0 <= i < old(store).nodes@.len() ==> final(store).nodes@[i] == if node_stale(
                old(store).nodes@[i],
                now_ms,
                timeout_ms,
            ) {
                node_with_status(old(store).nodes@[i], NodeStatus::NotReady)
            } else {
                old(store).nodes@[i]
            },
{
    let n = store.nodes.len();
    let mut i: usize = 0;
    while i < n
        invariant
            n == store.nodes@.len(),
            i <= n,
            store.deployments@ == old(store).deployments@,
            store.pods@ == old(store).pods@,
            store.nodes@.len() == old(store).nodes@.len(),
            forall|k: int|
                0 <= k < i ==> store.nodes@[k] == if node_stale(
                    old(store).nodes@[k],
                    now_ms,
                    timeout_ms,
                ) {
                    node_with_status(old(store).nodes@[k], NodeStatus::NotReady)
                } else {
                    old(store).nodes@[k]
                },
            forall|k: int| i <= k < n ==> store.nodes@[k] == old(store).nodes@[k],
            old(store).wf(),
        decreases n - i,
    {
        let elapsed: i128 = (now_ms as i128) - (store.nodes[i].last_heartbeat as i128);
        if elapsed > timeout_ms as i128 {
            let mut nd = store.nodes[i].clone();
            nd.status = NodeStatus::NotReady;
            store.nodes.set(i, nd);
        }
        i = i + 1;
    }
    proof {
        assert forall|a: int, b: int|
            0 <= a < b < store.nodes@.len() implies store.nodes@[a].name@
            != store.nodes@[b].name@ by {
            assert(store.nodes@[a].name@ == old(store).nodes@[a].name@);
            assert(store.nodes@[b].name@ == old(store).nodes@[b].name@);
        }
    }
}

// ---------------------------------------------------------------------------
// Choosing a fresh pod name
// ---------------------------------------------------------------------------
/// Whether some active pod of the deployment carries the given name.
pub open spec fn name_active(pods: Seq<Pod>, dn: Seq<char>, name: Seq<char>) -> bool {
    exists|i: int|
        0 <= i < pods.len() && pod_in_deployment(pods[i], dn) && status_active(pods[i].status)
            && pods[i].name@ == name
}

/// Among any `pods.len() + 1` consecutive indices, at least one yields a
/// name no active pod of the deployment carries: each index names a
/// distinct pod name, and there are more candidates than pods.
proof fn lemma_free_index(pods: Seq<Pod>, dn: Seq<char>, lo: int)
    requires
        lo >= 0,
    ensures
        exists|fi: int|
            lo <= fi <= lo + pods.len() && !name_active(pods, dn, spec_pod_name(dn, fi)),
    decreases pods.len(),
{
    if !name_active(pods, dn, spec_pod_name(dn, lo)) {
        assert(lo <= lo <= lo + pods.len() && !name_active(pods, dn, spec_pod_name(dn, lo)));
    } else {
        let k = choose|k: int|
            0 <= k < pods.len() && pod_in_deployment(pods[k], dn) && status_active(pods[k].status)
                && pods[k].name@ == spec_pod_name(dn, lo);
        let rest = pods.remove(k);
        pods.remove_ensures(k);
        lemma_free_index(rest, dn, lo + 1);
        let fi = choose|fi: int|
            lo + 1 <= fi <= lo + 1 + rest.len() && !name_active(rest, dn, spec_pod_name(dn, fi));
        if name_active(pods, dn, spec_pod_name(dn, fi)) {
            let j = choose|j: int|
                0 <= j < pods.len() && pod_in_deployment(pods[j], dn) && status_active(
                    pods[j].status,
                ) && pods[j].name@ == spec_pod_name(dn, fi);
            if j == k {
                lemma_pod_name_injective(dn, lo, fi);
                assert(false);
            } else {
                let j2 = if j < k {
                    j
                } else {
                    j - 1
                };
                assert(rest[j2] == pods[j]);
                assert(0 <= j2 < rest.len() && pod_in_deployment(rest[j2], dn) && status_active(
                    rest[j2].status,
                ) && rest[j2].name@ == spec_pod_name(dn, fi));
                assert(false);
            }
        }
        assert(lo <= fi <= lo + pods.len() && !name_active(pods, dn, spec_pod_name(dn, fi)));
    }
}

/// Whether some active pod of the deployment carries the given name.
fn active_name_used(store: &Store, deployment_name: &str, name: &String) -> (r: bool)
    ensures
        r == name_active(store.pods@, deployment_name@, name@),
{
    let n = store.pods.len();
    let mut i: usize = 0;
    while i < n
        invariant
            n == store.pods@.len(),
            i <= n,
            forall|j: int|
                0 <= j < i ==> !(pod_in_deployment(store.pods@[j], deployment_name@)
                    && status_active(store.pods@[j].status) && store.pods@[j].name@ == name@),
        decreases n - i,
    {
        let p = &store.pods[i];
        let in_dep = match &p.deployment_name {
            Some(dn) => str_eq(dn.as_str(), deployment_name),
            None => false,
        };
        if in_dep && p.status != PodStatus::Terminated && p.status != PodStatus::Failed && str_eq(
            p.name.as_str(),
            name.as_str(),
        ) {
            return true;
        }
        i = i + 1;
    }
    false
}

/// A freshly built pod of the deployment: its id is held by no stored pod,
/// and its index is the first one at or past `hint` whose name no active
/// pod of the deployment carries.
pub open spec fn created_pod_ok(prev: Seq<Pod>, d: Deployment, hint: int, p: Pod) -> bool {
    &&& !has_pod(prev, p.id)
    &&& p.image == d.image
    &&& p.resources == d.resources
    &&& p.deployment_name == Some(d.name)
    &&& p.status == PodStatus::Pending
    &&& p.container_id is None
    &&& p.node_name is None
    &&& p.revision == d.revision
    &&& exists|fi: int|
        {
            &&& hint <= fi
            &&& p.name@ == spec_pod_name(d.name@, fi)
            &&& !name_active(prev, d.name@, p.name@)
            &&& forall|j: int| hint <= j < fi ==> name_active(prev, d.name@, spec_pod_name(d.name@, j))
        }
}

/// Builds a pod for the deployment, choosing the first index at or past
/// `index` whose name is not in use by an active pod of the deployment,
/// and an id no stored pod carries: the random draw is checked against the
/// store, and the vanishingly unlikely collision falls back to the
/// smallest unused id.
pub fn create_pod_for_deployment(store: &Store, deployment: &Deployment, index: u32) -> (p: Pod)
    requires
        store.wf(),
        store.pods@.len() + index + 1 <= u32::MAX,
    ensures
        created_pod_ok(store.pods@, *deployment, index as int, p),
{
    let m = store.pods.len();
    let mut t: u32 = 0;
    while t <= m as u32
        invariant
            store.wf(),
            m == store.pods@.len(),
            m + index + 1 <= u32::MAX,
            t <= m + 1,
            forall|j: int|
                index <= j < index + t ==> name_active(
                    store.pods@,
                    deployment.name@,
                    spec_pod_name(deployment.name@, j),
                ),
        decreases m + 1 - t,
    {
        let cand = index + t;
        let name = crate::text::pod_name(deployment.name.as_str(), cand);
        if !active_name_used(store, deployment.name.as_str(), &name) {
            let mut p = Pod::from_deployment(deployment, cand);
            if store.get_pod(p.id).is_some() {
                p.id = fresh_unused_id(store);
            }
            return p;
        }
        t = t + 1;
    }
    proof {
        lemma_free_index(store.pods@, deployment.name@, index as int);
        let fi = choose|fi: int|
            index <= fi <= index + store.pods@.len() && !name_active(
                store.pods@,
                deployment.name@,
                spec_pod_name(deployment.name@, fi),
            );
        assert(false);
    }
    vstd::pervasive::unreached()
}

/// Among any `pods.len() + 1` consecutive ids, at least one is carried by
/// no stored pod: there are more candidates than pods.
proof fn lemma_free_id(pods: Seq<Pod>, lo: int)
    requires
        0 <= lo,
        lo + pods.len() <= u128::MAX,
    ensures
        exists|v: u128| lo <= v <= lo + pods.len() && !has_pod(pods, v),
    decreases pods.len(),
{
    if !has_pod(pods, lo as u128) {
        assert(lo <= (lo as u128) <= lo + pods.len() && !has_pod(pods, lo as u128));
    } else {
        let k = choose|k: int| 0 <= k < pods.len() && pods[k].id == lo as u128;
        let rest = pods.remove(k);
        pods.remove_ensures(k);
        lemma_free_id(rest, lo + 1);
        let v = choose|v: u128| lo + 1 <= v <= lo + 1 + rest.len() && !has_pod(rest, v);
        if has_pod(pods, v) {
            let j = choose|j: int| 0 <= j < pods.len() && pods[j].id == v;
            if j == k {
                assert((lo as u128) as int == lo);
                assert(false);
            } else {
                let j2 = if j < k {
                    j
                } else {
                    j - 1
                };
                assert(rest[j2] == pods[j]);
                assert(0 <= j2 < rest.len() && rest[j2].id == v);
                assert(false);
            }
        }
        assert(lo <= v <= lo + pods.len() && !has_pod(pods, v));
    }
}

/// The smallest id, counting from zero, that no stored pod carries.
fn fresh_unused_id(store: &Store) -> (id: u128)
    requires
        store.wf(),
        store.pods@.len() < usize::MAX,
    ensures
        !has_pod(store.pods@, id),
{
    let m = store.pods.len();
    let mut t: usize = 0;
    while t <= m
        invariant
            store.wf(),
            m == store.pods@.len(),
            m < usize::MAX,
            t <= m + 1,
            forall|j: u128| j < t ==> has_pod(store.pods@, j),
        decreases m + 1 - t,
    {
        if store.get_pod(t as u128).is_none() {
            return t as u128;
        }
        t = t + 1;
    }
    proof {
        lemma_free_id(store.pods@, 0);
        let v = choose|v: u128| 0 <= v <= store.pods@.len() && !has_pod(store.pods@, v);
        assert(false);
    }
    vstd::pervasive::unreached()
}

// ---------------------------------------------------------------------------
// Creating pods, one after the other
// ---------------------------------------------------------------------------
/// The pod records after adding a sequence of freshly created pods, each
/// inserted keyed by its id.
pub open spec fn pods_after_creations(pods: Seq<Pod>, created: Seq<Pod>) -> Seq<Pod>
    decreases created.len(),
{
    if created.len() == 0 {
        pods
    } else {
        upsert_pod(pods_after_creations(pods, created.drop_last()), created.last())
    }
}

/// A run of pod creations for one deployment: the `i`-th pod was built
/// against the store as it stood after the first `i` insertions, with index
/// hint `base + i` and an id fresh at that moment, so every insertion
/// appends a pod.
pub open spec fn creations_ok(pods: Seq<Pod>, d: Deployment, base: int, created: Seq<Pod>) -> bool {
    forall|i: int|
        0 <= i < created.len() ==> created_pod_ok(
            pods_after_creations(pods, created.take(i)),
            d,
            base + i,
            #[trigger] created[i],
        )
}

/// What scale reconciliation leaves behind, given what it found: missing
/// pods are created with fresh names; excess pods are picked for
/// termination, newest name first; a satisfied deployment is untouched.
pub open spec fn scale_reconcile_post(
    pre: Seq<Pod>,
    d: Deployment,
    post: Seq<Pod>,
    r: Seq<u128>,
) -> bool {
    let cur = count_active(pre, d.name@);
    let des = d.replicas as int;
    if cur < des {
        &&& exists|created: Seq<Pod>|
            {
                &&& created.len() == des - cur
                &&& #[trigger] creations_ok(pre, d, cur, created)
                &&& post == pods_after_creations(pre, created)
            }
        &&& r == Seq::<u128>::empty()
    } else if cur > des {
        &&& post == pre
        &&& r == pod_ids(
            take_up_to(sort_pods_desc(filter_terminable(pre, d.name@)), cur - des),
        )
    } else {
        &&& post == pre
        &&& r == Seq::<u128>::empty()
    }
}

/// Scale reconciliation: create pods up to the desired replica count, or
/// pick the excess pods to terminate (newest name first). Returns the ids
/// of the pods to terminate; the caller runs the termination protocol on
/// each.
pub fn reconcile_normal(store: &mut Store, deployment: &Deployment) -> (r: Vec<u128>)
    requires
        old(store).wf(),
        old(store).pods@.len() + 2 * deployment.replicas + 2 <= u32::MAX,
    ensures
        final(store).wf(),
        final(store).deployments@ == old(store).deployments@,
        final(store).nodes@ == old(store).nodes@,
        scale_reconcile_post(old(store).pods@, *deployment, final(store).pods@, r@),
{
    let current_count = store.count_active_pods_for_deployment(deployment.name.as_str());
    let desired_count = deployment.replicas;
    proof {
        crate::store::lemma_count_active_bounds(store.pods@, deployment.name@);
    }
    if current_count < desired_count {
        let to_create = desired_count - current_count;
        let ghost pre = store.pods@;
        let ghost created: Seq<Pod> = Seq::empty();
        let mut created_tracker: Ghost<Seq<Pod>> = Ghost(created);
        let mut i: u32 = 0;
        while i < to_create
            invariant
                i <= to_create,
                to_create == desired_count - current_count,
                desired_count == deployment.replicas,
                current_count as int == count_active(pre, deployment.name@),
                current_count <= pre.len(),
                pre.len() + 2 * deployment.replicas + 2 <= u32::MAX,
                store.wf(),
                store.deployments@ == old(store).deployments@,
                store.nodes@ == old(store).nodes@,
                created_tracker@.len() == i,
                creations_ok(pre, *deployment, current_count as int, created_tracker@),
                store.pods@ == pods_after_creations(pre, created_tracker@),
                store.pods@.len() <= pre.len() + i,
            decreases to_create - i,
        {
            let p = create_pod_for_deployment(store, deployment, current_count + i);
            proof {
                assert(created_tracker@.push(p).drop_last() =~= created_tracker@);
                assert(created_tracker@.push(p).take(i as int) =~= created_tracker@);
            }
            let ghost prev_created = created_tracker@;
            proof {
                created_tracker@ = created_tracker@.push(p);
            }
            store.add_pod(p);
            proof {
                assert forall|j: int| 0 <= j < created_tracker@.len() implies created_pod_ok(
                    pods_after_creations(pre, created_tracker@.take(j)),
                    *deployment,
                    current_count + j,
                    #[trigger] created_tracker@[j],
                ) by {
                    if j < prev_created.len() {
                        assert(created_tracker@.take(j) =~= prev_created.take(j));
                        assert(created_tracker@[j] == prev_created[j]);
                    } else {
                        assert(created_tracker@.take(j) =~= prev_created);
                    }
                }
            }
            i = i + 1;
        }
        proof {
            assert(scale_reconcile_post(pre, *deployment, store.pods@, Seq::<u128>::empty()));
        }
        Vec::new()
    } else if current_count > desired_count {
        let to_terminate = current_count - desired_count;
        store.get_pods_to_terminate(deployment.name.as_str(), to_terminate)
    } else {
        Vec::new()
    }
}

// ---------------------------------------------------------------------------
// Rolling updates
// ---------------------------------------------------------------------------
/// Running pods in a sequence.
pub open spec fn count_running_pods(pods: Seq<Pod>) -> int
    decreases pods.len(),
{
    if pods.len() == 0 {
        0
    } else {
        count_running_pods(pods.drop_last()) + if pods.last().status == PodStatus::Running {
            1int
        } else {
            0int
        }
    }
}

/// How many new-revision pods a rolling-update step creates: enough to reach
/// the desired count, but never beyond `desired + max_surge` pods in total.
pub open spec fn surge_create_count(
    desired: int,
    surge: int,
    new_total: int,
    total_pods: int,
) -> int {
    min_int(sat_sub(desired + surge, total_pods), sat_sub(desired, new_total))
}

/// How many old-revision pods a rolling-update step terminates: the running
/// pods beyond `desired - max_unavailable`, capped by the old running pods,
/// and none at all before any new pod runs unless unavailability is allowed.
pub open spec fn retire_count(
    desired: int,
    unavail: int,
    total_running: int,
    new_running: int,
    old_running: int,
) -> int {
    let min_available = sat_sub(desired, unavail);
    if total_running > min_available {
        if new_running > 0 || unavail > 0 {
            min_int(total_running - min_available, old_running)
        } else {
            0
        }
    } else {
        0
    }
}

/// What a rolling-update step leaves behind: up to the surge bound of
/// new-revision pods created, and the ids of the old-revision pods to
/// retire, newest name first.
pub open spec fn rolling_reconcile_post(
    pre: Seq<Pod>,
    d: Deployment,
    post: Seq<Pod>,
    r: Seq<u128>,
) -> bool {
    let dn = d.name@;
    let new_running = count_running_rev(pre, dn, d.revision);
    let new_total = count_active_rev(pre, dn, d.revision);
    let old_pods = filter_old_rev(pre, dn, d.revision);
    let old_running = count_running_pods(old_pods);
    let old_total = old_pods.len() as int;
    let to_create = surge_create_count(
        d.replicas as int,
        d.rolling_update.max_surge as int,
        new_total,
        new_total + old_total,
    );
    let to_terminate = retire_count(
        d.replicas as int,
        d.rolling_update.max_unavailable as int,
        new_running + old_running,
        new_running,
        old_running,
    );
    &&& exists|created: Seq<Pod>|
        {
            &&& created.len() == to_create
            &&& #[trigger] creations_ok(pre, d, new_total, created)
            &&& post == pods_after_creations(pre, created)
        }
    &&& r == if to_terminate > 0 && old_total > 0 {
        pod_ids(
            take_up_to(
                sort_pods_desc(crate::store::filter_old_terminable(post, dn, d.revision)),
                to_terminate,
            ),
        )
    } else {
        Seq::<u128>::empty()
    }
}

/// Rolling-update reconciliation: create new-revision pods within the surge
/// bound, and pick old-revision pods to retire within the unavailability
/// bound. Returns the ids of the pods to retire.
pub fn reconcile_rolling_update(store: &mut Store, deployment: &Deployment) -> (r: Vec<u128>)
    requires
        old(store).wf(),
        old(store).pods@.len() + 2 * deployment.replicas + 2 * deployment.rolling_update.max_surge
            + 2 <= u32::MAX,
    ensures
        final(store).wf(),
        final(store).deployments@ == old(store).deployments@,
        final(store).nodes@ == old(store).nodes@,
        rolling_reconcile_post(old(store).pods@, *deployment, final(store).pods@, r@),
{
    let dn = deployment.name.as_str();
    let new_running = store.count_running_pods_for_revision(dn, deployment.revision);
    let new_total = store.count_active_pods_for_revision(dn, deployment.revision);
    let old_pods = store.get_old_revision_pods(dn, deployment.revision);
    proof {
        crate::store::lemma_count_active_rev_bounds(store.pods@, deployment.name@, deployment.revision);
        crate::store::lemma_count_running_rev_bounds(store.pods@, deployment.name@, deployment.revision);
        lemma_filter_old_rev_len(store.pods@, deployment.name@, deployment.revision);
        lemma_count_running_pods_bounds(filter_old_rev(store.pods@, deployment.name@, deployment.revision));
    }
    let old_running = count_running_in(&old_pods);
    let old_total = old_pods.len() as u64;
    let desired = deployment.replicas as u64;
    let surge = deployment.rolling_update.max_surge as u64;
    let unavail = deployment.rolling_update.max_unavailable as u64;
    let total_running: u64 = new_running as u64 + old_running;
    let total_pods: u64 = new_total as u64 + old_total;

    let max_total = desired + surge;
    let can_create = if max_total >= total_pods {
        max_total - total_pods
    } else {
        0
    };
    let new_pods_needed = if desired >= new_total as u64 {
        desired - new_total as u64
    } else {
        0
    };
    let to_create: u32 = (if can_create <= new_pods_needed {
        can_create
    } else {
        new_pods_needed
    }) as u32;

    let ghost pre = store.pods@;
    let mut created_tracker: Ghost<Seq<Pod>> = Ghost(Seq::empty());
    let mut i: u32 = 0;
    while i < to_create
        invariant
            i <= to_create,
            to_create as int == surge_create_count(
                deployment.replicas as int,
                deployment.rolling_update.max_surge as int,
                new_total as int,
                new_total as int + filter_old_rev(pre, deployment.name@, deployment.revision).len(),
            ),
            new_total as int == count_active_rev(pre, deployment.name@, deployment.revision),
            to_create <= deployment.replicas,
            new_total <= pre.len(),
            pre.len() + 2 * deployment.replicas + 2 * deployment.rolling_update.max_surge + 2
                <= u32::MAX,
            store.wf(),
            store.deployments@ == old(store).deployments@,
            store.nodes@ == old(store).nodes@,
            created_tracker@.len() == i,
            creations_ok(pre, *deployment, new_total as int, created_tracker@),
            store.pods@ == pods_after_creations(pre, created_tracker@),
            store.pods@.len() <= pre.len() + i,
        decreases to_create - i,
    {
        let p = create_pod_for_deployment(store, deployment, new_total + i);
        proof {
            assert(created_tracker@.push(p).drop_last() =~= created_tracker@);
            assert(created_tracker@.push(p).take(i as int) =~= created_tracker@);
        }
        let ghost prev_created = created_tracker@;
        proof {
            created_tracker@ = created_tracker@.push(p);
        }
        store.add_pod(p);
        proof {
            assert forall|j: int| 0 <= j < created_tracker@.len() implies created_pod_ok(
                pods_after_creations(pre, created_tracker@.take(j)),
                *deployment,
                new_total + j,
                #[trigger] created_tracker@[j],
            ) by {
                if j < prev_created.len() {
                    assert(created_tracker@.take(j) =~= prev_created.take(j));
                    assert(created_tracker@[j] == prev_created[j]);
                } else {
                    assert(created_tracker@.take(j) =~= prev_created);
                }
            }
        }
        i = i + 1;
    }

    let min_available = if desired >= unavail {
        desired - unavail
    } else {
        0
    };
    let can_terminate: u32 = (if total_running > min_available {
        let excess = total_running - min_available;
        if new_running > 0 || unavail > 0 {
            if excess <= old_running {
                excess
            } else {
                old_running
            }
        } else {
            0
        }
    } else {
        0
    }) as u32;

    if can_terminate > 0 && old_total > 0 {
        store.get_old_pods_to_terminate(dn, deployment.revision, can_terminate)
    } else {
        Vec::new()
    }
}

/// Running pods in a vector, exactly.
fn count_running_in(pods: &Vec<Pod>) -> (r: u64)
    requires
        pods@.len() <= u32::MAX,
    ensures
        r as int == count_running_pods(pods@),
{
    proof {
        lemma_count_running_pods_bounds(pods@);
    }
    let n = pods.len();
    let mut c: u64 = 0;
    let mut i: usize = 0;
    while i < n
        invariant
            n == pods@.len(),
            n <= u32::MAX,
            i <= n,
            c as int == count_running_pods(pods@.take(i as int)),
            c <= i,
        decreases n - i,
    {
        proof {
            assert(pods@.take(i + 1).drop_last() =~= pods@.take(i as int));
            assert(pods@.take(i + 1).last() == pods@[i as int]);
        }
        if pods[i].status == PodStatus::Running {
            c = c + 1;
        }
        i = i + 1;
    }
    proof {
        assert(pods@.take(n as int) =~= pods@);
    }
    c
}

pub proof fn lemma_count_running_pods_bounds(pods: Seq<Pod>)
    ensures
        0 <= count_running_pods(pods) <= pods.len(),
    decreases pods.len(),
{
    if pods.len() > 0 {
        lemma_count_running_pods_bounds(pods.drop_last());
    }
}

pub proof fn lemma_filter_old_rev_len(pods: Seq<Pod>, dn: Seq<char>, rev: u64)
    ensures
        filter_old_rev(pods, dn, rev).len() <= pods.len(),
    decreases pods.len(),
{
    if pods.len() > 0 {
        lemma_filter_old_rev_len(pods.drop_last(), dn, rev);
    }
}

// ---------------------------------------------------------------------------
// Dispatch
// ---------------------------------------------------------------------------
/// Whether the deployment has active, not-yet-terminating pods of older
/// revisions left: if so, a rolling update is in progress.
pub fn check_rolling_update_status(store: &Store, deployment: &Deployment) -> (r:
    RollingUpdateStatus)
    ensures
        r == RollingUpdateStatus::InProgress <==> filter_old_rev(
            store.pods@,
            deployment.name@,
            deployment.revision,
        ).len() != 0,
{
    let old_pods = store.get_old_revision_pods(deployment.name.as_str(), deployment.revision);
    if old_pods.is_empty() {
        RollingUpdateStatus::NoUpdate
    } else {
        RollingUpdateStatus::InProgress
    }
}

/// One reconciliation step for one deployment: skipped if the deployment
/// has meanwhile been deleted; otherwise a rolling-update step while pods
/// of older revisions remain, a scale step otherwise. Returns the ids of
/// pods to terminate.
pub fn reconcile_deployment(store: &mut Store, deployment: &Deployment) -> (r: Vec<u128>)
    requires
        old(store).wf(),
        old(store).pods@.len() + 2 * deployment.replicas + 2 * deployment.rolling_update.max_surge
            + 2 <= u32::MAX,
    ensures
        final(store).wf(),
        final(store).deployments@ == old(store).deployments@,
        final(store).nodes@ == old(store).nodes@,
        !has_deployment(old(store).deployments@, deployment.name@) ==> final(store).pods@ == old(
            store,
        ).pods@ && r@ == Seq::<u128>::empty(),
        has_deployment(old(store).deployments@, deployment.name@) && filter_old_rev(
            old(store).pods@,
            deployment.name@,
            deployment.revision,
        ).len() == 0 ==> scale_reconcile_post(
            old(store).pods@,
            *deployment,
            final(store).pods@,
            r@,
        ),
        has_deployment(old(store).deployments@, deployment.name@) && filter_old_rev(
            old(store).pods@,
            deployment.name@,
            deployment.revision,
        ).len() != 0 ==> rolling_reconcile_post(
            old(store).pods@,
            *deployment,
            final(store).pods@,
            r@,
        ),
{
    let exists_still = store.get_deployment(deployment.name.as_str()).is_some();
    if !exists_still {
        return Vec::new();
    }
    match check_rolling_update_status(store, deployment) {
        RollingUpdateStatus::InProgress => reconcile_rolling_update(store, deployment),
        RollingUpdateStatus::NoUpdate => reconcile_normal(store, deployment),
    }
}

// ---------------------------------------------------------------------------
// Pod termination protocol
// ---------------------------------------------------------------------------
/// What the caller must do next after starting a pod termination.
#[derive(Debug)]
pub enum TerminationStep {
    /// The pod is not in the store; nothing to do.
    NotFound,
    /// The pod is already `Terminated` and awaits collection; a repeated
    /// termination must not touch it again.
    AlreadyTerminated,
    /// The pod had no node, so it is already `Terminated`.
    Finished,
    /// The pod's node is gone from the store; the pod is back to `Running`
    /// and a later cycle may retry.
    Reverted,
    /// Ask the pod's node to delete it, then report the outcome to
    /// `finish_pod_termination`.
    AgentCall { pod_name: String, endpoint: String },
}

/// Starts terminating a pod. A pod already `Terminated` is left untouched,
/// so repeating a completed termination neither resurrects the pod nor
/// releases its node's resources a second time. An unassigned pod is
/// terminated outright; a pod whose node is unknown reverts to `Running`;
/// otherwise the pod turns `Terminating` (a pod already terminating is
/// driven on the same way — that is how a user's delete intent completes)
/// and the caller must issue the delete call to the returned agent
/// endpoint.
pub fn begin_pod_termination(store: &mut Store, pod_id: u128) -> (r: TerminationStep)
    requires
        old(store).wf(),
    ensures
        final(store).wf(),
        final(store).deployments@ == old(store).deployments@,
        final(store).nodes@ == old(store).nodes@,
        !has_pod(old(store).pods@, pod_id) ==> r == TerminationStep::NotFound && final(store).pods@
            == old(store).pods@,
        has_pod(old(store).pods@, pod_id) ==> ({
            let p = the_pod(old(store).pods@, pod_id);
            if p.status == PodStatus::Terminated {
                r == TerminationStep::AlreadyTerminated && final(store).pods@ == old(store).pods@
            } else {
                match p.node_name {
                    None => r == TerminationStep::Finished && final(store).pods@ == update_pod(
                        old(store).pods@,
                        pod_id,
                        pod_with_status(p, PodStatus::Terminated),
                    ),
                    Some(nn) => if has_node(old(store).nodes@, nn@) {
                        &&& r matches TerminationStep::AgentCall { pod_name, endpoint }
                        &&& pod_name == p.name
                        &&& endpoint@ == spec_endpoint(
                            the_node(old(store).nodes@, nn@).address@,
                            the_node(old(store).nodes@, nn@).port as int,
                        )
                        &&& final(store).pods@ == update_pod(
                            old(store).pods@,
                            pod_id,
                            pod_with_status(p, PodStatus::Terminating),
                        )
                    } else {
                        r == TerminationStep::Reverted && final(store).pods@ == update_pod(
                            old(store).pods@,
                            pod_id,
                            pod_with_status(p, PodStatus::Running),
                        )
                    },
                }
            }
        }),
{
    let snapshot = match store.get_pod(pod_id) {
        Some(pod) => {
            if pod.status == PodStatus::Terminated {
                return TerminationStep::AlreadyTerminated;
            }
            Some(
                (
                    pod.name.clone(),
                    match &pod.node_name {
                        Some(n) => Some(n.clone()),
                        None => None,
                    },
                ),
            )
        },
        None => None,
    };
    match snapshot {
        None => TerminationStep::NotFound,
        Some((name, node_name)) => {
            match node_name {
                None => {
                    store.update_pod_status(pod_id, PodStatus::Terminated);
                    TerminationStep::Finished
                },
                Some(nn) => {
                    let endpoint = match store.get_node(nn.as_str()) {
                        Some(node) => Some(node.endpoint()),
                        None => None,
                    };
                    match endpoint {
                        Some(ep) => {
                            store.update_pod_status(pod_id, PodStatus::Terminating);
                            TerminationStep::AgentCall { pod_name: name, endpoint: ep }
                        },
                        None => {
                            store.update_pod_status(pod_id, PodStatus::Running);
                            TerminationStep::Reverted
                        },
                    }
                },
            }
        },
    }
}

/// Finishes a pod termination after the agent's delete call: on success the
/// pod's reservation is released and the pod is `Terminated`; on failure the
/// pod reverts to `Running` so that a later cycle may retry.
pub fn finish_pod_termination(store: &mut Store, pod_id: u128, agent_delete_ok: bool)
    requires
        old(store).wf(),
    ensures
        final(store).wf(),
        final(store).deployments@ == old(store).deployments@,
        !has_pod(old(store).pods@, pod_id) ==> final(store).pods@ == old(store).pods@
            && final(store).nodes@ == old(store).nodes@,
        has_pod(old(store).pods@, pod_id) ==> ({
            let p = the_pod(old(store).pods@, pod_id);
            if agent_delete_ok {
                &&& final(store).pods@ == update_pod(
                    old(store).pods@,
                    pod_id,
                    pod_with_status(p, PodStatus::Terminated),
                )
                &&& final(store).nodes@ == match p.node_name {
                    Some(nn) => nodes_after_dealloc(old(store).nodes@, nn@, p.resources),
                    None => old(store).nodes@,
                }
            } else {
                &&& final(store).pods@ == update_pod(
                    old(store).pods@,
                    pod_id,
                    pod_with_status(p, PodStatus::Running),
                )
                &&& final(store).nodes@ == old(store).nodes@
            }
        }),
{
    let snapshot = match store.get_pod(pod_id) {
        Some(pod) => Some(
            (
                match &pod.node_name {
                    Some(n) => Some(n.clone()),
                    None => None,
                },
                pod.resources,
            ),
        ),
        None => None,
    };
    match snapshot {
        None => {},
        Some((node_name, resources)) => {
            if agent_delete_ok {
                if let Some(nn) = node_name {
                    store.deallocate_resources_on_node(nn.as_str(), &resources);
                }
                store.update_pod_status(pod_id, PodStatus::Terminated);
            } else {
                store.update_pod_status(pod_id, PodStatus::Running);
            }
        },
    }
}

/// Ids of the pods marked `Terminating`, in store order. A user's delete
/// writes that intent; the reconciler completes it by running the
/// termination protocol on each of these every tick.
pub open spec fn terminating_pod_ids(pods: Seq<Pod>) -> Seq<u128>
    decreases pods.len(),
{
    if pods.len() == 0 {
        Seq::empty()
    } else {
        terminating_pod_ids(pods.drop_last()) + if pods.last().status == PodStatus::Terminating {
            seq![pods.last().id]
        } else {
            Seq::empty()
        }
    }
}

/// The pods whose termination is still owed: everything marked
/// `Terminating`, whether by a user's delete or by an interrupted earlier
/// attempt.
pub fn collect_terminating_pods(store: &Store) -> (r: Vec<u128>)
    ensures
        r@ == terminating_pod_ids(store.pods@),
{
    let n = store.pods.len();
    let mut r: Vec<u128> = Vec::new();
    let mut i: usize = 0;
    while i < n
        invariant
            n == store.pods@.len(),
            i <= n,
            r@ == terminating_pod_ids(store.pods@.take(i as int)),
        decreases n - i,
    {
        proof {
            assert(store.pods@.take(i + 1).drop_last() =~= store.pods@.take(i as int));
            assert(store.pods@.take(i + 1).last() == store.pods@[i as int]);
        }
        if store.pods[i].status == PodStatus::Terminating {
            r.push(store.pods[i].id);
        }
        i = i + 1;
    }
    proof {
        assert(store.pods@.take(n as int) =~= store.pods@);
    }
    r
}

/// Ids of every pod of a deployment not yet terminated or terminating, in
/// store order.
pub open spec fn termination_targets(pods: Seq<Pod>, dn: Seq<char>) -> Seq<u128>
    decreases pods.len(),
{
    if pods.len() == 0 {
        Seq::empty()
    } else {
        termination_targets(pods.drop_last(), dn) + if pod_in_deployment(pods.last(), dn)
            && pods.last().status != PodStatus::Terminated && pods.last().status
            != PodStatus::Terminating {
            seq![pods.last().id]
        } else {
            Seq::empty()
        }
    }
}

/// The pods to terminate when a deployment is deleted: everything it owns
/// that is not already terminated or terminating. The caller runs the
/// termination protocol on each id.
pub fn terminate_deployment(store: &Store, deployment_name: &str) -> (r: Vec<u128>)
    ensures
        r@ == termination_targets(store.pods@, deployment_name@),
{
    let n = store.pods.len();
    let mut r: Vec<u128> = Vec::new();
    let mut i: usize = 0;
    while i < n
        invariant
            n == store.pods@.len(),
            i <= n,
            r@ == termination_targets(store.pods@.take(i as int), deployment_name@),
        decreases n - i,
    {
        proof {
            assert(store.pods@.take(i + 1).drop_last() =~= store.pods@.take(i as int));
            assert(store.pods@.take(i + 1).last() == store.pods@[i as int]);
        }
        let p = &store.pods[i];
        let in_dep = match &p.deployment_name {
            Some(dn) => str_eq(dn.as_str(), deployment_name),
            None => false,
        };
        if in_dep && p.status != PodStatus::Terminated && p.status != PodStatus::Terminating {
            r.push(p.id);
        }
        i = i + 1;
    }
    proof {
        assert(store.pods@.take(n as int) =~= store.pods@);
    }
    r
}

} // verus!
