//! The cluster-wide properties the library maintains, stated and proved
//! against the contracts of the store, the reconciler, the scheduler and
//! the termination protocol.

use vstd::prelude::*;

use crate::controller::{
    created_pod_ok, creations_ok, min_int, name_active, pods_after_creations, retire_count,
    surge_create_count,
};
use crate::models::{
    pod_in_deployment, sat_sub, status_active, status_terminable, Deployment, Pod, PodStatus,
    Resources,
};
use crate::scheduler::{select_spec, NodeCacheEntry, SchedulingStrategy};
use crate::store::{
    count_active, filter_terminable, has_pod, insert_pod_desc, pod_idx, pod_ids_unique,
    pod_with_status, sort_pods_desc, the_pod, update_pod, upsert_pod,
};
use crate::text::seq_char_lt;

verus! {

// ---------------------------------------------------------------------------
// Rolling update safety
// ---------------------------------------------------------------------------
/// A rolling-update step never surges past the bound: after creating the
/// pods it decides to create, the deployment holds at most
/// `desired + max_surge` pods — and never more than it already held.
pub proof fn lemma_rolling_update_surge_safe(
    desired: int,
    surge: int,
    new_total: int,
    old_total: int,
)
    requires
        0 <= desired,
        0 <= surge,
        0 <= new_total,
        0 <= old_total,
    ensures
        ({
            let total = new_total + old_total;
            let created = surge_create_count(desired, surge, new_total, total);
            &&& 0 <= created
            &&& total + created <= if total <= desired + surge {
                desired + surge
            } else {
                total
            }
        }),
{
}

/// A rolling-update step never retires below the availability floor: the
/// running pods that remain after the terminations it decides on are at
/// least `desired - max_unavailable` — unless fewer were running already,
/// in which case none are retired.
pub proof fn lemma_rolling_update_availability_safe(
    desired: int,
    unavail: int,
    new_running: int,
    old_running: int,
)
    requires
        0 <= desired,
        0 <= unavail,
        0 <= new_running,
        0 <= old_running,
    ensures
        ({
            let total_running = new_running + old_running;
            let retired = retire_count(desired, unavail, total_running, new_running, old_running);
            &&& 0 <= retired <= old_running
            &&& total_running - retired >= min_int(total_running, sat_sub(desired, unavail))
        }),
{
}

// ---------------------------------------------------------------------------
// Scheduler determinism
// ---------------------------------------------------------------------------
/// Placement is a function of the snapshot alone: two identical node caches,
/// requests and strategies select the same node. Together with
/// `Scheduler::select_node`'s contract — its result equals `select_spec` of
/// its inputs — identical store snapshots and pending pod order always
/// produce identical placements.
pub proof fn lemma_scheduler_deterministic(
    cache1: Seq<NodeCacheEntry>,
    cache2: Seq<NodeCacheEntry>,
    request1: Resources,
    request2: Resources,
    strategy1: SchedulingStrategy,
    strategy2: SchedulingStrategy,
)
    requires
        cache1 == cache2,
        request1 == request2,
        strategy1 == strategy2,
    ensures
        select_spec(cache1, request1, strategy1) == select_spec(cache2, request2, strategy2),
{
}

// ---------------------------------------------------------------------------
// Termination idempotence
// ---------------------------------------------------------------------------
/// Terminating a pod twice ends in the same terminal state as once. After
/// a successful termination the stored pod's status is `Terminated`, so a
/// repeated run stops at `begin_pod_termination`, whose contract leaves a
/// terminated pod untouched: the pod is not resurrected, no agent call is
/// issued, and the node's resources are not released a second time. Once
/// the pod has been garbage-collected, `begin_pod_termination` returns
/// `NotFound` and changes nothing, again by its contract. The second
/// clause records that even re-applying the terminal write would change
/// nothing.
pub proof fn lemma_termination_idempotent(pods: Seq<Pod>, pod_id: u128)
    requires
        pod_ids_unique(pods),
    ensures
        ({
            let once = update_pod(
                pods,
                pod_id,
                pod_with_status(the_pod(pods, pod_id), PodStatus::Terminated),
            );
            has_pod(pods, pod_id) ==> has_pod(once, pod_id) && the_pod(once, pod_id).status
                == PodStatus::Terminated
        }),
        ({
            let once = update_pod(
                pods,
                pod_id,
                pod_with_status(the_pod(pods, pod_id), PodStatus::Terminated),
            );
            let twice = update_pod(
                once,
                pod_id,
                pod_with_status(the_pod(once, pod_id), PodStatus::Terminated),
            );
            twice == once
        }),
{
    if has_pod(pods, pod_id) {
        let i = pod_idx(pods, pod_id);
        assert(0 <= i < pods.len() && pods[i].id == pod_id);
        let once = update_pod(
            pods,
            pod_id,
            pod_with_status(the_pod(pods, pod_id), PodStatus::Terminated),
        );
        assert(once[i].id == pod_id);
        assert forall|a: int, b: int| 0 <= a < b < once.len() implies once[a].id != once[b].id by {
            assert(once[a].id == pods[a].id);
            assert(once[b].id == pods[b].id);
        }
        crate::store::lemma_pod_idx_of(once, pod_id, i);
        let twice = update_pod(
            once,
            pod_id,
            pod_with_status(the_pod(once, pod_id), PodStatus::Terminated),
        );
        assert(twice =~= once);
    }
}

// ---------------------------------------------------------------------------
// Pod name uniqueness
// ---------------------------------------------------------------------------
/// Among the active pods of a deployment, names never collide.
pub open spec fn active_names_unique(pods: Seq<Pod>, dn: Seq<char>) -> bool {
    forall|i: int, j: int|
        0 <= i < j < pods.len() && pod_in_deployment(#[trigger] pods[i], dn) && status_active(
            pods[i].status,
        ) && pod_in_deployment(#[trigger] pods[j], dn) && status_active(pods[j].status)
            ==> pods[i].name@ != pods[j].name@
}

/// A prefix of a valid creation run is a valid creation run.
proof fn lemma_creations_ok_prefix(pre: Seq<Pod>, d: Deployment, base: int, created: Seq<Pod>)
    requires
        creations_ok(pre, d, base, created),
        created.len() > 0,
    ensures
        creations_ok(pre, d, base, created.drop_last()),
{
    let prefix = created.drop_last();
    assert forall|i: int| 0 <= i < prefix.len() implies created_pod_ok(
        pods_after_creations(pre, prefix.take(i)),
        d,
        base + i,
        #[trigger] prefix[i],
    ) by {
        assert(prefix.take(i) =~= created.take(i));
        assert(prefix[i] == created[i]);
    }
}

/// Inserting a pod of the deployment whose name no active pod carries keeps
/// active names unique.
proof fn lemma_upsert_fresh_name_keeps_unique(pods: Seq<Pod>, dn: Seq<char>, p: Pod)
    requires
        active_names_unique(pods, dn),
        pod_in_deployment(p, dn) ==> !name_active(pods, dn, p.name@),
    ensures
        active_names_unique(upsert_pod(pods, p), dn),
{
    let post = upsert_pod(pods, p);
    if has_pod(pods, p.id) {
        let k = pod_idx(pods, p.id);
        assert(0 <= k < pods.len() && pods[k].id == p.id);
        assert forall|i: int, j: int|
            0 <= i < j < post.len() && pod_in_deployment(#[trigger] post[i], dn) && status_active(
                post[i].status,
            ) && pod_in_deployment(#[trigger] post[j], dn) && status_active(post[j].status)
            implies post[i].name@ != post[j].name@ by {
            if i != k && j != k {
                assert(post[i] == pods[i]);
                assert(post[j] == pods[j]);
            } else {
                let other = if i == k {
                    j
                } else {
                    i
                };
                assert(post[other] == pods[other]);
                if pod_in_deployment(p, dn) && status_active(p.status) {
                    assert(!name_active(pods, dn, p.name@));
                    assert(pod_in_deployment(pods[other], dn) && status_active(
                        pods[other].status,
                    ));
                    if pods[other].name@ == p.name@ {
                        assert(name_active(pods, dn, p.name@));
                    }
                }
            }
        }
    } else {
        assert forall|i: int, j: int|
            0 <= i < j < post.len() && pod_in_deployment(#[trigger] post[i], dn) && status_active(
                post[i].status,
            ) && pod_in_deployment(#[trigger] post[j], dn) && status_active(post[j].status)
            implies post[i].name@ != post[j].name@ by {
            if j < pods.len() {
                assert(post[i] == pods[i]);
                assert(post[j] == pods[j]);
            } else {
                assert(post[j] == p);
                assert(post[i] == pods[i]);
                if pods[i].name@ == p.name@ {
                    assert(name_active(pods, dn, p.name@));
                }
            }
        }
    }
}

/// Creating pods the reconciler's way keeps the active names of the
/// deployment collision-free: every new pod takes a name no active pod
/// carried at the moment it was built.
pub proof fn lemma_creations_keep_names_unique(
    pre: Seq<Pod>,
    d: Deployment,
    base: int,
    created: Seq<Pod>,
)
    requires
        active_names_unique(pre, d.name@),
        creations_ok(pre, d, base, created),
    ensures
        active_names_unique(pods_after_creations(pre, created), d.name@),
    decreases created.len(),
{
    if created.len() > 0 {
        let prefix = created.drop_last();
        let p = created.last();
        lemma_creations_ok_prefix(pre, d, base, created);
        lemma_creations_keep_names_unique(pre, d, base, prefix);
        let mid = pods_after_creations(pre, prefix);
        assert(created.take(created.len() - 1) =~= prefix);
        assert(created_pod_ok(mid, d, base + created.len() - 1, p));
        assert(pod_in_deployment(p, d.name@));
        lemma_upsert_fresh_name_keeps_unique(mid, d.name@, p);
    }
}

// ---------------------------------------------------------------------------
// Scale-up convergence
// ---------------------------------------------------------------------------
/// Appending an active pod of the deployment raises its active count by
/// one.
proof fn lemma_count_active_push(pods: Seq<Pod>, dn: Seq<char>, p: Pod)
    requires
        pod_in_deployment(p, dn),
        status_active(p.status),
    ensures
        count_active(pods.push(p), dn) == count_active(pods, dn) + 1,
{
    assert(pods.push(p).drop_last() =~= pods);
    assert(pods.push(p).last() == p);
}

/// Scale-up convergence: a scale reconciliation that creates the missing
/// pods brings the deployment's active count exactly to its desired
/// replicas. Every created pod carries a fresh id, so each insertion
/// appends.
pub proof fn lemma_scale_up_reaches_desired(pre: Seq<Pod>, d: Deployment, created: Seq<Pod>)
    requires
        creations_ok(pre, d, count_active(pre, d.name@), created),
        count_active(pre, d.name@) + created.len() == d.replicas,
    ensures
        count_active(pods_after_creations(pre, created), d.name@) == d.replicas,
{
    lemma_creations_add_active(pre, d, count_active(pre, d.name@), created);
}

/// Creations strictly append: every created pod carries a fresh id, so no
/// existing pod is replaced and the store grows by exactly one pod per
/// creation.
pub proof fn lemma_creations_append(pre: Seq<Pod>, d: Deployment, base: int, created: Seq<Pod>)
    requires
        creations_ok(pre, d, base, created),
    ensures
        pods_after_creations(pre, created).len() == pre.len() + created.len(),
        forall|k: int|
            0 <= k < pre.len() ==> #[trigger] pods_after_creations(pre, created)[k] == pre[k],
    decreases created.len(),
{
    if created.len() > 0 {
        let prefix = created.drop_last();
        let p = created.last();
        lemma_creations_ok_prefix(pre, d, base, created);
        lemma_creations_append(pre, d, base, prefix);
        let mid = pods_after_creations(pre, prefix);
        assert(created.take(created.len() - 1) =~= prefix);
        assert(created_pod_ok(mid, d, base + created.len() - 1, p));
        assert(!has_pod(mid, p.id));
        assert(pods_after_creations(pre, created) == mid.push(p));
    }
}

/// Each creation adds exactly one active pod of the deployment.
proof fn lemma_creations_add_active(pre: Seq<Pod>, d: Deployment, base: int, created: Seq<Pod>)
    requires
        creations_ok(pre, d, base, created),
    ensures
        count_active(pods_after_creations(pre, created), d.name@) == count_active(pre, d.name@)
            + created.len(),
    decreases created.len(),
{
    if created.len() > 0 {
        let prefix = created.drop_last();
        let p = created.last();
        lemma_creations_ok_prefix(pre, d, base, created);
        lemma_creations_add_active(pre, d, base, prefix);
        let mid = pods_after_creations(pre, prefix);
        assert(created.take(created.len() - 1) =~= prefix);
        assert(created_pod_ok(mid, d, base + created.len() - 1, p));
        assert(!has_pod(mid, p.id));
        assert(pods_after_creations(pre, created) == mid.push(p));
        lemma_count_active_push(mid, d.name@, p);
    }
}

// ---------------------------------------------------------------------------
// Scale-down convergence
// ---------------------------------------------------------------------------
/// Inserting into a name-sorted sequence only rearranges: the multiset of
/// pods is the old one plus the new pod.
proof fn lemma_insert_pod_desc_multiset(s: Seq<Pod>, p: Pod)
    ensures
        insert_pod_desc(s, p).to_multiset() == s.to_multiset().insert(p),
    decreases s.len(),
{
    broadcast use vstd::seq_lib::group_to_multiset_ensures;

    if s.len() == 0 {
        assert(insert_pod_desc(s, p) =~= Seq::empty().push(p));
        assert(Seq::<Pod>::empty().push(p).to_multiset() =~= s.to_multiset().insert(p));
    } else if seq_char_lt(s[0].name@, p.name@) {
        assert(insert_pod_desc(s, p) =~= s.insert(0, p));
        vstd::seq_lib::to_multiset_insert(s, 0, p);
    } else {
        let t = s.drop_first();
        lemma_insert_pod_desc_multiset(t, p);
        vstd::seq_lib::lemma_multiset_commutative(seq![s[0]], insert_pod_desc(t, p));
        vstd::seq_lib::lemma_multiset_commutative(seq![s[0]], t);
        assert(s =~= seq![s[0]] + t);
        assert(insert_pod_desc(s, p).to_multiset() =~= s.to_multiset().insert(p)) by {
            assert(insert_pod_desc(s, p) == seq![s[0]] + insert_pod_desc(t, p));
            assert((seq![s[0]] + insert_pod_desc(t, p)).to_multiset()
                == seq![s[0]].to_multiset().add(insert_pod_desc(t, p).to_multiset()));
            assert(s.to_multiset() == seq![s[0]].to_multiset().add(t.to_multiset()));
        }
    }
}

/// Sorting by name only rearranges the pods.
proof fn lemma_sort_pods_desc_multiset(s: Seq<Pod>)
    ensures
        sort_pods_desc(s).to_multiset() == s.to_multiset(),
    decreases s.len(),
{
    broadcast use vstd::seq_lib::group_to_multiset_ensures;

    if s.len() > 0 {
        let dl = s.drop_last();
        lemma_sort_pods_desc_multiset(dl);
        lemma_insert_pod_desc_multiset(sort_pods_desc(dl), s.last());
        assert(s =~= dl.push(s.last()));
    }
}

/// A value a multiset holds twice sits at two distinct indices.
proof fn lemma_multiset_dup_two_indices(s: Seq<Pod>, x: Pod)
    requires
        s.to_multiset().count(x) >= 2,
    ensures
        exists|i: int, j: int| 0 <= i < j < s.len() && s[i] == x && s[j] == x,
    decreases s.len(),
{
    broadcast use vstd::seq_lib::group_to_multiset_ensures;

    let dl = s.drop_last();
    assert(s =~= dl.push(s.last()));
    if s.last() == x {
        if dl.to_multiset().count(x) >= 1 {
            let i = choose|i: int| 0 <= i < dl.len() && dl[i] == x;
            assert(s[i] == x && s[s.len() - 1] == x);
            assert(0 <= i < s.len() - 1 < s.len());
        } else {
            assert(s.to_multiset().count(x) == dl.to_multiset().count(x) + 1);
            assert(false);
        }
    } else {
        assert(dl.to_multiset().count(x) >= 2);
        lemma_multiset_dup_two_indices(dl, x);
        let (i, j) = choose|i: int, j: int| 0 <= i < j < dl.len() && dl[i] == x && dl[j] == x;
        assert(s[i] == x && s[j] == x);
    }
}

/// Every pod the termination filter selects is a pod of the store, belongs
/// to the deployment, and can be terminated.
proof fn lemma_filter_terminable_elements(pods: Seq<Pod>, dn: Seq<char>)
    ensures
        forall|k: int|
            0 <= k < filter_terminable(pods, dn).len() ==> {
                let p = #[trigger] filter_terminable(pods, dn)[k];
                &&& exists|i: int| 0 <= i < pods.len() && pods[i] == p
                &&& pod_in_deployment(p, dn)
                &&& status_terminable(p.status)
            },
    decreases pods.len(),
{
    if pods.len() > 0 {
        let dl = pods.drop_last();
        lemma_filter_terminable_elements(dl, dn);
        let f = filter_terminable(pods, dn);
        let fd = filter_terminable(dl, dn);
        assert forall|k: int| 0 <= k < f.len() implies {
            let p = #[trigger] f[k];
            &&& exists|i: int| 0 <= i < pods.len() && pods[i] == p
            &&& pod_in_deployment(p, dn)
            &&& status_terminable(p.status)
        } by {
            if k < fd.len() {
                assert(f[k] == fd[k]);
                let i = choose|i: int| 0 <= i < dl.len() && dl[i] == fd[k];
                assert(pods[i] == f[k]);
            } else {
                assert(f[k] == pods.last());
                assert(pods[pods.len() - 1] == f[k]);
            }
        }
    }
}

/// With no terminating pod in the deployment, the termination candidates
/// are exactly the active pods.
proof fn lemma_filter_terminable_len(pods: Seq<Pod>, dn: Seq<char>)
    requires
        forall|i: int|
            0 <= i < pods.len() && pod_in_deployment(#[trigger] pods[i], dn) ==> pods[i].status
                != PodStatus::Terminating,
    ensures
        filter_terminable(pods, dn).len() == count_active(pods, dn),
    decreases pods.len(),
{
    if pods.len() > 0 {
        let dl = pods.drop_last();
        assert forall|i: int|
            0 <= i < dl.len() && pod_in_deployment(#[trigger] dl[i], dn) implies dl[i].status
            != PodStatus::Terminating by {
            assert(dl[i] == pods[i]);
        }
        lemma_filter_terminable_len(dl, dn);
    }
}

/// The ids of a pod sequence, index by index.
proof fn lemma_pod_ids_index(s: Seq<Pod>)
    ensures
        crate::store::pod_ids(s).len() == s.len(),
        forall|i: int| 0 <= i < s.len() ==> crate::store::pod_ids(s)[i] == (#[trigger] s[i]).id,
    decreases s.len(),
{
    if s.len() > 0 {
        let dl = s.drop_last();
        lemma_pod_ids_index(dl);
        assert forall|i: int| 0 <= i < s.len() implies crate::store::pod_ids(s)[i] == (
        #[trigger] s[i]).id by {
            if i < s.len() - 1 {
                assert(dl[i] == s[i]);
            }
        }
    }
}

/// Replacing one pod changes the active count by the difference of the two
/// pods' contributions.
proof fn lemma_count_active_update(pods: Seq<Pod>, dn: Seq<char>, i: int, p: Pod)
    requires
        0 <= i < pods.len(),
    ensures
        count_active(pods.update(i, p), dn) == count_active(pods, dn) - (
        if pod_in_deployment(pods[i], dn) && status_active(pods[i].status) {
            1int
        } else {
            0int
        }) + (if pod_in_deployment(p, dn) && status_active(p.status) {
            1int
        } else {
            0int
        }),
    decreases pods.len(),
{
    let post = pods.update(i, p);
    if i == pods.len() - 1 {
        assert(post.drop_last() =~= pods.drop_last());
        assert(post.last() == p);
    } else {
        assert(post.drop_last() =~= pods.drop_last().update(i, p));
        assert(post.last() == pods.last());
        lemma_count_active_update(pods.drop_last(), dn, i, p);
        assert(pods.drop_last()[i] == pods[i]);
    }
}

/// The pod records after successfully terminating each identified pod in
/// turn: each one's status becomes `Terminated`.
pub open spec fn pods_after_terminations(pods: Seq<Pod>, ids: Seq<u128>) -> Seq<Pod>
    decreases ids.len(),
{
    if ids.len() == 0 {
        pods
    } else {
        let prev = pods_after_terminations(pods, ids.drop_last());
        update_pod(
            prev,
            ids.last(),
            pod_with_status(the_pod(prev, ids.last()), PodStatus::Terminated),
        )
    }
}

/// Terminating distinct active pods of a deployment, one after the other,
/// lowers its active count by exactly their number; every other pod stays
/// as it was.
proof fn lemma_terminations_reduce_active(pods: Seq<Pod>, dn: Seq<char>, ids: Seq<u128>)
    requires
        pod_ids_unique(pods),
        forall|i: int, j: int| 0 <= i < j < ids.len() ==> ids[i] != ids[j],
        forall|i: int|
            0 <= i < ids.len() ==> {
                &&& has_pod(pods, #[trigger] ids[i])
                &&& pod_in_deployment(the_pod(pods, ids[i]), dn)
                &&& status_active(the_pod(pods, ids[i]).status)
            },
    ensures
        pods_after_terminations(pods, ids).len() == pods.len(),
        forall|k: int|
            0 <= k < pods.len() ==> #[trigger] pods_after_terminations(pods, ids)[k] == (
            if ids.contains(pods[k].id) {
                pod_with_status(pods[k], PodStatus::Terminated)
            } else {
                pods[k]
            }),
        count_active(pods_after_terminations(pods, ids), dn) == count_active(pods, dn)
            - ids.len(),
    decreases ids.len(),
{
    if ids.len() > 0 {
        let prefix = ids.drop_last();
        let last = ids.last();
        assert forall|i: int| 0 <= i < prefix.len() implies {
            &&& has_pod(pods, #[trigger] prefix[i])
            &&& pod_in_deployment(the_pod(pods, prefix[i]), dn)
            &&& status_active(the_pod(pods, prefix[i]).status)
        } by {
            assert(prefix[i] == ids[i]);
        }
        lemma_terminations_reduce_active(pods, dn, prefix);
        let prev = pods_after_terminations(pods, prefix);
        // The pod named last is untouched so far: its id is not in the prefix.
        let i = pod_idx(pods, last);
        assert(0 <= i < pods.len() && pods[i].id == last);
        assert(!prefix.contains(pods[i].id)) by {
            if prefix.contains(pods[i].id) {
                let j = choose|j: int| 0 <= j < prefix.len() && prefix[j] == pods[i].id;
                assert(ids[j] == ids[ids.len() - 1]);
            }
        }
        assert(prev[i] == pods[i]);
        assert forall|a: int, b: int| 0 <= a < b < prev.len() implies prev[a].id != prev[b].id by {
            assert(prev[a].id == pods[a].id && prev[b].id == pods[b].id);
        }
        crate::store::lemma_pod_idx_of(prev, last, i);
        lemma_count_active_update(prev, dn, i, pod_with_status(prev[i], PodStatus::Terminated));
        assert forall|k: int|
            0 <= k < pods.len() implies #[trigger] pods_after_terminations(pods, ids)[k] == (
        if ids.contains(pods[k].id) {
            pod_with_status(pods[k], PodStatus::Terminated)
        } else {
            pods[k]
        }) by {
            if ids.contains(pods[k].id) {
                let j = choose|j: int| 0 <= j < ids.len() && ids[j] == pods[k].id;
                if j < prefix.len() {
                    assert(prefix[j] == ids[j]);
                    assert(prefix.contains(pods[k].id));
                } else {
                    assert(pods[k].id == last);
                    assert(k == i);
                }
            } else {
                assert(!prefix.contains(pods[k].id)) by {
                    if prefix.contains(pods[k].id) {
                        let j = choose|j: int| 0 <= j < prefix.len() && prefix[j] == pods[k].id;
                        assert(ids[j] == pods[k].id);
                        assert(ids.contains(pods[k].id));
                    }
                }
                assert(pods[k].id != last);
                assert(k != i);
            }
        }
    }
}

/// Scale-down convergence: terminating the pods a scale reconciliation
/// picks — when each agent delete succeeds — brings the deployment's active
/// count exactly to its desired replicas. Stated for a steady store, where
/// no pod of the deployment is already terminating.
pub proof fn lemma_scale_down_reaches_desired(pre: Seq<Pod>, d: Deployment, r: Seq<u128>)
    requires
        pod_ids_unique(pre),
        count_active(pre, d.name@) > d.replicas,
        forall|i: int|
            0 <= i < pre.len() && pod_in_deployment(#[trigger] pre[i], d.name@) ==> pre[i].status
                != PodStatus::Terminating,
        r == crate::store::pod_ids(
            crate::store::take_up_to(
                sort_pods_desc(filter_terminable(pre, d.name@)),
                count_active(pre, d.name@) - d.replicas,
            ),
        ),
    ensures
        r.len() == count_active(pre, d.name@) - d.replicas,
        count_active(pods_after_terminations(pre, r), d.name@) == d.replicas,
{
    broadcast use vstd::seq_lib::group_to_multiset_ensures;

    let dn = d.name@;
    let k = count_active(pre, dn) - d.replicas;
    let f = filter_terminable(pre, dn);
    let sorted = sort_pods_desc(f);
    lemma_filter_terminable_len(pre, dn);
    lemma_sort_pods_desc_multiset(f);
    vstd::seq_lib::to_multiset_len(sorted);
    vstd::seq_lib::to_multiset_len(f);
    assert(sorted.len() == f.len());
    let chosen = crate::store::take_up_to(sorted, k);
    assert(chosen =~= sorted.take(k));
    assert(chosen.len() == k);
    lemma_pod_ids_index(chosen);
    lemma_filter_terminable_elements(pre, dn);

    // Each chosen pod is a pod the filter selected.
    assert forall|i: int| 0 <= i < k implies f.contains(#[trigger] chosen[i]) by {
        assert(chosen[i] == sorted[i]);
        assert(sorted.contains(sorted[i]));
        assert(sorted.to_multiset().count(sorted[i]) > 0);
        assert(f.to_multiset().count(sorted[i]) > 0);
    }

    // The filter keeps ids unique, because the store does.
    lemma_filter_terminable_submultiset(pre, dn);
    assert forall|a: int, b: int| 0 <= a < b < f.len() implies f[a].id != f[b].id by {
        if f[a].id == f[b].id {
            if f[a] == f[b] {
                // The same pod twice in the filter means it appears twice in
                // the store, which unique ids rule out.
                lemma_multiset_dup_two_indices_converse(f, a, b);
                assert(pre.to_multiset().count(f[a]) >= 2);
                lemma_multiset_dup_two_indices(pre, f[a]);
                let (x, y) = choose|x: int, y: int|
                    0 <= x < y < pre.len() && pre[x] == f[a] && pre[y] == f[a];
                assert(pre[x].id != pre[y].id);
                assert(false);
            } else {
                let ia = choose|i: int| 0 <= i < pre.len() && pre[i] == f[a];
                let ib = choose|i: int| 0 <= i < pre.len() && pre[i] == f[b];
                assert(pre[ia] == f[a] && pre[ib] == f[b]);
                assert(ia != ib);
                if ia < ib {
                    assert(pre[ia].id != pre[ib].id);
                } else {
                    assert(pre[ib].id != pre[ia].id);
                }
                assert(false);
            }
        }
    }

    // The chosen ids are pairwise distinct.
    assert forall|a: int, b: int| 0 <= a < b < k implies r[a] != r[b] by {
        assert(r[a] == chosen[a].id && r[b] == chosen[b].id);
        assert(chosen[a] == sorted[a] && chosen[b] == sorted[b]);
        if chosen[a].id == chosen[b].id {
            if chosen[a] == chosen[b] {
                lemma_multiset_dup_two_indices_converse(sorted, a, b);
                assert(f.to_multiset().count(chosen[a]) >= 2);
                lemma_multiset_dup_two_indices(f, chosen[a]);
                let (x, y) = choose|x: int, y: int|
                    0 <= x < y < f.len() && f[x] == chosen[a] && f[y] == chosen[a];
                assert(f[x].id != f[y].id);
                assert(false);
            } else {
                assert(f.contains(chosen[a]) && f.contains(chosen[b]));
                let x = choose|i: int| 0 <= i < f.len() && f[i] == chosen[a];
                let y = choose|i: int| 0 <= i < f.len() && f[i] == chosen[b];
                assert(x != y);
                if x < y {
                    assert(f[x].id != f[y].id);
                } else {
                    assert(f[y].id != f[x].id);
                }
                assert(false);
            }
        }
    }

    // Each chosen id names an active pod of the deployment in the store.
    assert forall|i: int| 0 <= i < k implies {
        &&& has_pod(pre, #[trigger] r[i])
        &&& pod_in_deployment(the_pod(pre, r[i]), dn)
        &&& status_active(the_pod(pre, r[i]).status)
    } by {
        let p = chosen[i];
        let x = choose|x: int| 0 <= x < f.len() && f[x] == p;
        let j = choose|j: int| 0 <= j < pre.len() && pre[j] == p;
        crate::store::lemma_pod_idx_of(pre, p.id, j);
        assert(the_pod(pre, r[i]) == p);
    }

    lemma_terminations_reduce_active(pre, dn, r);
}

/// The filter never multiplies a pod: its multiset is contained in the
/// store's.
proof fn lemma_filter_terminable_submultiset(pods: Seq<Pod>, dn: Seq<char>)
    ensures
        forall|x: Pod| #[trigger] filter_terminable(pods, dn).to_multiset().count(x)
            <= pods.to_multiset().count(x),
    decreases pods.len(),
{
    broadcast use vstd::seq_lib::group_to_multiset_ensures;

    if pods.len() > 0 {
        let dl = pods.drop_last();
        lemma_filter_terminable_submultiset(dl, dn);
        assert(pods =~= dl.push(pods.last()));
        let f = filter_terminable(pods, dn);
        let fd = filter_terminable(dl, dn);
        if pod_in_deployment(pods.last(), dn) && status_terminable(pods.last().status) {
            assert(f =~= fd.push(pods.last()));
        } else {
            assert(f =~= fd);
        }
    }
}

/// Two indices holding the same value put its multiset count at two or
/// more.
proof fn lemma_multiset_dup_two_indices_converse(s: Seq<Pod>, a: int, b: int)
    requires
        0 <= a < b < s.len(),
        s[a] == s[b],
    ensures
        s.to_multiset().count(s[a]) >= 2,
{
    broadcast use vstd::seq_lib::group_to_multiset_ensures;

    let without = s.remove(a);
    vstd::seq_lib::to_multiset_remove(s, a);
    s.remove_ensures(a);
    assert(without[b - 1] == s[b]);
    assert(without.contains(s[b]));
    assert(without.to_multiset().count(s[b]) >= 1);
    assert(s.to_multiset().count(s[a]) == without.to_multiset().count(s[a]) + 1);
}

// ---------------------------------------------------------------------------
// Assignment: running and creating pods are always bound to a node
// ---------------------------------------------------------------------------
/// Every pod that runs or is being created has a node assigned.
pub open spec fn pods_assigned_ok(pods: Seq<Pod>) -> bool {
    forall|i: int|
        0 <= i < pods.len() && ((#[trigger] pods[i]).status == PodStatus::Running
            || pods[i].status == PodStatus::Creating) ==> pods[i].node_name is Some
}

/// Freshly created pods are pending and unassigned, so creation keeps the
/// assignment invariant.
pub proof fn lemma_creations_keep_assigned(
    pre: Seq<Pod>,
    d: Deployment,
    base: int,
    created: Seq<Pod>,
)
    requires
        pods_assigned_ok(pre),
        creations_ok(pre, d, base, created),
    ensures
        pods_assigned_ok(pods_after_creations(pre, created)),
    decreases created.len(),
{
    if created.len() > 0 {
        let prefix = created.drop_last();
        let p = created.last();
        lemma_creations_ok_prefix(pre, d, base, created);
        lemma_creations_keep_assigned(pre, d, base, prefix);
        let mid = pods_after_creations(pre, prefix);
        assert(created.take(created.len() - 1) =~= prefix);
        assert(created_pod_ok(mid, d, base + created.len() - 1, p));
        let post = upsert_pod(mid, p);
        assert forall|i: int|
            0 <= i < post.len() && ((#[trigger] post[i]).status == PodStatus::Running
                || post[i].status == PodStatus::Creating) implies post[i].node_name is Some by {
            if post[i] != p {
                assert(post[i] == mid[i]);
            }
        }
    }
}

/// Binding a pod assigns its node before it turns `Creating`, so binding
/// keeps the assignment invariant.
pub proof fn lemma_bind_keeps_assigned(pods: Seq<Pod>, id: u128, node_name: String)
    requires
        pods_assigned_ok(pods),
    ensures
        pods_assigned_ok(
            update_pod(pods, id, crate::scheduler::pod_bound(the_pod(pods, id), node_name)),
        ),
{
    let post = update_pod(pods, id, crate::scheduler::pod_bound(the_pod(pods, id), node_name));
    assert forall|i: int|
        0 <= i < post.len() && ((#[trigger] post[i]).status == PodStatus::Running || post[i].status
            == PodStatus::Creating) implies post[i].node_name is Some by {
        if has_pod(pods, id) && i == pod_idx(pods, id) {
        } else {
            assert(post[i] == pods[i]);
        }
    }
}

/// A status change keeps the assignment invariant as long as it never turns
/// an unassigned pod running or creating.
pub proof fn lemma_status_change_keeps_assigned(pods: Seq<Pod>, id: u128, st: PodStatus)
    requires
        pods_assigned_ok(pods),
        (st == PodStatus::Running || st == PodStatus::Creating) && has_pod(pods, id) ==> the_pod(
            pods,
            id,
        ).node_name is Some,
    ensures
        pods_assigned_ok(update_pod(pods, id, pod_with_status(the_pod(pods, id), st))),
{
    let post = update_pod(pods, id, pod_with_status(the_pod(pods, id), st));
    assert forall|i: int|
        0 <= i < post.len() && ((#[trigger] post[i]).status == PodStatus::Running || post[i].status
            == PodStatus::Creating) implies post[i].node_name is Some by {
        if has_pod(pods, id) && i == pod_idx(pods, id) {
        } else {
            assert(post[i] == pods[i]);
        }
    }
}

/// A heartbeat report keeps the assignment invariant as long as an agent
/// never reports running or creating for a pod the master has not bound.
pub proof fn lemma_report_keeps_assigned(pods: Seq<Pod>, report: crate::models::PodStatusReport)
    requires
        pods_assigned_ok(pods),
        (report.status == PodStatus::Running || report.status == PodStatus::Creating) && has_pod(
            pods,
            report.pod_id,
        ) ==> the_pod(pods, report.pod_id).node_name is Some,
    ensures
        pods_assigned_ok(
            update_pod(
                pods,
                report.pod_id,
                crate::store::pod_after_report(the_pod(pods, report.pod_id), report),
            ),
        ),
{
    let post = update_pod(
        pods,
        report.pod_id,
        crate::store::pod_after_report(the_pod(pods, report.pod_id), report),
    );
    assert forall|i: int|
        0 <= i < post.len() && ((#[trigger] post[i]).status == PodStatus::Running || post[i].status
            == PodStatus::Creating) implies post[i].node_name is Some by {
        if has_pod(pods, report.pod_id) && i == pod_idx(pods, report.pod_id) {
            assert(post[i].node_name == the_pod(pods, report.pod_id).node_name);
            assert(pods[i] == the_pod(pods, report.pod_id));
        } else {
            assert(post[i] == pods[i]);
        }
    }
}

/// Garbage collection keeps the assignment invariant.
pub proof fn lemma_gc_keeps_assigned(pods: Seq<Pod>)
    requires
        pods_assigned_ok(pods),
    ensures
        pods_assigned_ok(crate::store::gc_keep(pods)),
    decreases pods.len(),
{
    if pods.len() > 0 {
        let dl = pods.drop_last();
        assert(forall|i: int| 0 <= i < dl.len() ==> dl[i] == pods[i]);
        lemma_gc_keeps_assigned(dl);
        let g = crate::store::gc_keep(pods);
        let gd = crate::store::gc_keep(dl);
        assert forall|i: int|
            0 <= i < g.len() && ((#[trigger] g[i]).status == PodStatus::Running || g[i].status
                == PodStatus::Creating) implies g[i].node_name is Some by {
            if i < gd.len() {
                assert(g[i] == gd[i]);
            } else {
                assert(g[i] == pods.last());
            }
        }
    }
}

// ---------------------------------------------------------------------------
// Resource accounting: a node's usage is the sum of what is charged to it
// ---------------------------------------------------------------------------
/// A pod is charged to the node it is bound to while it is being created,
/// running, or on its way out but not yet confirmed gone.
pub open spec fn charged_status(s: PodStatus) -> bool {
    s == PodStatus::Creating || s == PodStatus::Running || s == PodStatus::Terminating
}

pub open spec fn pod_charged_on(p: Pod, n: Seq<char>) -> bool {
    match p.node_name {
        Some(nn) => nn@ == n && charged_status(p.status),
        None => false,
    }
}

/// The CPU a pod contributes to a node's accounting.
pub open spec fn cpu_contrib(p: Pod, n: Seq<char>) -> int {
    if pod_charged_on(p, n) {
        p.resources.cpu_millis as int
    } else {
        0
    }
}

/// The memory a pod contributes to a node's accounting.
pub open spec fn mem_contrib(p: Pod, n: Seq<char>) -> int {
    if pod_charged_on(p, n) {
        p.resources.memory_mb as int
    } else {
        0
    }
}

/// Summed CPU charged to a node.
pub open spec fn charged_cpu(pods: Seq<Pod>, n: Seq<char>) -> int
    decreases pods.len(),
{
    if pods.len() == 0 {
        0
    } else {
        charged_cpu(pods.drop_last(), n) + cpu_contrib(pods.last(), n)
    }
}

/// Summed memory charged to a node.
pub open spec fn charged_mem(pods: Seq<Pod>, n: Seq<char>) -> int
    decreases pods.len(),
{
    if pods.len() == 0 {
        0
    } else {
        charged_mem(pods.drop_last(), n) + mem_contrib(pods.last(), n)
    }
}

/// The master's accounting is consistent: every node's recorded usage is
/// exactly the sum of the resources of the pods charged to it.
pub open spec fn node_accounting_ok(pods: Seq<Pod>, nodes: Seq<crate::models::Node>) -> bool {
    forall|j: int|
        0 <= j < nodes.len() ==> (#[trigger] nodes[j]).used.cpu_millis == charged_cpu(
            pods,
            nodes[j].name@,
        ) && nodes[j].used.memory_mb == charged_mem(pods, nodes[j].name@)
}

proof fn lemma_charged_nonneg(pods: Seq<Pod>, n: Seq<char>)
    ensures
        charged_cpu(pods, n) >= 0,
        charged_mem(pods, n) >= 0,
    decreases pods.len(),
{
    if pods.len() > 0 {
        lemma_charged_nonneg(pods.drop_last(), n);
    }
}

/// Replacing one pod changes a node's charge by the difference of the two
/// pods' contributions.
proof fn lemma_charged_update(pods: Seq<Pod>, n: Seq<char>, i: int, p: Pod)
    requires
        0 <= i < pods.len(),
    ensures
        charged_cpu(pods.update(i, p), n) == charged_cpu(pods, n) - cpu_contrib(pods[i], n)
            + cpu_contrib(p, n),
        charged_mem(pods.update(i, p), n) == charged_mem(pods, n) - mem_contrib(pods[i], n)
            + mem_contrib(p, n),
    decreases pods.len(),
{
    let post = pods.update(i, p);
    if i == pods.len() - 1 {
        assert(post.drop_last() =~= pods.drop_last());
        assert(post.last() == p);
    } else {
        assert(post.drop_last() =~= pods.drop_last().update(i, p));
        assert(post.last() == pods.last());
        lemma_charged_update(pods.drop_last(), n, i, p);
        assert(pods.drop_last()[i] == pods[i]);
    }
}

/// A charged pod's contribution never exceeds the node's total charge.
proof fn lemma_charged_elem_bound(pods: Seq<Pod>, n: Seq<char>, i: int)
    requires
        0 <= i < pods.len(),
    ensures
        charged_cpu(pods, n) >= cpu_contrib(pods[i], n),
        charged_mem(pods, n) >= mem_contrib(pods[i], n),
    decreases pods.len(),
{
    lemma_charged_nonneg(pods.drop_last(), n);
    if i == pods.len() - 1 {
    } else {
        lemma_charged_elem_bound(pods.drop_last(), n, i);
        assert(pods.drop_last()[i] == pods[i]);
    }
}

/// Binding a pending pod to a node and committing its reservation keeps the
/// accounting consistent — provided the reservation fits, which the
/// scheduler's filter guarantees against its snapshot.
pub proof fn lemma_bind_preserves_accounting(
    pods: Seq<Pod>,
    nodes: Seq<crate::models::Node>,
    id: u128,
    node_name: String,
    r: Resources,
)
    requires
        node_accounting_ok(pods, nodes),
        crate::store::node_names_unique(nodes),
        has_pod(pods, id),
        the_pod(pods, id).node_name is None,
        r == the_pod(pods, id).resources,
        crate::store::has_node(nodes, node_name@) ==> crate::models::spec_node_can_fit(
            crate::store::the_node(nodes, node_name@),
            r,
        ),
    ensures
        node_accounting_ok(
            update_pod(pods, id, crate::scheduler::pod_bound(the_pod(pods, id), node_name)),
            crate::store::nodes_after_alloc(nodes, node_name@, r),
        ),
{
    let i = pod_idx(pods, id);
    let p0 = the_pod(pods, id);
    let p1 = crate::scheduler::pod_bound(p0, node_name);
    let pods1 = update_pod(pods, id, p1);
    let nodes1 = crate::store::nodes_after_alloc(nodes, node_name@, r);
    assert forall|j: int|
        0 <= j < nodes1.len() implies (#[trigger] nodes1[j]).used.cpu_millis == charged_cpu(
        pods1,
        nodes1[j].name@,
    ) && nodes1[j].used.memory_mb == charged_mem(pods1, nodes1[j].name@) by {
        lemma_charged_update(pods, nodes1[j].name@, i, p1);
        assert(cpu_contrib(p0, nodes1[j].name@) == 0);
        assert(mem_contrib(p0, nodes1[j].name@) == 0);
        if crate::store::has_node(nodes, node_name@) {
            let k = crate::store::node_idx(nodes, node_name@);
            assert(0 <= k < nodes.len() && nodes[k].name@ == node_name@);
            if j == k {
                assert(nodes1[j] == crate::store::node_alloc(nodes[k], r));
                assert(cpu_contrib(p1, node_name@) == r.cpu_millis as int);
            } else {
                assert(nodes1[j] == nodes[j]);
                assert(nodes[j].name@ != node_name@);
                assert(cpu_contrib(p1, nodes1[j].name@) == 0);
                assert(mem_contrib(p1, nodes1[j].name@) == 0);
            }
        } else {
            assert(nodes1[j] == nodes[j]);
            assert(nodes1[j].name@ != node_name@);
            assert(cpu_contrib(p1, nodes1[j].name@) == 0);
            assert(mem_contrib(p1, nodes1[j].name@) == 0);
        }
    }
}

/// A status change that moves a pod between two charged states — or touches
/// an unassigned pod — leaves every node's accounting as it was.
pub proof fn lemma_status_change_preserves_accounting(
    pods: Seq<Pod>,
    nodes: Seq<crate::models::Node>,
    id: u128,
    st: PodStatus,
)
    requires
        node_accounting_ok(pods, nodes),
        has_pod(pods, id) ==> (charged_status(the_pod(pods, id).status) == charged_status(st)
            || the_pod(pods, id).node_name is None),
    ensures
        node_accounting_ok(
            update_pod(pods, id, pod_with_status(the_pod(pods, id), st)),
            nodes,
        ),
{
    if has_pod(pods, id) {
        let i = pod_idx(pods, id);
        let p0 = the_pod(pods, id);
        let p1 = pod_with_status(p0, st);
        let pods1 = update_pod(pods, id, p1);
        assert forall|j: int|
            0 <= j < nodes.len() implies (#[trigger] nodes[j]).used.cpu_millis == charged_cpu(
            pods1,
            nodes[j].name@,
        ) && nodes[j].used.memory_mb == charged_mem(pods1, nodes[j].name@) by {
            lemma_charged_update(pods, nodes[j].name@, i, p1);
            assert(cpu_contrib(p1, nodes[j].name@) == cpu_contrib(p0, nodes[j].name@));
            assert(mem_contrib(p1, nodes[j].name@) == mem_contrib(p0, nodes[j].name@));
        }
    }
}

/// Moving a charged pod to an uncharged state while releasing its
/// reservation keeps the accounting consistent: the node loses exactly the
/// pod's contribution.
pub proof fn lemma_unbind_preserves_accounting(
    pods: Seq<Pod>,
    nodes: Seq<crate::models::Node>,
    id: u128,
    n: Seq<char>,
    r: Resources,
    st: PodStatus,
)
    requires
        node_accounting_ok(pods, nodes),
        crate::store::node_names_unique(nodes),
        has_pod(pods, id),
        the_pod(pods, id).node_name matches Some(nn) && nn@ == n,
        charged_status(the_pod(pods, id).status),
        !charged_status(st),
        r == the_pod(pods, id).resources,
    ensures
        node_accounting_ok(
            update_pod(pods, id, pod_with_status(the_pod(pods, id), st)),
            crate::store::nodes_after_dealloc(nodes, n, r),
        ),
{
    let i = pod_idx(pods, id);
    let p0 = the_pod(pods, id);
    let p1 = pod_with_status(p0, st);
    let pods1 = update_pod(pods, id, p1);
    let nodes1 = crate::store::nodes_after_dealloc(nodes, n, r);
    assert forall|j: int|
        0 <= j < nodes1.len() implies (#[trigger] nodes1[j]).used.cpu_millis == charged_cpu(
        pods1,
        nodes1[j].name@,
    ) && nodes1[j].used.memory_mb == charged_mem(pods1, nodes1[j].name@) by {
        lemma_charged_update(pods, nodes1[j].name@, i, p1);
        assert(cpu_contrib(p1, nodes1[j].name@) == 0);
        assert(mem_contrib(p1, nodes1[j].name@) == 0);
        if crate::store::has_node(nodes, n) {
            let k = crate::store::node_idx(nodes, n);
            assert(0 <= k < nodes.len() && nodes[k].name@ == n);
            if j == k {
                assert(nodes1[j] == crate::store::node_dealloc(nodes[k], r));
                lemma_charged_elem_bound(pods, n, i);
                assert(cpu_contrib(p0, n) == r.cpu_millis as int);
                assert(mem_contrib(p0, n) == r.memory_mb as int);
            } else {
                assert(nodes1[j] == nodes[j]);
                assert(nodes[j].name@ != n);
                assert(cpu_contrib(p0, nodes1[j].name@) == 0);
            }
        } else {
            assert(nodes1[j] == nodes[j]);
            assert(nodes1[j].name@ != n);
            assert(cpu_contrib(p0, nodes1[j].name@) == 0);
        }
    }
}

/// Creating pods charges nothing, so it keeps the accounting consistent.
pub proof fn lemma_creations_preserve_accounting(
    pre: Seq<Pod>,
    nodes: Seq<crate::models::Node>,
    d: Deployment,
    base: int,
    created: Seq<Pod>,
)
    requires
        node_accounting_ok(pre, nodes),
        creations_ok(pre, d, base, created),
    ensures
        node_accounting_ok(pods_after_creations(pre, created), nodes),
    decreases created.len(),
{
    if created.len() > 0 {
        let prefix = created.drop_last();
        let p = created.last();
        lemma_creations_ok_prefix(pre, d, base, created);
        lemma_creations_preserve_accounting(pre, nodes, d, base, prefix);
        let mid = pods_after_creations(pre, prefix);
        assert(created.take(created.len() - 1) =~= prefix);
        assert(created_pod_ok(mid, d, base + created.len() - 1, p));
        assert(!has_pod(mid, p.id));
        assert(pods_after_creations(pre, created) == mid.push(p));
        assert forall|j: int|
            0 <= j < nodes.len() implies (#[trigger] nodes[j]).used.cpu_millis == charged_cpu(
            mid.push(p),
            nodes[j].name@,
        ) && nodes[j].used.memory_mb == charged_mem(mid.push(p), nodes[j].name@) by {
            assert(mid.push(p).drop_last() =~= mid);
            assert(mid.push(p).last() == p);
            assert(cpu_contrib(p, nodes[j].name@) == 0);
        }
    }
}

/// Garbage collection removes only terminated pods, which are charged
/// nowhere, so it keeps the accounting consistent.
pub proof fn lemma_gc_preserves_accounting(pods: Seq<Pod>, nodes: Seq<crate::models::Node>)
    requires
        node_accounting_ok(pods, nodes),
    ensures
        node_accounting_ok(crate::store::gc_keep(pods), nodes),
{
    assert forall|j: int|
        0 <= j < nodes.len() implies (#[trigger] nodes[j]).used.cpu_millis == charged_cpu(
        crate::store::gc_keep(pods),
        nodes[j].name@,
    ) && nodes[j].used.memory_mb == charged_mem(crate::store::gc_keep(pods), nodes[j].name@) by {
        lemma_gc_charge_unchanged(pods, nodes[j].name@);
    }
}

proof fn lemma_gc_charge_unchanged(pods: Seq<Pod>, n: Seq<char>)
    ensures
        charged_cpu(crate::store::gc_keep(pods), n) == charged_cpu(pods, n),
        charged_mem(crate::store::gc_keep(pods), n) == charged_mem(pods, n),
    decreases pods.len(),
{
    if pods.len() > 0 {
        let dl = pods.drop_last();
        lemma_gc_charge_unchanged(dl, n);
        if pods.last().status != PodStatus::Terminated {
            let g = crate::store::gc_keep(pods);
            assert(g =~= crate::store::gc_keep(dl).push(pods.last()));
            assert(g.drop_last() =~= crate::store::gc_keep(dl));
            assert(g.last() == pods.last());
        } else {
            assert(crate::store::gc_keep(pods) =~= crate::store::gc_keep(dl));
            assert(cpu_contrib(pods.last(), n) == 0);
        }
    }
}

} // verus!
